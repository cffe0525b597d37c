//! Truncated power series in the Novikov variable `q` with exact rational
//! coefficients.

use vstd::prelude::*;
use crate::foundation::error::GwError;
use crate::foundation::rational::{
    lemma_add_congruent, lemma_denominator_product_positive, lemma_rat_add_associative, lemma_div_congruent, lemma_mul_congruent,
    lemma_neg_congruent, lemma_same_value_transitive, lemma_sub_congruent, rat_add, rat_div, rat_mul, rat_neg, rat_of_int,
    rat_sub, rational_text, same_value, Rational, RationalView,
};
use crate::text::{decimal, join_seqs, join_strings, push_str, push_string, push_usize, string_from};

verus! {

/// The coefficients of a truncated series, `s[d]` the coefficient of `q^d`.
pub type SeriesView = Seq<RationalView>;

/// The two coefficient lists have the same length and the same values.
pub open spec fn same_series(a: SeriesView, b: SeriesView) -> bool {
    &&& a.len() == b.len()
    &&& forall|i: int| 0 <= i < a.len() ==> same_value(#[trigger] a[i], b[i])
}

/// The values of a list of rationals.
pub open spec fn coefficient_views(v: Seq<Rational>) -> SeriesView {
    Seq::new(v.len(), |i: int| v[i]@)
}

/// Every coefficient has a positive denominator.
pub open spec fn positive_coefficients(a: SeriesView) -> bool {
    forall|i: int| 0 <= i < a.len() ==> (#[trigger] a[i]).1 > 0
}

pub open spec fn zero_series(n: nat) -> SeriesView {
    Seq::new(n, |i: int| rat_of_int(0))
}

/// `c` in degree zero, zero elsewhere.
pub open spec fn constant_series(c: RationalView, n: nat) -> SeriesView {
    Seq::new(n, |i: int| if i == 0 { c } else { rat_of_int(0) })
}

/// The series `q` truncated to `n` coefficients.
pub open spec fn q_series(n: nat) -> SeriesView {
    Seq::new(n, |i: int| if i == 1 { rat_of_int(1) } else { rat_of_int(0) })
}

pub open spec fn sum_series(a: SeriesView, b: SeriesView) -> SeriesView {
    Seq::new(a.len(), |i: int| rat_add(a[i], b[i]))
}

pub open spec fn difference_series(a: SeriesView, b: SeriesView) -> SeriesView {
    Seq::new(a.len(), |i: int| rat_sub(a[i], b[i]))
}

pub open spec fn negated_series(a: SeriesView) -> SeriesView {
    Seq::new(a.len(), |i: int| rat_neg(a[i]))
}

pub open spec fn scaled_series(a: SeriesView, s: RationalView) -> SeriesView {
    Seq::new(a.len(), |i: int| rat_mul(a[i], s))
}

/// `q d/dq`: the coefficient of `q^d` is multiplied by `d`.
pub open spec fn q_derivative_series(a: SeriesView) -> SeriesView {
    Seq::new(a.len(), |i: int| if i == 0 { rat_of_int(0) } else { rat_mul(a[i], rat_of_int(i)) })
}

/// `sum_{i < k} a[i] b[d - i]`.
pub open spec fn convolution(a: SeriesView, b: SeriesView, d: int, k: nat) -> RationalView
    decreases k,
{
    if k == 0 {
        rat_of_int(0)
    } else {
        rat_add(convolution(a, b, d, (k - 1) as nat), rat_mul(a[k - 1], b[d - (k - 1)]))
    }
}

/// The truncated product: the coefficient of `q^d` is `sum_{i <= d} a[i] b[d - i]`.
pub open spec fn product_series(a: SeriesView, b: SeriesView) -> SeriesView {
    Seq::new(a.len(), |d: int| convolution(a, b, d, (d + 1) as nat))
}

/// A truncated power series `sum_{d <= max_degree} c_d q^d` with exact
/// rational coefficients; it always holds its constant coefficient.
#[derive(Debug, PartialEq, Eq)]
pub struct QSeries {
    coeffs: Vec<Rational>,
}

/// Series with plain rational coefficients.
pub type RationalQSeries = QSeries;

impl View for QSeries {
    type V = SeriesView;

    closed spec fn view(&self) -> SeriesView {
        coefficient_views(self.coeffs@)
    }
}

impl QSeries {
    #[verifier::type_invariant]
    spec fn has_constant(self) -> bool {
        self.coeffs@.len() >= 1
    }

}

/// Every rational has a positive denominator; this walks the list to make
/// that visible for all of its coefficients.
fn positive_views(values: &[Rational])
    ensures
        positive_coefficients(coefficient_views(values@)),
{
    let mut i: usize = 0;
    while i < values.len()
        invariant
            i <= values@.len(),
            forall|j: int| 0 <= j < i ==> (#[trigger] values@[j])@.1 > 0,
        decreases values@.len() - i,
    {
        let x = &values[i];
        proof {
            use_type_invariant(x);
        }
        i = i + 1;
    }
    proof {
        let views = coefficient_views(values@);
        assert forall|j: int| 0 <= j < views.len() implies (#[trigger] views[j]).1 > 0 by {
            assert(views[j] == values@[j]@);
        }
    }
}

/// A copy of a coefficient list.
fn copy_coefficients(values: &[Rational]) -> (out: Vec<Rational>)
    ensures
        out@.len() == values@.len(),
        coefficient_views(out@) == coefficient_views(values@),
{
    let mut out: Vec<Rational> = Vec::new();
    let mut i: usize = 0;
    while i < values.len()
        invariant
            i <= values@.len(),
            out@.len() == i,
            forall|j: int| 0 <= j < i ==> (#[trigger] out@[j])@ == values@[j]@,
        decreases values@.len() - i,
    {
        out.push(values[i].clone());
        i = i + 1;
    }
    proof {
        assert(coefficient_views(out@) =~= coefficient_views(values@));
    }
    out
}

impl QSeries {
    /// Every coefficient has a positive denominator and there is at least
    /// one coefficient.
    pub(crate) fn check_denominators(&self)
        ensures
            positive_coefficients(self@),
            self@.len() >= 1,
    {
        proof {
            use_type_invariant(self);
        }
        positive_views(self.coeffs.as_slice());
    }
}

impl Clone for QSeries {
    fn clone(&self) -> (c: Self)
        ensures
            c@ == self@,
    {
        proof {
            use_type_invariant(self);
        }
        QSeries { coeffs: copy_coefficients(self.coeffs.as_slice()) }
    }
}

/// `n` zero coefficients.
fn zeros(n: usize) -> (out: Vec<Rational>)
    ensures
        out@.len() == n,
        coefficient_views(out@) == zero_series(n as nat),
{
    let mut out: Vec<Rational> = Vec::new();
    while out.len() < n
        invariant
            out@.len() <= n,
            forall|j: int| 0 <= j < out@.len() ==> (#[trigger] out@[j])@ == rat_of_int(0),
        decreases n - out@.len(),
    {
        out.push(Rational::zero());
    }
    proof {
        assert(coefficient_views(out@) =~= zero_series(n as nat));
    }
    out
}

impl QSeries {
    /// The series with these coefficients; there must be at least one.
    pub fn from_coeffs(coeffs: Vec<Rational>) -> (s: Self)
        requires
            coeffs@.len() >= 1,
        ensures
            s@ == coefficient_views(coeffs@),
    {
        QSeries { coeffs }
    }

    pub fn zero(max_degree: usize) -> (s: Self)
        requires
            max_degree < usize::MAX,
        ensures
            s@ == zero_series(max_degree as nat + 1),
    {
        QSeries { coeffs: zeros(max_degree + 1) }
    }

    pub fn one(max_degree: usize) -> (s: Self)
        requires
            max_degree < usize::MAX,
        ensures
            s@ == constant_series(rat_of_int(1), max_degree as nat + 1),
    {
        Self::constant(Rational::one(), max_degree)
    }

    pub fn constant(value: Rational, max_degree: usize) -> (s: Self)
        requires
            max_degree < usize::MAX,
        ensures
            s@ == constant_series(value@, max_degree as nat + 1),
    {
        let ghost v = value@;
        let mut coeffs = zeros(max_degree + 1);
        let ghost before = coeffs@;
        coeffs.set(0, value);
        proof {
            assert forall|j: int| 0 <= j < coeffs@.len() implies (#[trigger] coeffs@[j])@ == constant_series(v, max_degree as nat + 1)[j] by {
                if j > 0 {
                    assert(coeffs@[j] == before[j]);
                    assert(coefficient_views(before)[j] == before[j]@);
                }
            }
            assert(coefficient_views(coeffs@) =~= constant_series(v, max_degree as nat + 1));
        }
        QSeries { coeffs }
    }

    /// The series `q` (zero when truncated at degree zero).
    pub fn q(max_degree: usize) -> (s: Self)
        requires
            max_degree < usize::MAX,
        ensures
            s@ == q_series(max_degree as nat + 1),
    {
        let mut coeffs = zeros(max_degree + 1);
        let ghost before = coeffs@;
        if max_degree >= 1 {
            coeffs.set(1, Rational::one());
        }
        proof {
            assert forall|j: int| 0 <= j < coeffs@.len() implies (#[trigger] coeffs@[j])@ == q_series(max_degree as nat + 1)[j] by {
                if j != 1 {
                    assert(coeffs@[j] == before[j]);
                    assert(coefficient_views(before)[j] == before[j]@);
                }
            }
            assert(coefficient_views(coeffs@) =~= q_series(max_degree as nat + 1));
        }
        QSeries { coeffs }
    }

    pub fn max_degree(&self) -> (d: usize)
        ensures
            d == self@.len() - 1,
            d < usize::MAX,
    {
        proof {
            use_type_invariant(self);
        }
        self.coeffs.len() - 1
    }

    pub fn coeff(&self, degree: usize) -> (c: Option<&Rational>)
        ensures
            degree < self@.len() ==> (c matches Some(x) && x@ == self@[degree as int]),
            degree >= self@.len() ==> c is None,
    {
        if degree < self.coeffs.len() {
            Some(&self.coeffs[degree])
        } else {
            None
        }
    }

    pub fn coeffs(&self) -> (out: &[Rational])
        ensures
            coefficient_views(out@) == self@,
    {
        self.coeffs.as_slice()
    }

    /// Every coefficient is zero.
    pub fn is_zero(&self) -> (z: bool)
        ensures
            z == forall|i: int| 0 <= i < self@.len() ==> (#[trigger] self@[i]).0 == 0,
    {
        let mut i: usize = 0;
        while i < self.coeffs.len()
            invariant
                i <= self@.len(),
                self@ == coefficient_views(self.coeffs@),
                forall|j: int| 0 <= j < i ==> (#[trigger] self@[j]).0 == 0,
            decreases self@.len() - i,
        {
            proof {
                assert(self@[i as int] == self.coeffs@[i as int]@);
            }
            if !self.coeffs[i].is_zero() {
                return false;
            }
            i = i + 1;
        }
        true
    }

    /// For rational coefficients, structural zero is zero.
    pub fn is_structurally_zero(&self) -> (z: bool)
        ensures
            z == forall|i: int| 0 <= i < self@.len() ==> (#[trigger] self@[i]).0 == 0,
    {
        self.is_zero()
    }

    /// The constant coefficient is one and all others are zero.
    pub fn is_structurally_one(&self) -> (b: bool)
        ensures
            b == (same_value(self@[0], rat_of_int(1)) && forall|i: int| 1 <= i < self@.len() ==> (#[trigger] self@[i]).0 == 0),
    {
        proof {
            use_type_invariant(self);
        }
        proof {
            assert(self@[0] == self.coeffs@[0]@);
        }
        if !self.coeffs[0].equals(&Rational::one()) {
            return false;
        }
        let mut i: usize = 1;
        while i < self.coeffs.len()
            invariant
                1 <= i <= self@.len(),
                self@ == coefficient_views(self.coeffs@),
                forall|j: int| 1 <= j < i ==> (#[trigger] self@[j]).0 == 0,
            decreases self@.len() - i,
        {
            proof {
                assert(self@[i as int] == self.coeffs@[i as int]@);
            }
            if !self.coeffs[i].is_zero() {
                return false;
            }
            i = i + 1;
        }
        true
    }

    /// The number of nonzero coefficients.
    pub fn complexity_terms(&self) -> (n: usize)
        ensures
            n == nonzero_count(self@),
    {
        let mut n: usize = 0;
        let mut i: usize = 0;
        while i < self.coeffs.len()
            invariant
                i <= self@.len(),
                self@ == coefficient_views(self.coeffs@),
                n == nonzero_count(self@.take(i as int)),
                n <= i,
            decreases self@.len() - i,
        {
            proof {
                assert(self@.take(i + 1).drop_last() =~= self@.take(i as int));
                assert(self@.take(i + 1).last() == self.coeffs@[i as int]@);
            }
            if !self.coeffs[i].is_zero() {
                n = n + 1;
            }
            i = i + 1;
        }
        proof {
            assert(self@.take(self@.len() as int) =~= self@);
        }
        n
    }

    /// Rational coefficients carry no denominator factors.
    pub fn complexity_denominator_factors(&self) -> (n: usize)
        ensures
            n == 0,
    {
        0
    }
}

/// Number of nonzero coefficients.
pub open spec fn nonzero_count(a: SeriesView) -> nat
    decreases a.len(),
{
    if a.len() == 0 {
        0
    } else {
        nonzero_count(a.drop_last()) + (if a.last().0 != 0 { 1nat } else { 0nat })
    }
}


/// `sum_{i <= d} a[i] b[d - i]`, summed in increasing `i`.
fn convolution_at(a: &Vec<Rational>, b: &Vec<Rational>, d: usize) -> (r: Rational)
    requires
        d < a@.len(),
        d < b@.len(),
    ensures
        same_value(r@, convolution(coefficient_views(a@), coefficient_views(b@), d as int, d as nat + 1)),
{
    let ghost av = coefficient_views(a@);
    let ghost bv = coefficient_views(b@);
    let n = a.len();
    let mut sum = Rational::zero();
    let mut i: usize = 0;
    while i <= d
        invariant
            i <= d + 1,
            d < n,
            n == a@.len(),
            d < a@.len(),
            d < b@.len(),
            av == coefficient_views(a@),
            bv == coefficient_views(b@),
            same_value(sum@, convolution(av, bv, d as int, i as nat)),
        decreases d + 1 - i,
    {
        let product = a[i].mul(&b[d - i]);
        let next = sum.add(&product);
        proof {
            assert(av[i as int] == a@[i as int]@);
            assert(bv[d - i] == b@[d - i]@);
            use_type_invariant(&sum);
            use_type_invariant(&product);
            lemma_denominator_product_positive(sum@, product@);
            lemma_add_congruent(sum@, convolution(av, bv, d as int, i as nat), product@, rat_mul(av[i as int], bv[d - i]));
            lemma_same_value_transitive(next@, rat_add(sum@, product@),
                rat_add(convolution(av, bv, d as int, i as nat), rat_mul(av[i as int], bv[d - i])));
        }
        sum = next;
        i = i + 1;
    }
    sum
}

impl QSeries {
    /// Coefficientwise sum; both series have the same truncation.
    pub fn add(&self, rhs: &Self) -> (out: Self)
        requires
            self@.len() == rhs@.len(),
        ensures
            same_series(out@, sum_series(self@, rhs@)),
    {
        proof {
            use_type_invariant(self);
        }
        let mut coeffs: Vec<Rational> = Vec::new();
        let mut i: usize = 0;
        while i < self.coeffs.len()
            invariant
                i <= self@.len(),
                self@.len() == rhs@.len(),
                self@ == coefficient_views(self.coeffs@),
                rhs@ == coefficient_views(rhs.coeffs@),
                coeffs@.len() == i,
                forall|j: int| 0 <= j < i ==> same_value((#[trigger] coeffs@[j])@, rat_add(self@[j], rhs@[j])),
            decreases self@.len() - i,
        {
            proof {
                assert(self@[i as int] == self.coeffs@[i as int]@);
                assert(rhs@[i as int] == rhs.coeffs@[i as int]@);
            }
            coeffs.push(self.coeffs[i].add(&rhs.coeffs[i]));
            i = i + 1;
        }
        let out = QSeries { coeffs };
        proof {
            assert forall|j: int| 0 <= j < out@.len() implies same_value(#[trigger] out@[j], sum_series(self@, rhs@)[j]) by {
                assert(out@[j] == out.coeffs@[j]@);
            }
        }
        out
    }

    /// Add `rhs` into this series.
    pub fn add_assign(&mut self, rhs: &Self)
        requires
            old(self)@.len() == rhs@.len(),
        ensures
            same_series(final(self)@, sum_series(old(self)@, rhs@)),
    {
        let sum = self.add(rhs);
        *self = sum;
    }

    /// Coefficientwise difference.
    pub fn sub(&self, rhs: &Self) -> (out: Self)
        requires
            self@.len() == rhs@.len(),
        ensures
            same_series(out@, difference_series(self@, rhs@)),
    {
        proof {
            use_type_invariant(self);
        }
        let mut coeffs: Vec<Rational> = Vec::new();
        let mut i: usize = 0;
        while i < self.coeffs.len()
            invariant
                i <= self@.len(),
                self@.len() == rhs@.len(),
                self@ == coefficient_views(self.coeffs@),
                rhs@ == coefficient_views(rhs.coeffs@),
                coeffs@.len() == i,
                forall|j: int| 0 <= j < i ==> same_value((#[trigger] coeffs@[j])@, rat_sub(self@[j], rhs@[j])),
            decreases self@.len() - i,
        {
            proof {
                assert(self@[i as int] == self.coeffs@[i as int]@);
                assert(rhs@[i as int] == rhs.coeffs@[i as int]@);
            }
            coeffs.push(self.coeffs[i].sub(&rhs.coeffs[i]));
            i = i + 1;
        }
        let out = QSeries { coeffs };
        proof {
            assert forall|j: int| 0 <= j < out@.len() implies same_value(#[trigger] out@[j], difference_series(self@, rhs@)[j]) by {
                assert(out@[j] == out.coeffs@[j]@);
            }
        }
        out
    }

    /// Coefficientwise negation.
    pub fn neg(&self) -> (out: Self)
        ensures
            same_series(out@, negated_series(self@)),
    {
        proof {
            use_type_invariant(self);
        }
        let mut coeffs: Vec<Rational> = Vec::new();
        let mut i: usize = 0;
        while i < self.coeffs.len()
            invariant
                i <= self@.len(),
                self@ == coefficient_views(self.coeffs@),
                coeffs@.len() == i,
                forall|j: int| 0 <= j < i ==> same_value((#[trigger] coeffs@[j])@, rat_neg(self@[j])),
            decreases self@.len() - i,
        {
            proof {
                assert(self@[i as int] == self.coeffs@[i as int]@);
            }
            coeffs.push(self.coeffs[i].neg());
            i = i + 1;
        }
        let out = QSeries { coeffs };
        proof {
            assert forall|j: int| 0 <= j < out@.len() implies same_value(#[trigger] out@[j], negated_series(self@)[j]) by {
                assert(out@[j] == out.coeffs@[j]@);
            }
        }
        out
    }

    /// Every coefficient times `scalar`.
    pub fn scale(&self, scalar: &Rational) -> (out: Self)
        ensures
            same_series(out@, scaled_series(self@, scalar@)),
    {
        proof {
            use_type_invariant(self);
        }
        let mut coeffs: Vec<Rational> = Vec::new();
        let mut i: usize = 0;
        while i < self.coeffs.len()
            invariant
                i <= self@.len(),
                self@ == coefficient_views(self.coeffs@),
                coeffs@.len() == i,
                forall|j: int| 0 <= j < i ==> same_value((#[trigger] coeffs@[j])@, rat_mul(self@[j], scalar@)),
            decreases self@.len() - i,
        {
            proof {
                assert(self@[i as int] == self.coeffs@[i as int]@);
            }
            coeffs.push(self.coeffs[i].mul(scalar));
            i = i + 1;
        }
        let out = QSeries { coeffs };
        proof {
            assert forall|j: int| 0 <= j < out@.len() implies same_value(#[trigger] out@[j], scaled_series(self@, scalar@)[j]) by {
                assert(out@[j] == out.coeffs@[j]@);
            }
        }
        out
    }

    /// `q d/dq`: the coefficient of `q^d` is multiplied by `d`.
    pub fn q_derivative(&self) -> (out: Self)
        ensures
            same_series(out@, q_derivative_series(self@)),
    {
        proof {
            use_type_invariant(self);
        }
        let mut coeffs: Vec<Rational> = Vec::new();
        let mut i: usize = 0;
        while i < self.coeffs.len()
            invariant
                i <= self@.len(),
                self@ == coefficient_views(self.coeffs@),
                coeffs@.len() == i,
                forall|j: int| 0 <= j < i ==> same_value((#[trigger] coeffs@[j])@, q_derivative_series(self@)[j]),
            decreases self@.len() - i,
        {
            proof {
                assert(self@[i as int] == self.coeffs@[i as int]@);
            }
            if i == 0 {
                coeffs.push(Rational::zero());
            } else {
                let factor = Rational::from_usize(i);
                let coefficient = &self.coeffs[i];
                let value = coefficient.mul(&factor);
                proof {
                    let c = *coefficient;
                    use_type_invariant(&factor);
                    use_type_invariant(coefficient);
                    lemma_denominator_product_positive(c@, factor@);
                    lemma_mul_congruent(c@, c@, factor@, rat_of_int(i as int));
                    lemma_same_value_transitive(value@, rat_mul(c@, factor@), rat_mul(c@, rat_of_int(i as int)));
                }
                coeffs.push(value);
            }
            i = i + 1;
        }
        let out = QSeries { coeffs };
        proof {
            assert forall|j: int| 0 <= j < out@.len() implies same_value(#[trigger] out@[j], q_derivative_series(self@)[j]) by {
                assert(out@[j] == out.coeffs@[j]@);
            }
        }
        out
    }

    /// The truncated product.
    pub fn mul(&self, rhs: &Self) -> (out: Self)
        requires
            self@.len() == rhs@.len(),
        ensures
            same_series(out@, product_series(self@, rhs@)),
    {
        proof {
            use_type_invariant(self);
        }
        let mut coeffs: Vec<Rational> = Vec::new();
        let mut d: usize = 0;
        while d < self.coeffs.len()
            invariant
                d <= self@.len(),
                self@.len() == rhs@.len(),
                self@ == coefficient_views(self.coeffs@),
                rhs@ == coefficient_views(rhs.coeffs@),
                coeffs@.len() == d,
                forall|j: int| 0 <= j < d ==> same_value((#[trigger] coeffs@[j])@, product_series(self@, rhs@)[j]),
            decreases self@.len() - d,
        {
            coeffs.push(convolution_at(&self.coeffs, &rhs.coeffs, d));
            d = d + 1;
        }
        let out = QSeries { coeffs };
        proof {
            assert forall|j: int| 0 <= j < out@.len() implies same_value(#[trigger] out@[j], product_series(self@, rhs@)[j]) by {
                assert(out@[j] == out.coeffs@[j]@);
            }
        }
        out
    }

    /// Add `left * right` into this series.
    pub fn add_product_assign(&mut self, left: &Self, right: &Self)
        requires
            left@.len() == right@.len(),
            old(self)@.len() == left@.len(),
        ensures
            same_series(final(self)@, sum_series(old(self)@, product_series(left@, right@))),
    {
        let product = left.mul(right);
        let ghost before = self@;
        positive_views(self.coeffs.as_slice());
        positive_views(product.coeffs.as_slice());
        let sum = self.add(&product);
        proof {
            assert forall|j: int| 0 <= j < sum@.len() implies same_value(#[trigger] sum@[j], sum_series(before, product_series(left@, right@))[j]) by {
                lemma_add_congruent(before[j], before[j], product@[j], product_series(left@, right@)[j]);
                lemma_denominator_product_positive(before[j], product@[j]);
                lemma_same_value_transitive(sum@[j], rat_add(before[j], product@[j]), rat_add(before[j], product_series(left@, right@)[j]));
            }
        }
        *self = sum;
    }
}


/// The coefficient of `q^d` in `1 / a`: `1 / a[0]` in degree zero, then
/// `-(sum_{1 <= k <= d} a[k] (1/a)[d - k]) / a[0]`.
pub open spec fn inverse_coeff(a: SeriesView, d: nat) -> RationalView
    decreases d, 1nat, 0nat,
{
    if d == 0 {
        rat_div(rat_of_int(1), a[0])
    } else {
        rat_neg(rat_div(inverse_sum(a, d, d), a[0]))
    }
}

/// `sum_{1 <= j <= k} a[j] (1/a)[d - j]`.
pub open spec fn inverse_sum(a: SeriesView, d: nat, k: nat) -> RationalView
    decreases d, 0nat, k,
{
    if k == 0 || k > d {
        rat_of_int(0)
    } else {
        rat_add(inverse_sum(a, d, (k - 1) as nat), rat_mul(a[k as int], inverse_coeff(a, (d - k) as nat)))
    }
}

pub open spec fn inverse_series(a: SeriesView) -> SeriesView {
    Seq::new(a.len(), |d: int| inverse_coeff(a, d as nat))
}

proof fn lemma_div_denominator(x: RationalView, y: RationalView)
    requires
        x.1 > 0,
        y.0 != 0,
    ensures
        rat_div(x, y).1 > 0,
{
    if y.0 > 0 {
        assert(x.1 * y.0 > 0) by (nonlinear_arith)
            requires
                x.1 > 0,
                y.0 > 0,
        ;
    } else {
        assert(-(x.1 * y.0) > 0) by (nonlinear_arith)
            requires
                x.1 > 0,
                y.0 < 0,
        ;
    }
}

impl QSeries {
    /// The multiplicative inverse; the constant coefficient must not be
    /// zero.
    pub fn inverse(&self) -> (r: Result<Self, GwError>)
        ensures
            r is Err <==> self@[0].0 == 0,
            r matches Err(e) ==> (e matches GwError::AlgebraFailure(m)
                && m@ == "cannot invert q-series with zero constant term"@),
            r matches Ok(inv) ==> same_series(inv@, inverse_series(self@)),
    {
        proof {
            use_type_invariant(self);
            assert(self@[0] == self.coeffs@[0]@);
        }
        let constant = &self.coeffs[0];
        if constant.is_zero() {
            return Err(GwError::AlgebraFailure(string_from("cannot invert q-series with zero constant term")));
        }
        let ghost a = self@;
        proof {
            use_type_invariant(constant);
        }
        positive_views(self.coeffs.as_slice());
        let n = self.coeffs.len();
        let mut out: Vec<Rational> = Vec::new();
        let one = Rational::one();
        let first = one.div(constant);
        proof {
            lemma_div_congruent(one@, rat_of_int(1), constant@, constant@);
        }
        out.push(first);
        let mut d: usize = 1;
        while d < self.coeffs.len()
            invariant
                1 <= d <= self@.len(),
                n == self@.len(),
                a == self@,
                a == coefficient_views(self.coeffs@),
                positive_coefficients(a),
                a[0].0 != 0,
                *constant == self.coeffs@[0],
                out@.len() == d,
                forall|j: int| 0 <= j < d ==> same_value((#[trigger] out@[j])@, inverse_coeff(a, j as nat)),
            decreases self@.len() - d,
        {
            let mut sum = Rational::zero();
            let mut k: usize = 1;
            while k <= d
                invariant
                    1 <= k <= d + 1,
                    d < self@.len(),
                    n == self@.len(),
                    d < n,
                    a == coefficient_views(self.coeffs@),
                    positive_coefficients(a),
                    out@.len() == d,
                    forall|j: int| 0 <= j < d ==> same_value((#[trigger] out@[j])@, inverse_coeff(a, j as nat)),
                    same_value(sum@, inverse_sum(a, d as nat, (k - 1) as nat)),
                decreases d + 1 - k,
            {
                let earlier = &out[d - k];
                let product = self.coeffs[k].mul(earlier);
                let next = sum.add(&product);
                proof {
                    let ak = a[k as int];
                    assert(ak == self.coeffs@[k as int]@);
                    let o = out@[d - k]@;
                    assert(same_value(o, inverse_coeff(a, (d - k) as nat)));
                    use_type_invariant(&sum);
                    use_type_invariant(&product);
                    use_type_invariant(earlier);
                    lemma_mul_congruent(ak, ak, o, inverse_coeff(a, (d - k) as nat));
                    lemma_denominator_product_positive(ak, o);
                    lemma_same_value_transitive(product@, rat_mul(ak, o), rat_mul(ak, inverse_coeff(a, (d - k) as nat)));
                    lemma_add_congruent(sum@, inverse_sum(a, d as nat, (k - 1) as nat), product@, rat_mul(ak, inverse_coeff(a, (d - k) as nat)));
                    lemma_denominator_product_positive(sum@, product@);
                    lemma_same_value_transitive(next@, rat_add(sum@, product@),
                        rat_add(inverse_sum(a, d as nat, (k - 1) as nat), rat_mul(ak, inverse_coeff(a, (d - k) as nat))));
                    assert(inverse_sum(a, d as nat, k as nat) == rat_add(inverse_sum(a, d as nat, (k - 1) as nat), rat_mul(ak, inverse_coeff(a, (d - k) as nat))));
                }
                sum = next;
                k = k + 1;
            }
            let quotient = sum.div(constant);
            let value = quotient.neg();
            proof {
                let c = constant@;
                let s_spec = inverse_sum(a, d as nat, d as nat);
                use_type_invariant(&sum);
                use_type_invariant(&quotient);
                lemma_div_congruent(sum@, s_spec, c, c);
                lemma_div_denominator(sum@, c);
                lemma_same_value_transitive(quotient@, rat_div(sum@, c), rat_div(s_spec, c));
                lemma_neg_congruent(quotient@, rat_div(s_spec, c));
                lemma_same_value_transitive(value@, rat_neg(quotient@), rat_neg(rat_div(s_spec, c)));
            }
            out.push(value);
            d = d + 1;
        }
        let inv = QSeries { coeffs: out };
        proof {
            assert forall|j: int| 0 <= j < inv@.len() implies same_value(#[trigger] inv@[j], inverse_series(a)[j]) by {
                assert(inv@[j] == inv.coeffs@[j]@);
            }
        }
        Ok(inv)
    }

    /// `self / rhs`: `self` times the inverse of `rhs`.
    pub fn div(&self, rhs: &Self) -> (r: Result<Self, GwError>)
        requires
            self@.len() == rhs@.len(),
        ensures
            r is Err <==> rhs@[0].0 == 0,
            r matches Err(e) ==> (e matches GwError::AlgebraFailure(m)
                && m@ == "cannot invert q-series with zero constant term"@),
            r matches Ok(q) ==> same_series(q@, product_series(self@, inverse_series(rhs@))),
    {
        let inverse = match rhs.inverse() {
            Ok(inverse) => inverse,
            Err(e) => {
                return Err(e);
            },
        };
        let q = self.mul(&inverse);
        positive_product_views(self, &inverse);
        proof {
            lemma_product_congruent(self@, self@, inverse@, inverse_series(rhs@));
            lemma_same_series_transitive(q@, product_series(self@, inverse@), product_series(self@, inverse_series(rhs@)));
        }
        Ok(q)
    }
}

/// `a^e` under the truncated product: one for `e = 0`, then `a^(e-1) a`.
pub open spec fn power_series(a: SeriesView, e: nat) -> SeriesView
    decreases e,
{
    if e == 0 {
        constant_series(rat_of_int(1), a.len())
    } else {
        product_series(power_series(a, (e - 1) as nat), a)
    }
}

proof fn lemma_power_shape(a: SeriesView, e: nat)
    requires
        positive_coefficients(a),
    ensures
        power_series(a, e).len() == a.len(),
        positive_coefficients(power_series(a, e)),
    decreases e,
{
    if e > 0 {
        lemma_power_shape(a, (e - 1) as nat);
        lemma_product_positive(power_series(a, (e - 1) as nat), a);
    }
}

/// The coefficient of `q^d` in the square root with constant one: one in
/// degree zero, then `(a[d] - sum_{1 <= l < d} s[l] s[d - l]) / 2`.
pub open spec fn sqrt_coeff(a: SeriesView, d: nat) -> RationalView
    decreases d, 1nat, 0nat,
{
    if d == 0 {
        rat_of_int(1)
    } else {
        rat_div(rat_sub(a[d as int], sqrt_cross_sum(a, d, (d - 1) as nat)), rat_of_int(2))
    }
}

/// `sum_{1 <= l <= k} s[l] s[d - l]` for the square root `s`, where `k < d`.
pub open spec fn sqrt_cross_sum(a: SeriesView, d: nat, k: nat) -> RationalView
    decreases d, 0nat, k,
{
    if k == 0 || k >= d {
        rat_of_int(0)
    } else {
        rat_add(sqrt_cross_sum(a, d, (k - 1) as nat), rat_mul(sqrt_coeff(a, k), sqrt_coeff(a, (d - k) as nat)))
    }
}

pub open spec fn sqrt_series(a: SeriesView) -> SeriesView {
    Seq::new(a.len(), |d: int| sqrt_coeff(a, d as nat))
}

impl QSeries {
    /// `self^exp` under the truncated product; one for a zero exponent.
    pub fn pow_usize(&self, exp: usize) -> (out: Self)
        ensures
            same_series(out@, power_series(self@, exp as nat)),
    {
        proof {
            use_type_invariant(self);
        }
        positive_views(self.coeffs.as_slice());
        let n = self.coeffs.len();
        let mut out = QSeries::one(n - 1);
        let mut i: usize = 0;
        while i < exp
            invariant
                i <= exp,
                positive_coefficients(self@),
                out@.len() == self@.len(),
                same_series(out@, power_series(self@, i as nat)),
            decreases exp - i,
        {
            let next = out.mul(self);
            positive_product_views(&out, self);
            proof {
                let p = power_series(self@, i as nat);
                lemma_power_shape(self@, i as nat);
                lemma_product_congruent(out@, p, self@, self@);
                lemma_same_series_transitive(next@, product_series(out@, self@), product_series(p, self@));
                assert(power_series(self@, (i + 1) as nat) == product_series(p, self@));
            }
            out = next;
            i = i + 1;
        }
        out
    }

    /// The square root of a series whose constant coefficient is one,
    /// normalised to constant coefficient one.
    pub fn sqrt_with_constant_one(&self) -> (r: Result<Self, GwError>)
        ensures
            r is Err <==> !same_value(self@[0], rat_of_int(1)),
            r matches Err(e) ==> (e matches GwError::AlgebraFailure(m)
                && m@ == "sqrt_with_constant_one requires constant coefficient 1"@),
            r matches Ok(root) ==> same_series(root@, sqrt_series(self@)),
    {
        proof {
            use_type_invariant(self);
            assert(self@[0] == self.coeffs@[0]@);
        }
        if !self.coeffs[0].equals(&Rational::one()) {
            return Err(GwError::AlgebraFailure(string_from("sqrt_with_constant_one requires constant coefficient 1")));
        }
        let ghost a = self@;
        positive_views(self.coeffs.as_slice());
        let two = Rational::from_usize(2);
        proof {
            use_type_invariant(&two);
            assert(two@.0 != 0);
        }
        let mut out: Vec<Rational> = Vec::new();
        out.push(Rational::one());
        let mut d: usize = 1;
        while d < self.coeffs.len()
            invariant
                1 <= d <= a.len(),
                a == self@,
                a == coefficient_views(self.coeffs@),
                positive_coefficients(a),
                same_value(two@, rat_of_int(2)),
                two@.0 != 0,
                two@.1 > 0,
                out@.len() == d,
                forall|j: int| 0 <= j < d ==> same_value((#[trigger] out@[j])@, sqrt_coeff(a, j as nat)),
            decreases a.len() - d,
        {
            let mut cross = Rational::zero();
            let mut left: usize = 1;
            while left < d
                invariant
                    1 <= left <= d,
                    d < a.len(),
                    a == coefficient_views(self.coeffs@),
                    out@.len() == d,
                    forall|j: int| 0 <= j < d ==> same_value((#[trigger] out@[j])@, sqrt_coeff(a, j as nat)),
                    same_value(cross@, sqrt_cross_sum(a, d as nat, (left - 1) as nat)),
                decreases d - left,
            {
                let x = &out[left];
                let y = &out[d - left];
                let product = x.mul(y);
                let next = cross.add(&product);
                proof {
                    let sx = sqrt_coeff(a, left as nat);
                    let sy = sqrt_coeff(a, (d - left) as nat);
                    let before = sqrt_cross_sum(a, d as nat, (left - 1) as nat);
                    assert(same_value(x@, sx));
                    assert(same_value(y@, sy));
                    use_type_invariant(x);
                    use_type_invariant(y);
                    use_type_invariant(&cross);
                    use_type_invariant(&product);
                    lemma_mul_congruent(x@, sx, y@, sy);
                    lemma_denominator_product_positive(x@, y@);
                    lemma_same_value_transitive(product@, rat_mul(x@, y@), rat_mul(sx, sy));
                    lemma_add_congruent(cross@, before, product@, rat_mul(sx, sy));
                    lemma_denominator_product_positive(cross@, product@);
                    lemma_same_value_transitive(next@, rat_add(cross@, product@), rat_add(before, rat_mul(sx, sy)));
                    assert(sqrt_cross_sum(a, d as nat, left as nat) == rat_add(before, rat_mul(sx, sy)));
                }
                cross = next;
                left = left + 1;
            }
            let numerator = self.coeffs[d].sub(&cross);
            let value = numerator.div(&two);
            proof {
                let ad = a[d as int];
                let total = sqrt_cross_sum(a, d as nat, (d - 1) as nat);
                assert(ad == self.coeffs@[d as int]@);
                use_type_invariant(&cross);
                use_type_invariant(&numerator);
                lemma_sub_congruent(ad, ad, cross@, total);
                lemma_denominator_product_positive(ad, cross@);
                lemma_same_value_transitive(numerator@, rat_sub(ad, cross@), rat_sub(ad, total));
                lemma_div_congruent(numerator@, rat_sub(ad, total), two@, rat_of_int(2));
                lemma_div_denominator(numerator@, two@);
                lemma_same_value_transitive(value@, rat_div(numerator@, two@), rat_div(rat_sub(ad, total), rat_of_int(2)));
                assert(sqrt_coeff(a, d as nat) == rat_div(rat_sub(ad, total), rat_of_int(2)));
            }
            out.push(value);
            d = d + 1;
        }
        let root = QSeries { coeffs: out };
        proof {
            assert forall|j: int| 0 <= j < root@.len() implies same_value(#[trigger] root@[j], sqrt_series(a)[j]) by {
                assert(root@[j] == root.coeffs@[j]@);
            }
        }
        Ok(root)
    }
}

/// The formal integral of `q d/dq` with zero integration constant: the
/// coefficient of `q^d` is divided by `d`, and the constant term is zero.
pub open spec fn integrated_series(a: SeriesView) -> SeriesView {
    Seq::new(a.len(), |d: int| if d == 0 { rat_of_int(0) } else { rat_div(a[d], rat_of_int(d)) })
}

impl QSeries {
    /// Integrate `q d/dq` with zero integration constant; a nonzero constant
    /// term cannot be absorbed and is refused.
    pub fn integrate_q_derivative_zero_constant(&self) -> (r: Result<Self, GwError>)
        ensures
            r is Err <==> self@[0].0 != 0,
            r matches Err(e) ==> (e matches GwError::AlgebraFailure(m)
                && m@ == "cannot integrate q d/dq with nonzero constant term and zero integration constant"@),
            r matches Ok(s) ==> same_series(s@, integrated_series(self@)),
    {
        proof {
            use_type_invariant(self);
            assert(self@[0] == self.coeffs@[0]@);
        }
        if !self.coeffs[0].is_zero() {
            return Err(GwError::AlgebraFailure(string_from(
                "cannot integrate q d/dq with nonzero constant term and zero integration constant",
            )));
        }
        let mut coeffs: Vec<Rational> = Vec::new();
        coeffs.push(Rational::zero());
        let mut i: usize = 1;
        while i < self.coeffs.len()
            invariant
                1 <= i <= self@.len(),
                self@ == coefficient_views(self.coeffs@),
                coeffs@.len() == i,
                forall|j: int| 0 <= j < i ==> same_value((#[trigger] coeffs@[j])@, integrated_series(self@)[j]),
            decreases self@.len() - i,
        {
            let divisor = Rational::from_usize(i);
            let coefficient = &self.coeffs[i];
            proof {
                use_type_invariant(&divisor);
                assert(divisor@.0 != 0) by (nonlinear_arith)
                    requires
                        divisor@.0 * 1 == i * divisor@.1,
                        divisor@.1 > 0,
                        i >= 1,
                ;
            }
            let value = coefficient.div(&divisor);
            proof {
                assert(self@[i as int] == coefficient@);
                use_type_invariant(coefficient);
                lemma_div_denominator(coefficient@, divisor@);
                lemma_div_congruent(coefficient@, coefficient@, divisor@, rat_of_int(i as int));
                lemma_same_value_transitive(value@, rat_div(coefficient@, divisor@), rat_div(coefficient@, rat_of_int(i as int)));
            }
            coeffs.push(value);
            i = i + 1;
        }
        let out = QSeries { coeffs };
        proof {
            assert forall|j: int| 0 <= j < out@.len() implies same_value(#[trigger] out@[j], integrated_series(self@)[j]) by {
                assert(out@[j] == out.coeffs@[j]@);
            }
        }
        Ok(out)
    }
}

/// On a series without constant term, `q d/dq` undoes the integration with
/// zero constant.
pub proof fn lemma_integration_inverts_q_derivative(a: SeriesView)
    requires
        a.len() >= 1,
        a[0].0 == 0,
    ensures
        same_series(q_derivative_series(integrated_series(a)), a),
{
    let b = integrated_series(a);
    assert forall|d: int| 0 <= d < a.len() implies same_value(#[trigger] q_derivative_series(b)[d], a[d]) by {
        if d == 0 {
            assert(q_derivative_series(b)[0] == rat_of_int(0));
            assert(0 * a[0].1 == a[0].0 * 1);
        } else {
            let x = a[d];
            let q = rat_div(x, rat_of_int(d));
            assert(b[d] == q);
            let m = rat_mul(q, rat_of_int(d));
            assert(q_derivative_series(b)[d] == m);
            assert(q.0 == x.0 * 1 && q.1 == x.1 * d);
            assert(m.0 * x.1 == x.0 * m.1) by (nonlinear_arith)
                requires
                    q.0 == x.0 * 1,
                    q.1 == x.1 * d,
                    m.0 == q.0 * d,
                    m.1 == q.1 * 1,
            ;
        }
    }
}

/// Products of same-valued series have the same values.
pub proof fn lemma_product_congruent(a: SeriesView, a2: SeriesView, b: SeriesView, b2: SeriesView)
    requires
        same_series(a, a2),
        same_series(b, b2),
        a.len() == b.len(),
    ensures
        same_series(product_series(a, b), product_series(a2, b2)),
{
    assert forall|d: int| 0 <= d < a.len() implies same_value(#[trigger] product_series(a, b)[d], product_series(a2, b2)[d]) by {
        lemma_convolution_congruent(a, a2, b, b2, d, (d + 1) as nat);
    }
}

proof fn lemma_convolution_congruent(a: SeriesView, a2: SeriesView, b: SeriesView, b2: SeriesView, d: int, k: nat)
    requires
        same_series(a, a2),
        same_series(b, b2),
        a.len() == b.len(),
        0 <= d < a.len(),
        k <= d + 1,
    ensures
        same_value(convolution(a, b, d, k), convolution(a2, b2, d, k)),
    decreases k,
{
    if k > 0 {
        lemma_convolution_congruent(a, a2, b, b2, d, (k - 1) as nat);
        lemma_mul_congruent(a[k - 1], a2[k - 1], b[d - (k - 1)], b2[d - (k - 1)]);
        lemma_add_congruent(convolution(a, b, d, (k - 1) as nat), convolution(a2, b2, d, (k - 1) as nat),
            rat_mul(a[k - 1], b[d - (k - 1)]), rat_mul(a2[k - 1], b2[d - (k - 1)]));
    }
}

/// Equality of values is transitive through a series of positive
/// denominators.
pub proof fn lemma_same_series_transitive(a: SeriesView, b: SeriesView, c: SeriesView)
    requires
        same_series(a, b),
        same_series(b, c),
        positive_coefficients(b),
    ensures
        same_series(a, c),
{
    assert forall|i: int| 0 <= i < a.len() implies same_value(#[trigger] a[i], c[i]) by {
        lemma_same_value_transitive(a[i], b[i], c[i]);
    }
}

/// Products of series with positive denominators have positive
/// denominators.
pub proof fn lemma_product_positive(a: SeriesView, b: SeriesView)
    requires
        a.len() == b.len(),
        positive_coefficients(a),
        positive_coefficients(b),
    ensures
        positive_coefficients(product_series(a, b)),
{
    assert forall|d: int| 0 <= d < a.len() implies (#[trigger] product_series(a, b)[d]).1 > 0 by {
        lemma_convolution_positive(a, b, d, (d + 1) as nat);
    }
}

proof fn lemma_convolution_positive(a: SeriesView, b: SeriesView, d: int, k: nat)
    requires
        a.len() == b.len(),
        positive_coefficients(a),
        positive_coefficients(b),
        0 <= d < a.len(),
        k <= d + 1,
    ensures
        convolution(a, b, d, k).1 > 0,
    decreases k,
{
    if k > 0 {
        lemma_convolution_positive(a, b, d, (k - 1) as nat);
        lemma_denominator_product_positive(a[k - 1], b[d - (k - 1)]);
        lemma_denominator_product_positive(convolution(a, b, d, (k - 1) as nat), rat_mul(a[k - 1], b[d - (k - 1)]));
    }
}

/// The product of two series (as computed from their coefficients) has
/// positive denominators.
fn positive_product_views(a: &QSeries, b: &QSeries)
    requires
        a@.len() == b@.len(),
    ensures
        positive_coefficients(product_series(a@, b@)),
        positive_coefficients(a@),
        positive_coefficients(b@),
{
    positive_views(a.coeffs.as_slice());
    positive_views(b.coeffs.as_slice());
    proof {
        lemma_product_positive(a@, b@);
    }
}


/// `sum_{i < k + 1} a[i] b[d - i]` is `a[0] b[d]` plus the remaining terms.
proof fn lemma_convolution_first(a: SeriesView, d: int, k: nat)
    requires
        a.len() >= 1,
        a[0].0 != 0,
        0 <= d < a.len(),
        k <= d,
    ensures
        convolution(a, inverse_series(a), d, k + 1)
            == rat_add(rat_mul(a[0], inverse_series(a)[d]), inverse_sum(a, d as nat, k)),
    decreases k,
{
    let inv = inverse_series(a);
    let first = rat_mul(a[0], inv[d]);
    if k == 0 {
        assert(convolution(a, inv, d, 0) == rat_of_int(0));
        assert(d - 0 == d);
        assert(convolution(a, inv, d, 1) == rat_add(rat_of_int(0), first));
        assert(rat_add(rat_of_int(0), first) == first) by {
            assert(0 * first.1 + first.0 * 1 == first.0) by (nonlinear_arith);
            assert(1 * first.1 == first.1);
        }
        assert(rat_add(first, rat_of_int(0)) == first) by {
            assert(first.0 * 1 + 0 * first.1 == first.0) by (nonlinear_arith);
            assert(first.1 * 1 == first.1);
        }
    } else {
        lemma_convolution_first(a, d, (k - 1) as nat);
        let term = rat_mul(a[k as int], inv[d - k]);
        assert(inv[d - k] == inverse_coeff(a, (d - k) as nat));
        assert(convolution(a, inv, d, k + 1) == rat_add(convolution(a, inv, d, k), term));
        assert(inverse_sum(a, d as nat, k) == rat_add(inverse_sum(a, d as nat, (k - 1) as nat), term));
        lemma_rat_add_associative(first, inverse_sum(a, d as nat, (k - 1) as nat), term);
    }
}

/// A series whose constant coefficient is not zero, multiplied by its
/// inverse, is the series one.
pub proof fn lemma_inverse_is_right_inverse(a: SeriesView)
    requires
        a.len() >= 1,
        a[0].0 != 0,
    ensures
        same_series(product_series(a, inverse_series(a)), constant_series(rat_of_int(1), a.len())),
{
    let inv = inverse_series(a);
    let c = a[0];
    assert forall|d: int| 0 <= d < a.len() implies same_value(#[trigger] product_series(a, inv)[d], constant_series(rat_of_int(1), a.len())[d]) by {
        lemma_convolution_first(a, d, d as nat);
        let conv = product_series(a, inv)[d];
        assert(conv == convolution(a, inv, d, (d as nat) + 1));
        let sum = inverse_sum(a, d as nat, d as nat);
        let m = rat_mul(c, inv[d]);
        let p = rat_add(m, sum);
        assert(conv == p);
        assert(p.0 == m.0 * sum.1 + sum.0 * m.1);
        assert(p.1 == m.1 * sum.1);
        if d == 0 {
            assert(sum == rat_of_int(0));
            assert(inv[d] == rat_div(rat_of_int(1), c));
            assert(p.0 == m.0 && p.1 == m.1) by (nonlinear_arith)
                requires
                    p.0 == m.0 * sum.1 + sum.0 * m.1,
                    p.1 == m.1 * sum.1,
                    sum.0 == 0,
                    sum.1 == 1,
            ;
            assert(constant_series(rat_of_int(1), a.len())[d] == rat_of_int(1));
            if c.0 >= 0 {
                assert(m.0 * 1 == 1 * m.1) by (nonlinear_arith)
                    requires
                        m.0 == c.0 * (1 * c.1),
                        m.1 == c.1 * (1 * c.0),
                ;
            } else {
                assert(m.0 * 1 == 1 * m.1) by (nonlinear_arith)
                    requires
                        m.0 == c.0 * -(1 * c.1),
                        m.1 == c.1 * -(1 * c.0),
                ;
            }
        } else {
            let q = rat_div(sum, c);
            assert(inv[d] == inverse_coeff(a, d as nat));
            assert(inv[d] == rat_neg(q));
            assert(constant_series(rat_of_int(1), a.len())[d] == rat_of_int(0));
            assert(m.0 == c.0 * (-q.0));
            assert(m.1 == c.1 * q.1);
            if c.0 >= 0 {
                assert(p.0 * 1 == 0 * p.1) by (nonlinear_arith)
                    requires
                        q.0 == sum.0 * c.1,
                        q.1 == sum.1 * c.0,
                        m.0 == c.0 * (-q.0),
                        m.1 == c.1 * q.1,
                        p.0 == m.0 * sum.1 + sum.0 * m.1,
                ;
            } else {
                assert(p.0 * 1 == 0 * p.1) by (nonlinear_arith)
                    requires
                        q.0 == -(sum.0 * c.1),
                        q.1 == -(sum.1 * c.0),
                        m.0 == c.0 * (-q.0),
                        m.1 == c.1 * q.1,
                        p.0 == m.0 * sum.1 + sum.0 * m.1,
                ;
            }
        }
    }
}

/// `sum_{i < k + 1} s[i] s[d - i]` for the square root `s` is `s[0] s[d]`
/// plus the cross terms up to `k`.
proof fn lemma_sqrt_convolution_first(a: SeriesView, d: int, k: nat)
    requires
        1 <= d < a.len(),
        k < d,
    ensures
        convolution(sqrt_series(a), sqrt_series(a), d, k + 1)
            == rat_add(rat_mul(sqrt_series(a)[0], sqrt_series(a)[d]), sqrt_cross_sum(a, d as nat, k)),
    decreases k,
{
    let root = sqrt_series(a);
    let first = rat_mul(root[0], root[d]);
    if k == 0 {
        assert(convolution(root, root, d, 0) == rat_of_int(0));
        assert(d - 0 == d);
        assert(convolution(root, root, d, 1) == rat_add(rat_of_int(0), first));
        assert(rat_add(rat_of_int(0), first) == first) by {
            assert(0 * first.1 + first.0 * 1 == first.0) by (nonlinear_arith);
            assert(1 * first.1 == first.1);
        }
        assert(rat_add(first, rat_of_int(0)) == first) by {
            assert(first.0 * 1 + 0 * first.1 == first.0) by (nonlinear_arith);
            assert(first.1 * 1 == first.1);
        }
    } else {
        lemma_sqrt_convolution_first(a, d, (k - 1) as nat);
        let term = rat_mul(root[k as int], root[d - k]);
        assert(root[k as int] == sqrt_coeff(a, k));
        assert(root[d - k] == sqrt_coeff(a, (d - k) as nat));
        assert(convolution(root, root, d, k + 1) == rat_add(convolution(root, root, d, k), term));
        assert(sqrt_cross_sum(a, d as nat, k) == rat_add(sqrt_cross_sum(a, d as nat, (k - 1) as nat), term));
        lemma_rat_add_associative(first, sqrt_cross_sum(a, d as nat, (k - 1) as nat), term);
    }
}

proof fn lemma_sqrt_square_constant(a: SeriesView)
    requires
        a.len() >= 1,
        same_value(a[0], rat_of_int(1)),
    ensures
        same_value(product_series(sqrt_series(a), sqrt_series(a))[0], a[0]),
{
    let root = sqrt_series(a);
    let conv = product_series(root, root)[0];
    assert(root[0] == rat_of_int(1));
    assert(conv == convolution(root, root, 0, 1));
    assert(convolution(root, root, 0, 0) == rat_of_int(0));
    let m = rat_mul(root[0], root[0]);
    assert(m.0 == 1 && m.1 == 1) by (nonlinear_arith)
        requires
            m.0 == 1 * 1,
            m.1 == 1 * 1,
    ;
    assert(conv == rat_add(rat_of_int(0), m));
    assert(conv.0 == 0 * m.1 + m.0 * 1);
    assert(conv.1 == 1 * m.1);
    let (a0, a1) = a[0];
    assert(conv.0 * a1 == a0 * conv.1) by (nonlinear_arith)
        requires
            conv.0 == 0 * m.1 + m.0 * 1,
            conv.1 == 1 * m.1,
            m.0 == 1,
            m.1 == 1,
            a0 * 1 == 1 * a1,
    ;
}

proof fn lemma_sqrt_square_degree(a: SeriesView, d: int)
    requires
        1 <= d < a.len(),
    ensures
        same_value(product_series(sqrt_series(a), sqrt_series(a))[d], a[d]),
{
    let root = sqrt_series(a);
    let conv = product_series(root, root)[d];
    assert(conv == convolution(root, root, d, (d + 1) as nat));
    assert(root[0] == rat_of_int(1));
    lemma_sqrt_convolution_first(a, d, (d - 1) as nat);
    let x = root[d];
    let c = sqrt_cross_sum(a, d as nat, (d - 1) as nat);
    let u = rat_sub(a[d], c);
    assert(x == sqrt_coeff(a, d as nat));
    assert(x == rat_div(u, rat_of_int(2)));
    assert(x.0 == u.0 * 1 && x.1 == u.1 * 2);
    let t1 = rat_add(rat_mul(root[0], x), c);
    assert(convolution(root, root, d, d as nat) == t1);
    assert(d - d == 0);
    let t2 = rat_add(t1, rat_mul(x, root[0]));
    assert(conv == t2);
    let (a0, a1) = a[d];
    let (c0, c1) = c;
    assert(u.0 == a0 * c1 + (-c0) * a1 && u.1 == a1 * c1);
    assert(t1.0 == (1 * x.0) * c1 + c0 * (1 * x.1) && t1.1 == (1 * x.1) * c1);
    assert(t2.0 == t1.0 * (x.1 * 1) + (x.0 * 1) * t1.1 && t2.1 == t1.1 * (x.1 * 1));
    assert(x.0 == a0 * c1 - c0 * a1 && x.1 == 2 * a1 * c1) by (nonlinear_arith)
        requires
            x.0 == u.0 * 1,
            x.1 == u.1 * 2,
            u.0 == a0 * c1 + (-c0) * a1,
            u.1 == a1 * c1,
    ;
    let p = a0 * c1 + c0 * a1;
    let n = a0 * c1 - c0 * a1;
    let k = a1 * c1 * c1;
    assert(t1.0 == c1 * p) by (nonlinear_arith)
        requires
            t1.0 == (1 * x.0) * c1 + c0 * (1 * x.1),
            x.0 == a0 * c1 - c0 * a1,
            x.1 == 2 * a1 * c1,
            p == a0 * c1 + c0 * a1,
    ;
    assert(t1.1 == 2 * k) by (nonlinear_arith)
        requires
            t1.1 == (1 * x.1) * c1,
            x.1 == 2 * a1 * c1,
            k == a1 * c1 * c1,
    ;
    assert(t1.0 * (x.1 * 1) == 2 * p * k) by (nonlinear_arith)
        requires
            t1.0 == c1 * p,
            x.1 == 2 * a1 * c1,
            k == a1 * c1 * c1,
    ;
    assert((x.0 * 1) * t1.1 == 2 * n * k) by (nonlinear_arith)
        requires
            t1.1 == 2 * k,
            x.0 == n,
    ;
    assert(t2.0 == 2 * k * (p + n)) by (nonlinear_arith)
        requires
            t2.0 == t1.0 * (x.1 * 1) + (x.0 * 1) * t1.1,
            t1.0 * (x.1 * 1) == 2 * p * k,
            (x.0 * 1) * t1.1 == 2 * n * k,
    ;
    assert(p + n == 2 * a0 * c1) by (nonlinear_arith)
        requires
            p == a0 * c1 + c0 * a1,
            n == a0 * c1 - c0 * a1,
    ;
    assert(t2.1 == 4 * k * a1 * c1) by (nonlinear_arith)
        requires
            t2.1 == t1.1 * (x.1 * 1),
            t1.1 == 2 * k,
            x.1 == 2 * a1 * c1,
    ;
    assert(t2.0 * a1 == a0 * t2.1) by (nonlinear_arith)
        requires
            t2.0 == 2 * k * (p + n),
            p + n == 2 * a0 * c1,
            t2.1 == 4 * k * a1 * c1,
    ;
}

/// The square root with constant one, squared, gives the series back.
pub proof fn lemma_sqrt_squares_back(a: SeriesView)
    requires
        a.len() >= 1,
        same_value(a[0], rat_of_int(1)),
    ensures
        same_series(product_series(sqrt_series(a), sqrt_series(a)), a),
{
    let root = sqrt_series(a);
    assert forall|d: int| 0 <= d < a.len() implies same_value(#[trigger] product_series(root, root)[d], a[d]) by {
        if d == 0 {
            lemma_sqrt_square_constant(a);
        } else {
            lemma_sqrt_square_degree(a, d);
        }
    }
}

/// The printed term of degree `d`: the coefficient alone in degree zero,
/// `(c)*q` in degree one, `(c)*q^d` above.
pub open spec fn series_term_text(c: RationalView, d: nat) -> Seq<char> {
    if d == 0 {
        rational_text(c)
    } else if d == 1 {
        "("@ + rational_text(c) + ")*q"@
    } else {
        "("@ + rational_text(c) + ")*q^"@ + decimal(d)
    }
}

/// The printed terms of the nonzero coefficients among the first `n`.
pub open spec fn series_terms(a: SeriesView, n: nat) -> Seq<Seq<char>>
    decreases n,
{
    if n == 0 {
        Seq::empty()
    } else if a[n - 1].0 == 0 {
        series_terms(a, (n - 1) as nat)
    } else {
        series_terms(a, (n - 1) as nat).push(series_term_text(a[n - 1], (n - 1) as nat))
    }
}

/// The printed series: its nonzero terms joined by ` + `, or `0`.
pub open spec fn series_text(a: SeriesView) -> Seq<char> {
    if series_terms(a, a.len()).len() == 0 {
        "0"@
    } else {
        join_seqs(series_terms(a, a.len()), " + "@)
    }
}

impl QSeries {
    /// The printed form of the series (see [`series_text`]).
    pub fn text(&self) -> (out: String)
        ensures
            out@ == series_text(self@),
    {
        let mut parts: Vec<String> = Vec::new();
        let mut i: usize = 0;
        while i < self.coeffs.len()
            invariant
                i <= self@.len(),
                self@ == coefficient_views(self.coeffs@),
                parts@.map_values(|p: String| p@) == series_terms(self@, i as nat),
            decreases self@.len() - i,
        {
            let c = &self.coeffs[i];
            proof {
                assert(self@[i as int] == c@);
            }
            if !c.is_zero() {
                let coefficient = c.text();
                let part = if i == 0 {
                    coefficient
                } else {
                    let mut part = string_from("(");
                    push_string(&mut part, &coefficient);
                    push_str(&mut part, ")*q");
                    if i > 1 {
                        push_str(&mut part, "^");
                        push_usize(&mut part, i);
                        proof {
                            reveal_strlit(")*q");
                            reveal_strlit("^");
                            reveal_strlit(")*q^");
                            assert(")*q"@ + "^"@ =~= ")*q^"@);
                        }
                        assert(part@ =~= "("@ + rational_text(c@) + ")*q^"@ + decimal(i as nat));
                    } else {
                        assert(part@ =~= "("@ + rational_text(c@) + ")*q"@);
                    }
                    part
                };
                proof {
                    assert(part@ == series_term_text(self@[i as int], i as nat));
                }
                let ghost before = parts@;
                parts.push(part);
                proof {
                    assert(parts@.map_values(|p: String| p@) =~= before.map_values(|p: String| p@).push(part@));
                }
            }
            i = i + 1;
        }
        if parts.len() == 0 {
            return string_from("0");
        }
        join_strings(&parts, " + ")
    }
}

} // verus!
