//! Truncated power series held as plain coefficient lists indexed by
//! degree: products, exponentials, composition and compositional inverses.

use vstd::prelude::*;
use crate::foundation::rational::{
    lemma_add_congruent, lemma_add_zero_numerator, lemma_denominator_product_positive,
    lemma_div_congruent, lemma_mul_congruent, lemma_neg_congruent, lemma_same_value_transitive, rat_add, rat_div, rat_mul,
    rat_neg, rat_of_int, same_value, Rational, RationalView,
};
use crate::foundation::series::{coefficient_views, convolution, SeriesView};

verus! {

/// The coefficient of degree `i`, zero past the end of the list.
pub open spec fn coeff_or_zero(s: SeriesView, i: int) -> RationalView {
    if 0 <= i < s.len() {
        s[i]
    } else {
        rat_of_int(0)
    }
}

/// The list padded with zeros (or cut) to `n` coefficients.
pub open spec fn extended(s: SeriesView, n: nat) -> SeriesView {
    Seq::new(n, |i: int| coeff_or_zero(s, i))
}

/// The product of two lists truncated after degree `max_degree`; missing
/// coefficients of `right` count as zero.
pub open spec fn plain_product(left: SeriesView, right: SeriesView, max_degree: nat) -> SeriesView {
    Seq::new(max_degree + 1, |d: int| convolution(left, extended(right, max_degree + 1), d, (d + 1) as nat))
}

/// The two lists agree in value on their first `n` coefficients.
pub open spec fn same_prefix(a: SeriesView, b: SeriesView, n: nat) -> bool {
    &&& a.len() >= n
    &&& b.len() >= n
    &&& forall|i: int| 0 <= i < n ==> same_value(#[trigger] a[i], b[i])
}

/// Every coefficient among the first `n` has a positive denominator.
pub open spec fn positive_prefix(a: SeriesView, n: nat) -> bool {
    &&& a.len() >= n
    &&& forall|i: int| 0 <= i < n ==> (#[trigger] a[i]).1 > 0
}

/// The values of a list of rationals, each with a positive denominator.
fn check_list(values: &[Rational])
    ensures
        positive_prefix(coefficient_views(values@), values@.len()),
{
    let mut i: usize = 0;
    while i < values.len()
        invariant
            i <= values@.len(),
            forall|j: int| 0 <= j < i ==> (#[trigger] values@[j])@.1 > 0,
        decreases values@.len() - i,
    {
        let x = &values[i];
        proof {
            use_type_invariant(x);
        }
        i = i + 1;
    }
    proof {
        let views = coefficient_views(values@);
        assert forall|j: int| 0 <= j < values@.len() implies (#[trigger] views[j]).1 > 0 by {
            assert(views[j] == values@[j]@);
        }
    }
}

/// `n` zero coefficients.
fn zero_list(n: usize) -> (out: Vec<Rational>)
    ensures
        out@.len() == n,
        forall|i: int| 0 <= i < n ==> (#[trigger] out@[i])@ == rat_of_int(0),
{
    let mut out: Vec<Rational> = Vec::new();
    let mut i: usize = 0;
    while i < n
        invariant
            i <= n,
            out@.len() == i,
            forall|j: int| 0 <= j < i ==> (#[trigger] out@[j])@ == rat_of_int(0),
        decreases n - i,
    {
        out.push(Rational::zero());
        i = i + 1;
    }
    out
}

/// The truncated product of two coefficient lists up to `max_degree`.
/// Every coefficient of `left` up to `max_degree` is read; a coefficient of
/// `right` is read only where it meets a nonzero one of `left`.
pub fn mul_plain_series(left: &[Rational], right: &[Rational], max_degree: usize) -> (out: Vec<Rational>)
    requires
        max_degree < left@.len(),
        forall|l: int| 0 <= l <= max_degree && (#[trigger] left@[l])@.0 != 0 ==> max_degree - l < right@.len(),
    ensures
        out@.len() == max_degree + 1,
        forall|d: int| 0 <= d <= max_degree
            ==> same_value((#[trigger] out@[d])@, plain_product(coefficient_views(left@), coefficient_views(right@), max_degree as nat)[d]),
{
    let ghost lv = coefficient_views(left@);
    let ghost rv = extended(coefficient_views(right@), max_degree as nat + 1);
    let mut out: Vec<Rational> = Vec::new();
    let mut d: usize = 0;
    while d <= max_degree
        invariant
            d <= max_degree + 1,
            max_degree < left@.len(),
            forall|l: int| 0 <= l <= max_degree && (#[trigger] left@[l])@.0 != 0 ==> max_degree - l < right@.len(),
            lv == coefficient_views(left@),
            rv == extended(coefficient_views(right@), max_degree as nat + 1),
            out@.len() == d,
            forall|j: int| 0 <= j < d ==> same_value((#[trigger] out@[j])@, convolution(lv, rv, j, (j + 1) as nat)),
        decreases max_degree + 1 - d,
    {
        let mut sum = Rational::zero();
        let mut l: usize = 0;
        while l <= d
            invariant
                l <= d + 1,
                d <= max_degree,
                max_degree < left@.len(),
                forall|i: int| 0 <= i <= max_degree && (#[trigger] left@[i])@.0 != 0 ==> max_degree - i < right@.len(),
                lv == coefficient_views(left@),
                rv == extended(coefficient_views(right@), max_degree as nat + 1),
                same_value(sum@, convolution(lv, rv, d as int, l as nat)),
            decreases d + 1 - l,
        {
            let a = &left[l];
            let ghost term = rat_mul(lv[l as int], rv[d - l]);
            proof {
                assert(lv[l as int] == a@);
                assert(convolution(lv, rv, d as int, (l + 1) as nat) == rat_add(convolution(lv, rv, d as int, l as nat), term));
            }
            if a.is_zero() {
                proof {
                    assert(term.0 == 0) by (nonlinear_arith)
                        requires
                            term.0 == lv[l as int].0 * rv[d - l].0,
                            lv[l as int].0 == 0,
                    ;
                    lemma_add_zero_numerator(sum@, convolution(lv, rv, d as int, l as nat), term);
                }
            } else {
                let b = &right[d - l];
                let product = a.mul(b);
                let next = sum.add(&product);
                proof {
                    assert(rv[d - l] == b@);
                    use_type_invariant(&sum);
                    use_type_invariant(&product);
                    lemma_denominator_product_positive(sum@, product@);
                    lemma_add_congruent(sum@, convolution(lv, rv, d as int, l as nat), product@, term);
                    lemma_same_value_transitive(next@, rat_add(sum@, product@),
                        rat_add(convolution(lv, rv, d as int, l as nat), term));
                }
                sum = next;
            }
            l = l + 1;
        }
        out.push(sum);
        d = d + 1;
    }
    out
}

/// The coefficient of `z^d` in the exponential of a series (whose constant
/// coefficient is ignored): one in degree zero, then
/// `(1/d) sum_{1 <= k <= d} k s[k] e[d - k]`.
pub open spec fn exp_coeff(s: SeriesView, d: nat) -> RationalView
    decreases d, 1nat, 0nat,
{
    if d == 0 {
        rat_of_int(1)
    } else {
        rat_div(exp_sum(s, d, d), rat_of_int(d as int))
    }
}

/// `sum_{1 <= j <= k} j s[j] e[d - j]` for the exponential `e`.
pub open spec fn exp_sum(s: SeriesView, d: nat, k: nat) -> RationalView
    decreases d, 0nat, k,
{
    if k == 0 || k > d {
        rat_of_int(0)
    } else {
        rat_add(
            exp_sum(s, d, (k - 1) as nat),
            rat_mul(rat_mul(rat_of_int(k as int), coeff_or_zero(s, k as int)), exp_coeff(s, (d - k) as nat)),
        )
    }
}

/// The exponential truncated after degree `max_degree`.
pub open spec fn exp_list(s: SeriesView, max_degree: nat) -> SeriesView {
    Seq::new(max_degree + 1, |d: int| exp_coeff(s, d as nat))
}

proof fn lemma_div_positive(x: RationalView, y: RationalView)
    requires
        x.1 > 0,
        y.0 != 0,
    ensures
        rat_div(x, y).1 > 0,
{
    if y.0 > 0 {
        assert(x.1 * y.0 > 0) by (nonlinear_arith)
            requires
                x.1 > 0,
                y.0 > 0,
        ;
    } else {
        assert(-(x.1 * y.0) > 0) by (nonlinear_arith)
            requires
                x.1 > 0,
                y.0 < 0,
        ;
    }
}

/// The rational `n` for a positive `n`, with its numerator not zero.
fn positive_integer(n: usize) -> (r: Rational)
    requires
        n >= 1,
    ensures
        same_value(r@, rat_of_int(n as int)),
        r@.0 != 0,
        r@.1 > 0,
{
    let r = Rational::from_usize(n);
    proof {
        use_type_invariant(&r);
        assert(r@.0 != 0) by (nonlinear_arith)
            requires
                r@.0 * 1 == n * r@.1,
                r@.1 > 0,
                n >= 1,
        ;
    }
    r
}

/// The exponential of a series with zero constant term, truncated after
/// degree `max_degree`; it has constant term one.
pub fn exp_series(series: &[Rational], max_degree: usize) -> (out: Vec<Rational>)
    requires
        max_degree < usize::MAX,
    ensures
        out@.len() == max_degree + 1,
        forall|d: int| 0 <= d <= max_degree
            ==> same_value((#[trigger] out@[d])@, exp_list(coefficient_views(series@), max_degree as nat)[d]),
{
    let ghost s = coefficient_views(series@);
    let mut out: Vec<Rational> = Vec::new();
    out.push(Rational::one());
    let mut d: usize = 1;
    while d <= max_degree
        invariant
            1 <= d <= max_degree + 1,
            max_degree < usize::MAX,
            s == coefficient_views(series@),
            out@.len() == d,
            forall|j: int| 0 <= j < d ==> same_value((#[trigger] out@[j])@, exp_coeff(s, j as nat)),
        decreases max_degree + 1 - d,
    {
        let mut sum = Rational::zero();
        let mut k: usize = 1;
        while k <= d
            invariant
                1 <= k <= d + 1,
                d <= max_degree,
                max_degree < usize::MAX,
                s == coefficient_views(series@),
                out@.len() == d,
                forall|j: int| 0 <= j < d ==> same_value((#[trigger] out@[j])@, exp_coeff(s, j as nat)),
                same_value(sum@, exp_sum(s, d as nat, (k - 1) as nat)),
            decreases d + 1 - k,
        {
            let coefficient = if k < series.len() { series[k].clone() } else { Rational::zero() };
            let factor = positive_integer(k);
            let scaled = factor.mul(&coefficient);
            let earlier = &out[d - k];
            let product = scaled.mul(earlier);
            let next = sum.add(&product);
            proof {
                let c = coeff_or_zero(s, k as int);
                let kv = rat_of_int(k as int);
                let e = exp_coeff(s, (d - k) as nat);
                let before = exp_sum(s, d as nat, (k - 1) as nat);
                if k < series@.len() {
                    assert(s[k as int] == series@[k as int]@);
                }
                assert(coefficient@ == c);
                use_type_invariant(&coefficient);
                use_type_invariant(&scaled);
                use_type_invariant(&product);
                use_type_invariant(&sum);
                use_type_invariant(earlier);
                lemma_mul_congruent(factor@, kv, coefficient@, c);
                lemma_denominator_product_positive(factor@, coefficient@);
                lemma_same_value_transitive(scaled@, rat_mul(factor@, coefficient@), rat_mul(kv, c));
                assert(same_value(earlier@, e));
                lemma_mul_congruent(scaled@, rat_mul(kv, c), earlier@, e);
                lemma_denominator_product_positive(scaled@, earlier@);
                lemma_same_value_transitive(product@, rat_mul(scaled@, earlier@), rat_mul(rat_mul(kv, c), e));
                lemma_add_congruent(sum@, before, product@, rat_mul(rat_mul(kv, c), e));
                lemma_denominator_product_positive(sum@, product@);
                lemma_same_value_transitive(next@, rat_add(sum@, product@), rat_add(before, rat_mul(rat_mul(kv, c), e)));
                assert(exp_sum(s, d as nat, k as nat) == rat_add(before, rat_mul(rat_mul(kv, c), e)));
            }
            sum = next;
            k = k + 1;
        }
        let divisor = positive_integer(d);
        let value = sum.div(&divisor);
        proof {
            let total = exp_sum(s, d as nat, d as nat);
            use_type_invariant(&sum);
            lemma_div_congruent(sum@, total, divisor@, rat_of_int(d as int));
            lemma_div_positive(sum@, divisor@);
            lemma_same_value_transitive(value@, rat_div(sum@, divisor@), rat_div(total, rat_of_int(d as int)));
            assert(exp_coeff(s, d as nat) == rat_div(total, rat_of_int(d as int)));
        }
        out.push(value);
        d = d + 1;
    }
    out
}

/// One followed by `max_degree` zeros.
pub open spec fn unit_list(max_degree: nat) -> SeriesView {
    Seq::new(max_degree + 1, |i: int| if i == 0 { rat_of_int(1) } else { rat_of_int(0) })
}

/// `input^k` under the product truncated after `max_degree`.
pub open spec fn plain_power(input: SeriesView, max_degree: nat, k: nat) -> SeriesView
    decreases k,
{
    if k == 0 {
        unit_list(max_degree)
    } else {
        plain_product(plain_power(input, max_degree, (k - 1) as nat), input, max_degree)
    }
}

/// `sum_{k < n} series[k] input^k`, truncated after `max_degree`.
pub open spec fn composition_partial(series: SeriesView, input: SeriesView, max_degree: nat, n: nat) -> SeriesView
    decreases n,
{
    if n == 0 {
        Seq::new(max_degree + 1, |i: int| rat_of_int(0))
    } else {
        let previous = composition_partial(series, input, max_degree, (n - 1) as nat);
        let power = plain_power(input, max_degree, (n - 1) as nat);
        let c = coeff_or_zero(series, n - 1);
        Seq::new(max_degree + 1, |i: int| rat_add(previous[i], rat_mul(c, power[i])))
    }
}

/// The composition `series(input)` truncated after `max_degree`.
pub open spec fn composition(series: SeriesView, input: SeriesView, max_degree: nat) -> SeriesView {
    composition_partial(series, input, max_degree, max_degree + 1)
}

proof fn lemma_plain_convolution_positive(a: SeriesView, b: SeriesView, d: int, k: nat)
    requires
        0 <= d,
        k <= d + 1,
        positive_prefix(a, (d + 1) as nat),
        positive_prefix(b, (d + 1) as nat),
    ensures
        convolution(a, b, d, k).1 > 0,
    decreases k,
{
    if k > 0 {
        lemma_plain_convolution_positive(a, b, d, (k - 1) as nat);
        lemma_denominator_product_positive(a[k - 1], b[d - (k - 1)]);
        lemma_denominator_product_positive(convolution(a, b, d, (k - 1) as nat), rat_mul(a[k - 1], b[d - (k - 1)]));
    }
}

proof fn lemma_plain_convolution_congruent(a: SeriesView, a2: SeriesView, b: SeriesView, b2: SeriesView, d: int, k: nat)
    requires
        0 <= d,
        k <= d + 1,
        same_prefix(a, a2, (d + 1) as nat),
        same_prefix(b, b2, (d + 1) as nat),
    ensures
        same_value(convolution(a, b, d, k), convolution(a2, b2, d, k)),
    decreases k,
{
    if k > 0 {
        lemma_plain_convolution_congruent(a, a2, b, b2, d, (k - 1) as nat);
        lemma_mul_congruent(a[k - 1], a2[k - 1], b[d - (k - 1)], b2[d - (k - 1)]);
        lemma_add_congruent(convolution(a, b, d, (k - 1) as nat), convolution(a2, b2, d, (k - 1) as nat),
            rat_mul(a[k - 1], b[d - (k - 1)]), rat_mul(a2[k - 1], b2[d - (k - 1)]));
    }
}

proof fn lemma_extended_positive(s: SeriesView, n: nat)
    requires
        positive_prefix(s, s.len()),
    ensures
        positive_prefix(extended(s, n), n),
{
}

/// The truncated product has positive denominators when its factors do.
proof fn lemma_plain_product_positive(left: SeriesView, right: SeriesView, max_degree: nat)
    requires
        positive_prefix(left, max_degree + 1),
        positive_prefix(right, right.len()),
    ensures
        positive_prefix(plain_product(left, right, max_degree), max_degree + 1),
{
    let r = extended(right, max_degree + 1);
    lemma_extended_positive(right, max_degree + 1);
    assert forall|d: int| 0 <= d < max_degree + 1 implies (#[trigger] plain_product(left, right, max_degree)[d]).1 > 0 by {
        lemma_plain_convolution_positive(left, r, d, (d + 1) as nat);
    }
}

/// The truncated product respects equality of values in both factors.
proof fn lemma_plain_product_congruent(left: SeriesView, left2: SeriesView, right: SeriesView, right2: SeriesView, max_degree: nat)
    requires
        same_prefix(left, left2, max_degree + 1),
        same_prefix(right, right2, max_degree + 1),
    ensures
        same_prefix(plain_product(left, right, max_degree), plain_product(left2, right2, max_degree), max_degree + 1),
{
    let r = extended(right, max_degree + 1);
    let r2 = extended(right2, max_degree + 1);
    assert forall|d: int| 0 <= d < max_degree + 1 implies same_value(#[trigger] plain_product(left, right, max_degree)[d], plain_product(left2, right2, max_degree)[d]) by {
        lemma_plain_convolution_congruent(left, left2, r, r2, d, (d + 1) as nat);
    }
}

/// `acc[i] + c p[i]` for each coefficient of `acc`.
fn add_scaled(acc: &Vec<Rational>, c: &Rational, p: &Vec<Rational>) -> (out: Vec<Rational>)
    requires
        acc@.len() <= p@.len(),
    ensures
        out@.len() == acc@.len(),
        forall|i: int| 0 <= i < acc@.len()
            ==> same_value((#[trigger] out@[i])@, rat_add(acc@[i]@, rat_mul(c@, p@[i]@))),
{
    let mut out: Vec<Rational> = Vec::new();
    let mut i: usize = 0;
    while i < acc.len()
        invariant
            i <= acc@.len(),
            acc@.len() <= p@.len(),
            out@.len() == i,
            forall|j: int| 0 <= j < i ==> same_value((#[trigger] out@[j])@, rat_add(acc@[j]@, rat_mul(c@, p@[j]@))),
        decreases acc@.len() - i,
    {
        let product = c.mul(&p[i]);
        let x = &acc[i];
        let value = x.add(&product);
        proof {
            use_type_invariant(x);
            use_type_invariant(&product);
            use_type_invariant(c);
            lemma_add_congruent(acc@[i as int]@, acc@[i as int]@, product@, rat_mul(c@, p@[i as int]@));
            lemma_denominator_product_positive(acc@[i as int]@, product@);
            lemma_same_value_transitive(value@, rat_add(acc@[i as int]@, product@), rat_add(acc@[i as int]@, rat_mul(c@, p@[i as int]@)));
        }
        out.push(value);
        i = i + 1;
    }
    out
}

/// The composition `series(input)` truncated after `max_degree`; `input`
/// has at least `max_degree + 1` coefficients.
pub fn compose_plain_series(series: &[Rational], input: &[Rational], max_degree: usize) -> (out: Vec<Rational>)
    requires
        max_degree < input@.len(),
    ensures
        out@.len() == max_degree + 1,
        forall|d: int| 0 <= d <= max_degree
            ==> same_value((#[trigger] out@[d])@, composition(coefficient_views(series@), coefficient_views(input@), max_degree as nat)[d]),
{
    let ghost sv = coefficient_views(series@);
    let ghost iv = coefficient_views(input@);
    let ghost m = max_degree as nat;
    let _input_len = input.len();
    let n = max_degree + 1;
    check_list(input);
    let mut out = zero_list(n);
    let mut power = zero_list(n);
    power.set(0, Rational::one());
    proof {
        assert(coefficient_views(out@) =~= composition_partial(sv, iv, m, 0));
        assert forall|i: int| 0 <= i < n implies same_value(#[trigger] coefficient_views(power@)[i], plain_power(iv, m, 0)[i]) by {
            assert(coefficient_views(power@)[i] == power@[i]@);
        }
    }
    let mut degree: usize = 0;
    while degree <= max_degree
        invariant
            degree <= max_degree + 1,
            n == max_degree + 1,
            m == max_degree,
            max_degree < input@.len(),
            sv == coefficient_views(series@),
            iv == coefficient_views(input@),
            positive_prefix(iv, iv.len()),
            out@.len() == n,
            power@.len() == n,
            same_prefix(coefficient_views(out@), composition_partial(sv, iv, m, degree as nat), n as nat),
            same_prefix(coefficient_views(power@), plain_power(iv, m, degree as nat), n as nat),
        decreases max_degree + 1 - degree,
    {
        let ghost previous = composition_partial(sv, iv, m, degree as nat);
        let ghost p = plain_power(iv, m, degree as nat);
        let ghost c = coeff_or_zero(sv, degree as int);
        check_list(out.as_slice());
        check_list(power.as_slice());
        let coefficient = if degree < series.len() { series[degree].clone() } else { Rational::zero() };
        proof {
            if degree < series@.len() {
                assert(sv[degree as int] == series@[degree as int]@);
            }
            assert(coefficient@ == c);
            assert(composition_partial(sv, iv, m, (degree + 1) as nat)
                == Seq::new(m + 1, |i: int| rat_add(previous[i], rat_mul(c, p[i]))));
        }
        if coefficient.is_zero() {
            proof {
                assert forall|i: int| 0 <= i < n implies same_value(#[trigger] coefficient_views(out@)[i], composition_partial(sv, iv, m, (degree + 1) as nat)[i]) by {
                    assert(rat_mul(c, p[i]).0 == 0) by (nonlinear_arith)
                        requires
                            rat_mul(c, p[i]).0 == c.0 * p[i].0,
                            c.0 == 0,
                    ;
                    lemma_add_zero_numerator(coefficient_views(out@)[i], previous[i], rat_mul(c, p[i]));
                }
            }
        } else {
            let next = add_scaled(&out, &coefficient, &power);
            proof {
                use_type_invariant(&coefficient);
                assert forall|i: int| 0 <= i < n implies same_value(#[trigger] coefficient_views(next@)[i], composition_partial(sv, iv, m, (degree + 1) as nat)[i]) by {
                    let o = coefficient_views(out@)[i];
                    let w = coefficient_views(power@)[i];
                    assert(o == out@[i]@);
                    assert(w == power@[i]@);
                    assert(coefficient_views(next@)[i] == next@[i]@);
                    lemma_mul_congruent(c, c, w, p[i]);
                    lemma_add_congruent(o, previous[i], rat_mul(c, w), rat_mul(c, p[i]));
                    lemma_denominator_product_positive(c, w);
                    lemma_denominator_product_positive(o, rat_mul(c, w));
                    lemma_same_value_transitive(next@[i]@, rat_add(o, rat_mul(c, w)), rat_add(previous[i], rat_mul(c, p[i])));
                }
            }
            out = next;
        }
        let next_power = mul_plain_series(power.as_slice(), input, max_degree);
        proof {
            let pv = coefficient_views(power@);
            lemma_plain_product_congruent(pv, p, iv, iv, m);
            lemma_plain_product_positive(pv, iv, m);
            assert(plain_power(iv, m, (degree + 1) as nat) == plain_product(p, iv, m));
            assert forall|i: int| 0 <= i < n implies same_value(#[trigger] coefficient_views(next_power@)[i], plain_power(iv, m, (degree + 1) as nat)[i]) by {
                assert(coefficient_views(next_power@)[i] == next_power@[i]@);
                lemma_same_value_transitive(next_power@[i]@, plain_product(pv, iv, m)[i], plain_product(p, iv, m)[i]);
            }
        }
        power = next_power;
        degree = degree + 1;
    }
    proof {
        assert forall|d: int| 0 <= d <= max_degree implies same_value((#[trigger] out@[d])@, composition(sv, iv, m)[d]) by {
            assert(coefficient_views(out@)[d] == out@[d]@);
        }
    }
    out
}

proof fn lemma_plain_power_positive(input: SeriesView, max_degree: nat, k: nat)
    requires
        positive_prefix(input, input.len()),
    ensures
        positive_prefix(plain_power(input, max_degree, k), max_degree + 1),
        plain_power(input, max_degree, k).len() == max_degree + 1,
    decreases k,
{
    if k > 0 {
        lemma_plain_power_positive(input, max_degree, (k - 1) as nat);
        lemma_plain_product_positive(plain_power(input, max_degree, (k - 1) as nat), input, max_degree);
    }
}

proof fn lemma_plain_power_congruent(input: SeriesView, input2: SeriesView, max_degree: nat, k: nat)
    requires
        same_prefix(input, input2, max_degree + 1),
    ensures
        same_prefix(plain_power(input, max_degree, k), plain_power(input2, max_degree, k), max_degree + 1),
    decreases k,
{
    if k > 0 {
        lemma_plain_power_congruent(input, input2, max_degree, (k - 1) as nat);
        lemma_plain_product_congruent(plain_power(input, max_degree, (k - 1) as nat), plain_power(input2, max_degree, (k - 1) as nat),
            input, input2, max_degree);
    }
}

proof fn lemma_composition_positive(series: SeriesView, input: SeriesView, max_degree: nat, n: nat)
    requires
        positive_prefix(series, series.len()),
        positive_prefix(input, input.len()),
    ensures
        positive_prefix(composition_partial(series, input, max_degree, n), max_degree + 1),
        composition_partial(series, input, max_degree, n).len() == max_degree + 1,
    decreases n,
{
    if n > 0 {
        let previous = composition_partial(series, input, max_degree, (n - 1) as nat);
        let power = plain_power(input, max_degree, (n - 1) as nat);
        let c = coeff_or_zero(series, n - 1);
        lemma_composition_positive(series, input, max_degree, (n - 1) as nat);
        lemma_plain_power_positive(input, max_degree, (n - 1) as nat);
        assert forall|i: int| 0 <= i < max_degree + 1 implies (#[trigger] composition_partial(series, input, max_degree, n)[i]).1 > 0 by {
            lemma_denominator_product_positive(c, power[i]);
            lemma_denominator_product_positive(previous[i], rat_mul(c, power[i]));
        }
    }
}

proof fn lemma_composition_congruent(series: SeriesView, series2: SeriesView, input: SeriesView, input2: SeriesView, max_degree: nat, n: nat)
    requires
        n <= max_degree + 1,
        forall|i: int| 0 <= i < n ==> same_value(#[trigger] coeff_or_zero(series, i), coeff_or_zero(series2, i)),
        same_prefix(input, input2, max_degree + 1),
    ensures
        same_prefix(composition_partial(series, input, max_degree, n), composition_partial(series2, input2, max_degree, n), max_degree + 1),
    decreases n,
{
    lemma_composition_shape(series, input, max_degree, n);
    lemma_composition_shape(series2, input2, max_degree, n);
    if n > 0 {
        let previous = composition_partial(series, input, max_degree, (n - 1) as nat);
        let previous2 = composition_partial(series2, input2, max_degree, (n - 1) as nat);
        let power = plain_power(input, max_degree, (n - 1) as nat);
        let power2 = plain_power(input2, max_degree, (n - 1) as nat);
        let c = coeff_or_zero(series, n - 1);
        let c2 = coeff_or_zero(series2, n - 1);
        assert(same_value(c, c2));
        lemma_composition_congruent(series, series2, input, input2, max_degree, (n - 1) as nat);
        lemma_plain_power_congruent(input, input2, max_degree, (n - 1) as nat);
        assert forall|i: int| 0 <= i < max_degree + 1 implies same_value(#[trigger] composition_partial(series, input, max_degree, n)[i], composition_partial(series2, input2, max_degree, n)[i]) by {
            lemma_mul_congruent(c, c2, power[i], power2[i]);
            lemma_add_congruent(previous[i], previous2[i], rat_mul(c, power[i]), rat_mul(c2, power2[i]));
        }
    }
}

proof fn lemma_composition_shape(series: SeriesView, input: SeriesView, max_degree: nat, n: nat)
    ensures
        composition_partial(series, input, max_degree, n).len() == max_degree + 1,
        plain_power(input, max_degree, n).len() == max_degree + 1,
    decreases n,
{
    if n > 0 {
        lemma_composition_shape(series, input, max_degree, (n - 1) as nat);
    }
}

/// The list `0, 1, 0, ..., 0` with `max_degree + 1` coefficients.
pub open spec fn linear_list(max_degree: nat) -> SeriesView {
    Seq::new(max_degree + 1, |i: int| if i == 1 { rat_of_int(1) } else { rat_of_int(0) })
}

/// The compositional inverse as determined through degree `k`: it starts
/// from `z`, and the coefficient of `z^j` for `2 <= j <= k` is minus the
/// coefficient of `z^j` in `series` composed with the inverse as determined
/// through degree `j - 1`, truncated after degree `j`.
pub open spec fn inversion_through(series: SeriesView, max_degree: nat, k: nat) -> SeriesView
    decreases k,
{
    if k <= 1 {
        linear_list(max_degree)
    } else {
        let previous = inversion_through(series, max_degree, (k - 1) as nat);
        previous.update(k as int, rat_neg(composition(series, previous, k)[k as int]))
    }
}

proof fn lemma_inversion_len(series: SeriesView, max_degree: nat, k: nat)
    requires
        k <= max_degree,
    ensures
        inversion_through(series, max_degree, k).len() == max_degree + 1,
    decreases k,
{
    if k > 1 {
        lemma_inversion_len(series, max_degree, (k - 1) as nat);
    }
}

proof fn lemma_inversion_positive(series: SeriesView, max_degree: nat, k: nat)
    requires
        positive_prefix(series, series.len()),
        k <= max_degree,
    ensures
        positive_prefix(inversion_through(series, max_degree, k), max_degree + 1),
    decreases k,
{
    lemma_inversion_len(series, max_degree, k);
    if k > 1 {
        let previous = inversion_through(series, max_degree, (k - 1) as nat);
        lemma_inversion_positive(series, max_degree, (k - 1) as nat);
        lemma_inversion_len(series, max_degree, (k - 1) as nat);
        lemma_composition_positive(series, previous, k, k + 1);
    }
}

proof fn lemma_inversion_congruent(series: SeriesView, series2: SeriesView, max_degree: nat, k: nat)
    requires
        same_prefix(series, series2, max_degree + 1),
        k <= max_degree,
    ensures
        same_prefix(inversion_through(series, max_degree, k), inversion_through(series2, max_degree, k), max_degree + 1),
    decreases k,
{
    lemma_inversion_len(series, max_degree, k);
    lemma_inversion_len(series2, max_degree, k);
    if k > 1 {
        let previous = inversion_through(series, max_degree, (k - 1) as nat);
        let previous2 = inversion_through(series2, max_degree, (k - 1) as nat);
        lemma_inversion_congruent(series, series2, max_degree, (k - 1) as nat);
        lemma_inversion_len(series, max_degree, (k - 1) as nat);
        lemma_inversion_len(series2, max_degree, (k - 1) as nat);
        assert forall|i: int| 0 <= i < k + 1 implies same_value(#[trigger] coeff_or_zero(series, i), coeff_or_zero(series2, i)) by {
            assert(same_value(series[i], series2[i]));
        }
        lemma_composition_congruent(series, series2, previous, previous2, k, k + 1);
        lemma_neg_congruent(composition(series, previous, k)[k as int], composition(series2, previous2, k)[k as int]);
    }
}

/// The compositional inverse, truncated after `max_degree`, of a series
/// with zero constant term and linear coefficient one.
pub fn invert_series_with_linear_term_one(series: &[Rational], max_degree: usize) -> (out: Vec<Rational>)
    requires
        series@.len() >= 1,
        series@[0]@.0 == 0,
        max_degree >= 1 ==> series@.len() >= 2 && same_value(series@[1]@, rat_of_int(1)),
        max_degree < usize::MAX,
    ensures
        out@.len() == max_degree + 1,
        same_prefix(coefficient_views(out@), inversion_through(coefficient_views(series@), max_degree as nat, max_degree as nat), max_degree as nat + 1),
{
    let ghost sv = coefficient_views(series@);
    let ghost m = max_degree as nat;
    if max_degree == 0 {
        let out = vec![Rational::zero()];
        proof {
            assert(coefficient_views(out@)[0] == out@[0]@);
        }
        return out;
    }
    check_list(series);
    let mut inverse = zero_list(max_degree + 1);
    inverse.set(1, Rational::one());
    proof {
        assert forall|i: int| 0 <= i < m + 1 implies same_value(#[trigger] coefficient_views(inverse@)[i], inversion_through(sv, m, 1)[i]) by {
            assert(coefficient_views(inverse@)[i] == inverse@[i]@);
        }
    }
    let mut degree: usize = 2;
    while degree <= max_degree
        invariant
            2 <= degree <= max_degree + 1,
            max_degree < usize::MAX,
            m == max_degree,
            sv == coefficient_views(series@),
            positive_prefix(sv, sv.len()),
            inverse@.len() == max_degree + 1,
            same_prefix(coefficient_views(inverse@), inversion_through(sv, m, (degree - 1) as nat), m + 1),
        decreases max_degree + 1 - degree,
    {
        let ghost previous = inversion_through(sv, m, (degree - 1) as nat);
        let ghost iv = coefficient_views(inverse@);
        check_list(inverse.as_slice());
        let composed = compose_plain_series(series, inverse.as_slice(), degree);
        let current = &composed[degree];
        let value = current.neg();
        proof {
            let k = degree as nat;
            lemma_inversion_len(sv, m, (degree - 1) as nat);
            assert(same_prefix(iv, previous, k + 1));
            lemma_composition_congruent(sv, sv, iv, previous, k, k + 1);
            lemma_composition_positive(sv, iv, k, k + 1);
            let exact = composition(sv, previous, k)[k as int];
            let middle = composition(sv, iv, k)[k as int];
            lemma_same_value_transitive(current@, middle, exact);
            lemma_neg_congruent(current@, exact);
            use_type_invariant(current);
            lemma_same_value_transitive(value@, rat_neg(current@), rat_neg(exact));
            assert(inversion_through(sv, m, k) == previous.update(k as int, rat_neg(exact)));
        }
        inverse.set(degree, value);
        proof {
            let k = degree as nat;
            assert forall|i: int| 0 <= i < m + 1 implies same_value(#[trigger] coefficient_views(inverse@)[i], inversion_through(sv, m, k)[i]) by {
                assert(coefficient_views(inverse@)[i] == inverse@[i]@);
                if i != degree {
                    assert(iv[i] == inverse@[i]@);
                }
            }
        }
        degree = degree + 1;
    }
    inverse
}

/// Invert a mirror map `q(Q) = Q exp(mirror(Q))` to recover `Q(q)`,
/// truncated after `q_degree`.
pub fn invert_mirror_map(mirror: &[Rational], q_degree: usize) -> (out: Vec<Rational>)
    requires
        q_degree < usize::MAX,
    ensures
        out@.len() == q_degree + 1,
        same_prefix(coefficient_views(out@),
            inversion_through(plain_product(linear_list(q_degree as nat), exp_list(coefficient_views(mirror@), q_degree as nat), q_degree as nat),
                q_degree as nat, q_degree as nat),
            q_degree as nat + 1),
{
    let ghost q = q_degree as nat;
    let ghost spec_target = plain_product(linear_list(q), exp_list(coefficient_views(mirror@), q), q);
    let exp_mirror = exp_series(mirror, q_degree);
    let mut q_of_q = zero_list(q_degree + 1);
    if q_degree >= 1 {
        q_of_q.set(1, Rational::one());
    }
    proof {
        assert(coefficient_views(q_of_q@) =~= linear_list(q));
    }
    let target = mul_plain_series(q_of_q.as_slice(), exp_mirror.as_slice(), q_degree);
    check_list(exp_mirror.as_slice());
    check_list(target.as_slice());
    proof {
        let ev = coefficient_views(exp_mirror@);
        let lin = linear_list(q);
        let middle = plain_product(lin, ev, q);
        let tv = coefficient_views(target@);
        assert(same_prefix(ev, exp_list(coefficient_views(mirror@), q), q + 1)) by {
            assert forall|i: int| 0 <= i < q + 1 implies same_value(#[trigger] ev[i], exp_list(coefficient_views(mirror@), q)[i]) by {
                assert(ev[i] == exp_mirror@[i]@);
            }
        }
        assert(same_prefix(lin, lin, q + 1));
        lemma_plain_product_congruent(lin, lin, ev, exp_list(coefficient_views(mirror@), q), q);
        lemma_plain_product_positive(lin, ev, q);
        assert forall|i: int| 0 <= i < q + 1 implies same_value(#[trigger] tv[i], spec_target[i]) by {
            assert(tv[i] == target@[i]@);
            lemma_same_value_transitive(tv[i], middle[i], spec_target[i]);
        }
        // The constant term of the target is zero.
        let e0 = extended(ev, q + 1)[0];
        assert(convolution(lin, extended(ev, q + 1), 0, 0) == rat_of_int(0));
        let m0 = rat_mul(lin[0], e0);
        assert(m0.0 == 0) by (nonlinear_arith)
            requires
                m0.0 == lin[0].0 * e0.0,
                lin[0].0 == 0,
        ;
        assert(middle[0] == rat_add(rat_of_int(0), m0));
        assert(middle[0].0 == 0) by (nonlinear_arith)
            requires
                middle[0].0 == 0 * m0.1 + m0.0 * 1,
                m0.0 == 0,
        ;
        assert(tv[0] == target@[0]@);
        assert(tv[0].0 == 0) by (nonlinear_arith)
            requires
                tv[0].0 * middle[0].1 == middle[0].0 * tv[0].1,
                middle[0].0 == 0,
                middle[0].1 > 0,
        ;
        if q >= 1 {
            // The linear term of the target is the constant term of the
            // exponential, which is one.
            let e1 = extended(ev, q + 1)[1];
            assert(e0 == ev[0]);
            assert(same_value(e0, rat_of_int(1)));
            let a1 = rat_add(rat_of_int(0), rat_mul(lin[0], e1));
            assert(convolution(lin, extended(ev, q + 1), 1, 0) == rat_of_int(0));
            assert(convolution(lin, extended(ev, q + 1), 1, 1) == a1);
            assert(middle[1] == rat_add(a1, rat_mul(lin[1], e0)));
            assert(a1.0 == 0) by (nonlinear_arith)
                requires
                    a1.0 == 0 * (lin[0].1 * e1.1) + (lin[0].0 * e1.0) * 1,
                    lin[0].0 == 0,
            ;
            let m1 = rat_mul(lin[1], e0);
            assert(m1.0 == e0.0 && m1.1 == e0.1) by (nonlinear_arith)
                requires
                    m1.0 == lin[1].0 * e0.0,
                    m1.1 == lin[1].1 * e0.1,
                    lin[1].0 == 1,
                    lin[1].1 == 1,
            ;
            assert(same_value(middle[1], rat_of_int(1))) by (nonlinear_arith)
                requires
                    middle[1].0 == a1.0 * m1.1 + m1.0 * a1.1,
                    middle[1].1 == a1.1 * m1.1,
                    a1.0 == 0,
                    m1.0 == e0.0,
                    m1.1 == e0.1,
                    e0.0 * 1 == 1 * e0.1,
            ;
            assert(tv[1] == target@[1]@);
            lemma_same_value_transitive(tv[1], middle[1], rat_of_int(1));
        }
    }
    let out = invert_series_with_linear_term_one(target.as_slice(), q_degree);
    proof {
        let tv = coefficient_views(target@);
        lemma_inversion_positive(tv, q, q);
        lemma_inversion_congruent(tv, spec_target, q, q);
        let ov = coefficient_views(out@);
        assert forall|i: int| 0 <= i < q + 1 implies same_value(#[trigger] ov[i], inversion_through(spec_target, q, q)[i]) by {
            lemma_same_value_transitive(ov[i], inversion_through(tv, q, q)[i], inversion_through(spec_target, q, q)[i]);
        }
    }
    out
}

} // verus!
