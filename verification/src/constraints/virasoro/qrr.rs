//! Quantum Riemann--Roch conjugation data.
//!
//! This module represents the operator before any backend is queried.  The
//! finite term table is a reviewable truncation of Coates--Givental's exact
//! formula; the renderers also display the untruncated formula and all
//! coordinate conventions.

use vstd::prelude::*;
use vstd::arithmetic::div_mod::lemma_fundamental_div_mod_converse;
use vstd::arithmetic::power::pow;
use crate::constraints::virasoro::scan::{binomial, lemma_binomial_absorption};
use crate::foundation::error::GwError;
use crate::foundation::rational::{
    lemma_add_congruent, lemma_denominator_product_positive, lemma_div_congruent,
    lemma_mul_congruent, lemma_same_value_transitive, rat_add, rat_div, rat_mul, rat_neg,
    rat_of_int, same_value, Rational, RationalView,
};
use crate::text::{decimal, push_str, push_string, push_usize, string_from};

verus! {

pub const MAX_QRR_CHERN_INDEX: usize = 64;
pub const MAX_QRR_POSITIVE_Z_POWER: usize = 63;

/// Whether a Hamiltonian term comes from `A_-` or from `A_+`.
#[derive(Debug, Clone, Copy, PartialEq, Eq, PartialOrd, Ord, Hash)]
pub enum QrrFactor {
    Negative,
    Positive,
}

/// One term `s_p * multiplier * ch_l(E) * z^k` of the QRR Hamiltonians.
#[derive(Debug, Clone, PartialEq, Eq)]
pub struct QrrHamiltonianTerm {
    pub factor: QrrFactor,
    pub z_power: i32,
    pub chern_character_index: usize,
    pub characteristic_parameter_index: usize,
    pub rational_multiplier: Rational,
}

/// `n!`.
pub open spec fn factorial(n: nat) -> nat
    decreases n,
{
    if n == 0 {
        1
    } else {
        n * factorial((n - 1) as nat)
    }
}

/// The Bernoulli number `B_n` (with `B_1 = -1/2`), from
/// `sum_{k=0}^{n} C(n+1, k) B_k = 0` for `n >= 1`.
pub open spec fn bernoulli(n: nat) -> RationalView
    decreases n, n + 1,
{
    if n == 0 {
        rat_of_int(1)
    } else {
        rat_div(rat_neg(bernoulli_sum(n, n)), rat_of_int((n + 1) as int))
    }
}

/// `sum_{k < count} C(n+1, k) B_k`.
pub open spec fn bernoulli_sum(n: nat, count: nat) -> RationalView
    decreases n, count,
{
    if count == 0 || count > n {
        rat_of_int(0)
    } else {
        rat_add(
            bernoulli_sum(n, (count - 1) as nat),
            rat_mul(rat_of_int(binomial(n + 1, (count - 1) as nat) as int), bernoulli((count - 1) as nat)),
        )
    }
}

/// `B_n / n!`.
pub open spec fn bernoulli_over_factorial_value(n: nat) -> RationalView {
    (bernoulli(n).0, bernoulli(n).1 * factorial(n))
}

proof fn lemma_binomial_bound(n: nat, k: nat)
    ensures
        binomial(n, k) <= pow(2, n),
    decreases n, k,
{
    vstd::arithmetic::power::lemma_pow0(2);
    if k > 0 && n > 0 {
        lemma_binomial_bound((n - 1) as nat, (k - 1) as nat);
        lemma_binomial_bound((n - 1) as nat, k);
        vstd::arithmetic::power::lemma_pow_adds(2, 1, (n - 1) as nat);
        vstd::arithmetic::power::lemma_pow1(2);
    } else if k > 0 {
        vstd::arithmetic::power::lemma_pow_positive(2, n);
    } else {
        vstd::arithmetic::power::lemma_pow_positive(2, n);
    }
}

/// `k C(N, k) = (N + 1 - k) C(N, k - 1)` for `1 <= k <= N`.
proof fn lemma_binomial_step(big_n: nat, k: nat)
    requires
        1 <= k <= big_n,
    ensures
        k * binomial(big_n, k) == (big_n + 1 - k) * binomial(big_n, (k - 1) as nat),
{
    let n1 = (big_n - 1) as nat;
    let j = (k - 1) as nat;
    lemma_binomial_absorption(n1, j);
    // (N - j) C(N, j) = N C(N-1, j), from Pascal and absorption.
    if j == 0 {
        assert(binomial(big_n, 0) == 1);
        assert(binomial(n1, 0) == 1);
    } else {
        lemma_binomial_absorption(n1, (j - 1) as nat);
        assert(binomial(big_n, j) == binomial(n1, (j - 1) as nat) + binomial(n1, j));
        assert((big_n - j) * binomial(big_n, j) == big_n * binomial(n1, j)) by (nonlinear_arith)
            requires
                j * binomial(big_n, j) == big_n * binomial(n1, (j - 1) as nat),
                binomial(big_n, j) == binomial(n1, (j - 1) as nat) + binomial(n1, j),
                big_n == n1 + 1,
        ;
    }
    assert((big_n - j) * binomial(big_n, j) == big_n * binomial(n1, j)) by (nonlinear_arith)
        requires
            j == 0 ==> binomial(big_n, 0) == 1 && binomial(n1, 0) == 1 && big_n == n1 + 1,
            j > 0 ==> (big_n - j) * binomial(big_n, j) == big_n * binomial(n1, j),
    ;
}

/// One step of the Bernoulli recurrence: `sum + C(N, k) B_k`.
proof fn lemma_bernoulli_sum_step(
    n: nat,
    k: nat,
    sum: RationalView,
    coefficient: RationalView,
    number: RationalView,
    product: RationalView,
    next: RationalView,
)
    requires
        k < n,
        sum.1 > 0,
        product.1 > 0,
        coefficient.1 > 0,
        number.1 > 0,
        same_value(sum, bernoulli_sum(n, k)),
        same_value(coefficient, rat_of_int(binomial(n + 1, k) as int)),
        same_value(number, bernoulli(k)),
        same_value(product, rat_mul(coefficient, number)),
        same_value(next, rat_add(sum, product)),
    ensures
        same_value(next, bernoulli_sum(n, k + 1)),
{
    let c = rat_of_int(binomial(n + 1, k) as int);
    lemma_mul_congruent(coefficient, c, number, bernoulli(k));
    lemma_denominator_product_positive(coefficient, number);
    lemma_same_value_transitive(product, rat_mul(coefficient, number), rat_mul(c, bernoulli(k)));
    lemma_add_congruent(sum, bernoulli_sum(n, k), product, rat_mul(c, bernoulli(k)));
    lemma_denominator_product_positive(sum, product);
    lemma_same_value_transitive(next, rat_add(sum, product), bernoulli_sum(n, k + 1));
}

proof fn lemma_factorial_positive(n: nat)
    ensures
        factorial(n) > 0,
    decreases n,
{
    if n > 0 {
        lemma_factorial_positive((n - 1) as nat);
        assert(n * factorial((n - 1) as nat) > 0) by (nonlinear_arith)
            requires
                n > 0,
                factorial((n - 1) as nat) > 0,
        ;
    }
}

proof fn lemma_bernoulli_denominator(n: nat)
    ensures
        bernoulli(n).1 > 0,
        n > 0 ==> bernoulli_sum(n, n).1 > 0,
    decreases n, n + 1,
{
    if n > 0 {
        lemma_bernoulli_sum_denominator(n, n);
        let s = bernoulli_sum(n, n);
        assert(bernoulli(n).1 == s.1 * (n + 1)) by (nonlinear_arith)
            requires
                bernoulli(n) == rat_div(rat_neg(s), rat_of_int((n + 1) as int)),
                n + 1 > 0,
        ;
        assert(s.1 * (n + 1) > 0) by (nonlinear_arith)
            requires
                s.1 > 0,
        ;
    }
}

proof fn lemma_bernoulli_sum_denominator(n: nat, count: nat)
    ensures
        bernoulli_sum(n, count).1 > 0,
    decreases n, count,
{
    if count > 0 && count <= n {
        let k = (count - 1) as nat;
        lemma_bernoulli_sum_denominator(n, k);
        lemma_bernoulli_denominator(k);
        let c = rat_of_int(binomial(n + 1, k) as int);
        lemma_denominator_product_positive(c, bernoulli(k));
        lemma_denominator_product_positive(bernoulli_sum(n, k), rat_mul(c, bernoulli(k)));
    }
}

/// The Bernoulli number `B_index` for `index <= MAX_QRR_POSITIVE_Z_POWER + 1`.
pub fn qrr_bernoulli_number(index: usize) -> (result: Result<Rational, GwError>)
    ensures
        result is Ok <==> index <= MAX_QRR_POSITIVE_Z_POWER + 1,
        result matches Ok(b) ==> same_value(b@, bernoulli(index as nat)),
        result matches Err(e) ==> (e matches GwError::ResourceLimit { operation, requested, limit }
            && operation@ == "QRR Bernoulli-number table"@ && requested == index
            && limit == MAX_QRR_POSITIVE_Z_POWER + 1),
{
    let maximum = MAX_QRR_POSITIVE_Z_POWER + 1;
    if index > maximum {
        return Err(GwError::ResourceLimit {
            operation: string_from("QRR Bernoulli-number table"),
            requested: index,
            limit: maximum,
        });
    }
    let mut numbers: Vec<Rational> = Vec::new();
    numbers.push(Rational::one());
    let mut n: usize = 1;
    while n <= index
        invariant
            index <= 64,
            1 <= n <= index + 1,
            numbers@.len() == n,
            forall|j: int| 0 <= j < n ==> same_value((#[trigger] numbers@[j])@, bernoulli(j as nat)),
        decreases index + 1 - n,
    {
        let mut sum = Rational::zero();
        let mut coefficient_value: u128 = 1;
        let mut k: usize = 0;
        while k < n
            invariant
                index <= 64,
                1 <= n <= index,
                numbers@.len() == n,
                forall|j: int| 0 <= j < n ==> same_value((#[trigger] numbers@[j])@, bernoulli(j as nat)),
                k <= n,
                coefficient_value == binomial(n as nat + 1, if k == 0 { 0 } else { (k - 1) as nat }),
                same_value(sum@, bernoulli_sum(n as nat, k as nat)),
            decreases n - k,
        {
            proof {
                lemma_binomial_bound(n as nat + 1, if k == 0 { 0 } else { (k - 1) as nat });
                lemma_binomial_bound(n as nat + 1, k as nat);
                vstd::arithmetic::power::lemma_pow_increases(2, n as nat + 1, 65);
                vstd::arithmetic::power2::lemma2_to64_rest();
                vstd::arithmetic::power2::lemma_pow2_unfold(65);
                vstd::arithmetic::power2::lemma_pow2(65);
                assert(pow(2, 65) == 0x2_0000_0000_0000_0000);
            }
            if k > 0 {
                proof {
                    lemma_binomial_step(n as nat + 1, k as nat);
                    let step = n + 2 - k;
                    assert(coefficient_value <= 0x2_0000_0000_0000_0000);
                    assert(coefficient_value * step <= 0x2_0000_0000_0000_0000 * 66) by (nonlinear_arith)
                        requires
                            coefficient_value <= 0x2_0000_0000_0000_0000,
                            0 <= step <= 66,
                    ;
                }
                let product = coefficient_value * ((n + 2 - k) as u128);
                proof {
                    assert(product as int / k as int == binomial(n as nat + 1, k as nat)) by (nonlinear_arith)
                        requires
                            product == coefficient_value * (n + 2 - k),
                            k * binomial(n as nat + 1, k as nat) == (n + 2 - k) * coefficient_value,
                            k >= 1,
                    ;
                }
                coefficient_value = product / (k as u128);
            }
            let coefficient = coefficient_value as i128;
            let factor = Rational::from_i128(coefficient);
            let entry = &numbers[k];
            let term = factor.mul(entry);
            let next = sum.add(&term);
            proof {
                use_type_invariant(&factor);
                use_type_invariant(entry);
                use_type_invariant(&sum);
                use_type_invariant(&term);
                lemma_bernoulli_sum_step(n as nat, k as nat, sum@, factor@, numbers@[k as int]@, term@, next@);
            }
            sum = next;
            k = k + 1;
        }
        let negated = sum.neg();
        let divisor = Rational::from_usize(n + 1);
        proof {
            use_type_invariant(&divisor);
            assert(divisor@.0 != 0) by (nonlinear_arith)
                requires
                    divisor@.0 * 1 == (n + 1) * divisor@.1,
                    divisor@.1 > 0,
            ;
        }
        let number = negated.div(&divisor);
        proof {
            use_type_invariant(&sum);
            use_type_invariant(&negated);
            lemma_bernoulli_sum_denominator(n as nat, n as nat);
            assert(same_value(rat_neg(sum@), rat_neg(bernoulli_sum(n as nat, n as nat)))) by (nonlinear_arith)
                requires
                    sum@.0 * bernoulli_sum(n as nat, n as nat).1 == bernoulli_sum(n as nat, n as nat).0 * sum@.1,
            ;
            lemma_same_value_transitive(negated@, rat_neg(sum@), rat_neg(bernoulli_sum(n as nat, n as nat)));
            lemma_div_congruent(negated@, rat_neg(bernoulli_sum(n as nat, n as nat)), divisor@, rat_of_int((n + 1) as int));
            assert(rat_div(negated@, divisor@).1 != 0) by (nonlinear_arith)
                requires
                    negated@.1 > 0,
                    divisor@.0 != 0,
                    rat_div(negated@, divisor@).1 == (if divisor@.0 >= 0 {
                        negated@.1 * divisor@.0
                    } else {
                        -(negated@.1 * divisor@.0)
                    }),
            ;
            lemma_same_value_transitive(number@, rat_div(negated@, divisor@), bernoulli(n as nat));
        }
        numbers.push(number);
        n = n + 1;
    }
    let result = numbers[index].clone();
    Ok(result)
}

/// `B_index / index!`.
pub fn bernoulli_over_factorial(index: usize) -> (result: Result<Rational, GwError>)
    ensures
        result is Ok <==> index <= MAX_QRR_POSITIVE_Z_POWER + 1,
        result matches Ok(v) ==> same_value(v@, bernoulli_over_factorial_value(index as nat)),
{
    let mut value = qrr_bernoulli_number(index)?;
    let ghost b = bernoulli(index as nat);
    proof {
        assert(factorial(0) == 1);
        assert(factorial(1) == 1 * factorial(0));
        assert(factorial(1) == 1);
        lemma_bernoulli_denominator(index as nat);
        assert(b.1 * factorial(1) == b.1);
        assert((b.0, b.1 * factorial(1)) == b);
    }
    let mut factor: usize = 2;
    while factor <= index
        invariant
            index <= 64,
            2 <= factor,
            factor <= index + 1 || (index <= 1 && factor == 2),
            b.1 > 0,
            b == bernoulli(index as nat),
            same_value(value@, (b.0, b.1 * factorial((factor - 1) as nat))),
        decreases index + 1 - factor,
    {
        let divisor = Rational::from_usize(factor);
        proof {
            use_type_invariant(&divisor);
            use_type_invariant(&value);
            assert(divisor@.0 != 0) by (nonlinear_arith)
                requires
                    divisor@.0 * 1 == factor * divisor@.1,
                    divisor@.1 > 0,
                    factor >= 2,
            ;
        }
        let next = value.div(&divisor);
        proof {
            let f = factorial((factor - 1) as nat);
            lemma_factorial_positive((factor - 1) as nat);
            assert(b.1 * f != 0) by (nonlinear_arith)
                requires
                    b.1 > 0,
                    f > 0,
            ;
            let target = (b.0, b.1 * f);
            lemma_div_congruent(value@, target, divisor@, rat_of_int(factor as int));
            assert(factorial(factor as nat) == factor * f);
            assert(same_value(rat_div(target, rat_of_int(factor as int)), (b.0, b.1 * factorial(factor as nat))))
                by (nonlinear_arith)
                requires
                    factor >= 2,
                    factorial(factor as nat) == factor * f,
                    rat_div(target, rat_of_int(factor as int)) == (b.0 * 1, b.1 * f * factor),
            ;
            assert(rat_div(value@, divisor@).1 != 0) by (nonlinear_arith)
                requires
                    value@.1 > 0,
                    divisor@.0 != 0,
                    rat_div(value@, divisor@).1 == (if divisor@.0 >= 0 {
                        value@.1 * divisor@.0
                    } else {
                        -(value@.1 * divisor@.0)
                    }),
            ;
            assert(rat_div(target, rat_of_int(factor as int)).1 != 0) by (nonlinear_arith)
                requires
                    factor >= 2,
                    rat_div(target, rat_of_int(factor as int)) == (b.0 * 1, b.1 * f * factor),
                    b.1 * f != 0,
            ;
            lemma_same_value_transitive(next@, rat_div(value@, divisor@), rat_div(target, rat_of_int(factor as int)));
            lemma_same_value_transitive(next@, rat_div(target, rat_of_int(factor as int)), (b.0, b.1 * factorial(factor as nat)));
        }
        value = next;
        factor = factor + 1;
    }
    proof {
        if index <= 1 {
            assert(factorial(0) == 1);
            assert(factorial(1) == 1 * factorial(0));
        }
    }
    Ok(value)
}

/// The number of positive odd `z` powers up to `max_z`.
pub open spec fn positive_block_count(max_z: nat) -> nat {
    (max_z + 1) / 2
}

/// Term `i` of the table: first `ch_l z^(-1)` with multiplier one for
/// `l = 1..=max_c`, then for each odd `z = 1, 3, ...` every `ch_l`, `l = 0..=max_c`,
/// with multiplier `B_(z+1)/(z+1)!`.
pub open spec fn qrr_term_matches(t: QrrHamiltonianTerm, max_c: nat, i: int) -> bool {
    if i < max_c {
        &&& t.factor == QrrFactor::Negative
        &&& t.z_power == -1
        &&& t.chern_character_index == i + 1
        &&& t.characteristic_parameter_index == i
        &&& t.rational_multiplier@ == rat_of_int(1)
    } else {
        let q = (i - max_c) / ((max_c + 1) as int);
        let c = (i - max_c) % ((max_c + 1) as int);
        let z = 2 * q + 1;
        &&& t.factor == QrrFactor::Positive
        &&& t.z_power == z
        &&& t.chern_character_index == c
        &&& t.characteristic_parameter_index == z + c
        &&& same_value(t.rational_multiplier@, bernoulli_over_factorial_value((z + 1) as nat))
    }
}

/// The finite exact term table for `ch_l`, `l <= max_c`, and positive `z`
/// powers up to `max_z`.
pub open spec fn qrr_table(terms: Seq<QrrHamiltonianTerm>, max_c: nat, max_z: nat) -> bool {
    &&& terms.len() == max_c + positive_block_count(max_z) * (max_c + 1)
    &&& forall|i: int| 0 <= i < terms.len() ==> qrr_term_matches(#[trigger] terms[i], max_c, i)
}

/// The table has an `A_-` term for `ch_l`.
pub open spec fn lists_negative_term(terms: Seq<QrrHamiltonianTerm>, l: int) -> bool {
    exists|i: int| 0 <= i < terms.len() && (#[trigger] terms[i]).factor == QrrFactor::Negative
        && terms[i].chern_character_index == l
}

/// In a QRR table every `A_-` term is `s_(l-1) ch_l z^(-1)` for some
/// `1 <= l <= max_c`, and every `A_+` term is `s_(k+l) ch_l z^k` for an odd
/// `k >= 1` and `l <= max_c`.
pub proof fn lemma_qrr_parameter_pairing(terms: Seq<QrrHamiltonianTerm>, max_c: nat, max_z: nat)
    requires
        qrr_table(terms, max_c, max_z),
    ensures
        forall|i: int| 0 <= i < terms.len() && (#[trigger] terms[i]).factor == QrrFactor::Negative ==> {
            &&& terms[i].characteristic_parameter_index + 1 == terms[i].chern_character_index
            &&& terms[i].z_power == -1
            &&& 1 <= terms[i].chern_character_index <= max_c
            &&& terms[i].rational_multiplier@ == rat_of_int(1)
        },
        forall|l: int| 1 <= l <= max_c ==> #[trigger] lists_negative_term(terms, l),
        forall|i: int| 0 <= i < terms.len() && (#[trigger] terms[i]).factor == QrrFactor::Positive ==> {
            &&& terms[i].characteristic_parameter_index == terms[i].z_power + terms[i].chern_character_index
            &&& terms[i].z_power >= 1
            &&& terms[i].z_power % 2 == 1
            &&& terms[i].chern_character_index <= max_c
            &&& same_value(
                terms[i].rational_multiplier@,
                bernoulli_over_factorial_value((terms[i].z_power + 1) as nat),
            )
        },
{
    assert forall|l: int| 1 <= l <= max_c implies #[trigger] lists_negative_term(terms, l) by {
        assert(qrr_term_matches(terms[l - 1], max_c, l - 1));
        assert(terms[l - 1].factor == QrrFactor::Negative);
    }
    assert forall|i: int| 0 <= i < terms.len() && (#[trigger] terms[i]).factor == QrrFactor::Positive implies {
        &&& terms[i].characteristic_parameter_index == terms[i].z_power + terms[i].chern_character_index
        &&& terms[i].z_power >= 1
        &&& terms[i].z_power % 2 == 1
        &&& terms[i].chern_character_index <= max_c
        &&& same_value(
            terms[i].rational_multiplier@,
            bernoulli_over_factorial_value((terms[i].z_power + 1) as nat),
        )
    } by {
        assert(qrr_term_matches(terms[i], max_c, i));
        let q = (i - max_c) / ((max_c + 1) as int);
        let c = (i - max_c) % ((max_c + 1) as int);
        assert(q >= 0 && 0 <= c < max_c + 1) by (nonlinear_arith)
            requires
                i >= max_c,
                q == (i - max_c) / ((max_c + 1) as int),
                c == (i - max_c) % ((max_c + 1) as int),
        ;
        assert((2 * q + 1) % 2 == 1) by (nonlinear_arith)
            requires
                q >= 0,
        ;
    }
}

/// The QRR-conjugated Virasoro operator of a twisted theory, with a finite
/// exact table of its Hamiltonian terms.
#[derive(Debug, Clone, PartialEq, Eq)]
pub struct QrrConjugationFormula {
    pub base_theory_text: String,
    pub base_theory_tex: String,
    pub bundle_text: String,
    pub bundle_tex: String,
    pub characteristic_class_text: String,
    pub max_chern_character_index: usize,
    pub max_positive_z_power: usize,
    terms: Vec<QrrHamiltonianTerm>,
}

impl QrrConjugationFormula {
    pub closed spec fn spec_terms(&self) -> Seq<QrrHamiltonianTerm> {
        self.terms@
    }

    pub closed spec fn spec_base_theory_text(&self) -> Seq<char> {
        self.base_theory_text@
    }

    pub closed spec fn spec_base_theory_tex(&self) -> Seq<char> {
        self.base_theory_tex@
    }

    pub closed spec fn spec_bundle_text(&self) -> Seq<char> {
        self.bundle_text@
    }

    pub closed spec fn spec_bundle_tex(&self) -> Seq<char> {
        self.bundle_tex@
    }

    pub closed spec fn spec_characteristic_class_text(&self) -> Seq<char> {
        self.characteristic_class_text@
    }

    pub closed spec fn spec_max_chern_character_index(&self) -> usize {
        self.max_chern_character_index
    }

    pub closed spec fn spec_max_positive_z_power(&self) -> usize {
        self.max_positive_z_power
    }

    /// Build a finite, exact table of the Hamiltonians in Theorem 1 of
    /// Coates--Givental: every `ch_l(E)` through `max_chern_character_index`
    /// and every positive odd `z` power through `max_positive_z_power`.  The
    /// represented formula itself remains the formal, untruncated QRR
    /// conjugation displayed by the renderers.
    pub fn new(
        base_theory_text: &str,
        base_theory_tex: &str,
        bundle_text: &str,
        bundle_tex: &str,
        characteristic_class_text: &str,
        max_chern_character_index: usize,
        max_positive_z_power: usize,
    ) -> (result: Result<Self, GwError>)
        ensures
            result is Ok <==> max_chern_character_index <= MAX_QRR_CHERN_INDEX
                && max_positive_z_power <= MAX_QRR_POSITIVE_Z_POWER,
            max_chern_character_index > MAX_QRR_CHERN_INDEX ==> (result matches Err(
                GwError::ResourceLimit { operation, requested, limit },
            ) && operation@ == "QRR Chern-character table"@ && requested == max_chern_character_index
                && limit == MAX_QRR_CHERN_INDEX),
            max_chern_character_index <= MAX_QRR_CHERN_INDEX && max_positive_z_power
                > MAX_QRR_POSITIVE_Z_POWER ==> (result matches Err(GwError::ResourceLimit { operation, requested, limit })
                && operation@ == "QRR positive z-power table"@ && requested == max_positive_z_power
                && limit == MAX_QRR_POSITIVE_Z_POWER),
            result matches Ok(f) ==> {
                &&& f.spec_base_theory_text() == base_theory_text@
                &&& f.spec_base_theory_tex() == base_theory_tex@
                &&& f.spec_bundle_text() == bundle_text@
                &&& f.spec_bundle_tex() == bundle_tex@
                &&& f.spec_characteristic_class_text() == characteristic_class_text@
                &&& f.spec_max_chern_character_index() == max_chern_character_index
                &&& f.spec_max_positive_z_power() == max_positive_z_power
                &&& qrr_table(f.spec_terms(), max_chern_character_index as nat, max_positive_z_power as nat)
            },
    {
        if max_chern_character_index > MAX_QRR_CHERN_INDEX {
            return Err(GwError::ResourceLimit {
                operation: string_from("QRR Chern-character table"),
                requested: max_chern_character_index,
                limit: MAX_QRR_CHERN_INDEX,
            });
        }
        if max_positive_z_power > MAX_QRR_POSITIVE_Z_POWER {
            return Err(GwError::ResourceLimit {
                operation: string_from("QRR positive z-power table"),
                requested: max_positive_z_power,
                limit: MAX_QRR_POSITIVE_Z_POWER,
            });
        }
        let max_c = max_chern_character_index;
        let max_z = max_positive_z_power;
        let mut terms: Vec<QrrHamiltonianTerm> = Vec::new();
        let mut chern: usize = 1;
        while chern <= max_c
            invariant
                max_c <= 64,
                1 <= chern <= max_c + 1,
                terms@.len() == chern - 1,
                forall|i: int| 0 <= i < terms@.len() ==> qrr_term_matches(#[trigger] terms@[i], max_c as nat, i),
            decreases max_c + 1 - chern,
        {
            terms.push(QrrHamiltonianTerm {
                factor: QrrFactor::Negative,
                z_power: -1,
                chern_character_index: chern,
                characteristic_parameter_index: chern - 1,
                rational_multiplier: Rational::one(),
            });
            chern = chern + 1;
        }
        let mut z_power: usize = 1;
        let ghost mut block: nat = 0;
        while z_power <= max_z
            invariant
                max_c <= 64,
                max_z <= 63,
                z_power == 2 * block + 1,
                z_power <= max_z + 2,
                terms@.len() == max_c + block * (max_c + 1),
                forall|i: int| 0 <= i < terms@.len() ==> qrr_term_matches(#[trigger] terms@[i], max_c as nat, i),
            decreases max_z + 2 - z_power,
        {
            let multiplier = match bernoulli_over_factorial(z_power + 1) {
                Ok(m) => m,
                Err(_) => {
                    proof {
                        assert(false);
                    }
                    Rational::zero()
                },
            };
            let mut chern: usize = 0;
            while chern <= max_c
                invariant
                    max_c <= 64,
                    max_z <= 63,
                    z_power <= max_z,
                    z_power == 2 * block + 1,
                    chern <= max_c + 1,
                    same_value(multiplier@, bernoulli_over_factorial_value((z_power + 1) as nat)),
                    terms@.len() == max_c + block * (max_c + 1) + chern,
                    forall|i: int| 0 <= i < terms@.len() ==> qrr_term_matches(#[trigger] terms@[i], max_c as nat, i),
                decreases max_c + 1 - chern,
            {
                let ghost index = terms@.len() as int;
                proof {
                    lemma_fundamental_div_mod_converse(
                        index - max_c,
                        max_c + 1,
                        block as int,
                        chern as int,
                    );
                }
                terms.push(QrrHamiltonianTerm {
                    factor: QrrFactor::Positive,
                    z_power: z_power as i32,
                    chern_character_index: chern,
                    characteristic_parameter_index: z_power + chern,
                    rational_multiplier: multiplier.clone(),
                });
                chern = chern + 1;
            }
            proof {
                assert(terms@.len() == max_c + (block + 1) * (max_c + 1)) by (nonlinear_arith)
                    requires
                        terms@.len() == max_c + block * (max_c + 1) + (max_c + 1),
                ;
                block = block + 1;
            }
            z_power = z_power + 2;
        }
        proof {
            assert(block == positive_block_count(max_z as nat));
        }
        Ok(Self {
            base_theory_text: string_from(base_theory_text),
            base_theory_tex: string_from(base_theory_tex),
            bundle_text: string_from(bundle_text),
            bundle_tex: string_from(bundle_tex),
            characteristic_class_text: string_from(characteristic_class_text),
            max_chern_character_index,
            max_positive_z_power,
            terms,
        })
    }

    pub fn terms(&self) -> (out: &[QrrHamiltonianTerm])
        ensures
            out@ == self.spec_terms(),
    {
        self.terms.as_slice()
    }

    /// The rendered text of the formula.
    pub closed spec fn spec_render_text(&self) -> Seq<char> {
        "QRR-conjugated Virasoro operator\n=================================\nBase theory: "@
            + self.base_theory_text@
            + "\nBundle: "@
            + self.bundle_text@
            + "\nCharacteristic class: "@
            + self.characteristic_class_text@
            + " = exp(sum_(k>=0) s_k ch_k)\n\nTwisted pairing: (a,b)_tw = integral_X c(E) a b\nDilaton coordinate under the CG Fock-space isometry: q_CG(z) = sqrt(c(E)) (t(z)-z)\nA_- = sum_(l>0) s_(l-1) ch_l(E) z^(-1)\nA_+ = sum_(m>0,l>=0) s_(2m-1+l) B_(2m)/(2m)! ch_l(E) z^(2m-1)\nHat convention: hat_CG(A) quantizes Omega(Af,f)/2 as in Coates--Givental.\nThe crate's Getzler normal-order map has hat_G(A) = -hat_CG(A).\nU_(c,E) = exp(hat_CG(A_+)) exp(hat_CG(A_-))\n          = exp(-hat_G(A_+)) exp(-hat_G(A_-))\nL_m^(c,E) = U_(c,E) L_m^X U_(c,E)^(-1)\n\nThe QRR genus-one determinant scalar is omitted here because every central scalar cancels in operator conjugation.\n\nFinite exact term table: ch_l through l="@
            + decimal(self.max_chern_character_index as nat)
            + ", positive z powers through "@
            + decimal(self.max_positive_z_power as nat)
            + ".\nThe table bounds an expansion, not the formal identity above.\nSource: Coates--Givental, Quantum Riemann--Roch, Lefschetz and Serre, Theorem 1 (7).\nhttps://arxiv.org/pdf/math/0110142\n"@
    }

    pub fn render_text(&self) -> (out: String)
        ensures
            out@ == self.spec_render_text(),
    {
        let mut out = String::new();
        push_str(&mut out, "QRR-conjugated Virasoro operator\n=================================\nBase theory: ");
        push_string(&mut out, &self.base_theory_text);
        push_str(&mut out, "\nBundle: ");
        push_string(&mut out, &self.bundle_text);
        push_str(&mut out, "\nCharacteristic class: ");
        push_string(&mut out, &self.characteristic_class_text);
        push_str(&mut out, " = exp(sum_(k>=0) s_k ch_k)\n\nTwisted pairing: (a,b)_tw = integral_X c(E) a b\nDilaton coordinate under the CG Fock-space isometry: q_CG(z) = sqrt(c(E)) (t(z)-z)\nA_- = sum_(l>0) s_(l-1) ch_l(E) z^(-1)\nA_+ = sum_(m>0,l>=0) s_(2m-1+l) B_(2m)/(2m)! ch_l(E) z^(2m-1)\nHat convention: hat_CG(A) quantizes Omega(Af,f)/2 as in Coates--Givental.\nThe crate's Getzler normal-order map has hat_G(A) = -hat_CG(A).\nU_(c,E) = exp(hat_CG(A_+)) exp(hat_CG(A_-))\n          = exp(-hat_G(A_+)) exp(-hat_G(A_-))\nL_m^(c,E) = U_(c,E) L_m^X U_(c,E)^(-1)\n\nThe QRR genus-one determinant scalar is omitted here because every central scalar cancels in operator conjugation.\n\nFinite exact term table: ch_l through l=");
        push_usize(&mut out, self.max_chern_character_index);
        push_str(&mut out, ", positive z powers through ");
        push_usize(&mut out, self.max_positive_z_power);
        push_str(&mut out, ".\nThe table bounds an expansion, not the formal identity above.\nSource: Coates--Givental, Quantum Riemann--Roch, Lefschetz and Serre, Theorem 1 (7).\nhttps://arxiv.org/pdf/math/0110142\n");
        out
    }

    /// The rendered TeX of the formula.
    pub closed spec fn spec_render_tex(&self) -> Seq<char> {
        "\\subsection*{QRR-conjugated Virasoro operator}\n\\textbf{Base:} \\("@
            + self.base_theory_tex@
            + "\\), \\textbf{bundle:} \\("@
            + self.bundle_tex@
            + "\\).\\\\\n\\[ \\mathbf c(V)=\\exp\\!\\left(\\sum_{k\\ge0}s_k\\operatorname{ch}_k(V)\\right),\\qquad (a,b)_{\\mathbf c(E)}=\\int_X\\mathbf c(E)ab, \\]\n\\[ q_{\\rm CG}(z)=\\sqrt{\\mathbf c(E)}(t(z)-z). \\]\n\\[ A_- = \\sum_{l>0}s_{l-1}\\operatorname{ch}_l(E)z^{-1}, \\]\n\\[ A_+ = \\sum_{m>0,\\,l\\ge0}s_{2m-1+l}\\frac{B_{2m}}{(2m)!}\\operatorname{ch}_l(E)z^{2m-1}. \\]\n\\[ U_{\\mathbf c,E}=e^{\\widehat A_+^{\\rm CG}}e^{\\widehat A_-^{\\rm CG}}=e^{-\\widehat A_+^{G}}e^{-\\widehat A_-^{G}},\\qquad \\mathbb L_m^{\\mathbf c,E}=U_{\\mathbf c,E}\\mathbb L_m^XU_{\\mathbf c,E}^{-1}. \\]\n\\noindent Here $\\widehat A^{\\rm CG}$ quantizes $\\Omega(Af,f)/2$ as in Coates--Givental, whereas the crate's Getzler normal ordering is $\\widehat A^G=-\\widehat A^{\\rm CG}$. The QRR genus-one determinant scalar is omitted because it cancels from operator conjugation. The finite term table retains $\\operatorname{ch}_l$ through $l="@
            + decimal(self.max_chern_character_index as nat)
            + "$ and positive powers through $z^{"@
            + decimal(self.max_positive_z_power as nat)
            + "}$.\\\\\n\\noindent Source: Coates--Givental, \\emph{Quantum Riemann--Roch, Lefschetz and Serre}, Theorem~1, equation~(7), arXiv:math/0110142.\n"@
    }

    pub fn render_tex(&self) -> (out: String)
        ensures
            out@ == self.spec_render_tex(),
    {
        let mut out = String::new();
        push_str(&mut out, "\\subsection*{QRR-conjugated Virasoro operator}\n\\textbf{Base:} \\(");
        push_string(&mut out, &self.base_theory_tex);
        push_str(&mut out, "\\), \\textbf{bundle:} \\(");
        push_string(&mut out, &self.bundle_tex);
        push_str(&mut out, "\\).\\\\\n\\[ \\mathbf c(V)=\\exp\\!\\left(\\sum_{k\\ge0}s_k\\operatorname{ch}_k(V)\\right),\\qquad (a,b)_{\\mathbf c(E)}=\\int_X\\mathbf c(E)ab, \\]\n\\[ q_{\\rm CG}(z)=\\sqrt{\\mathbf c(E)}(t(z)-z). \\]\n\\[ A_- = \\sum_{l>0}s_{l-1}\\operatorname{ch}_l(E)z^{-1}, \\]\n\\[ A_+ = \\sum_{m>0,\\,l\\ge0}s_{2m-1+l}\\frac{B_{2m}}{(2m)!}\\operatorname{ch}_l(E)z^{2m-1}. \\]\n\\[ U_{\\mathbf c,E}=e^{\\widehat A_+^{\\rm CG}}e^{\\widehat A_-^{\\rm CG}}=e^{-\\widehat A_+^{G}}e^{-\\widehat A_-^{G}},\\qquad \\mathbb L_m^{\\mathbf c,E}=U_{\\mathbf c,E}\\mathbb L_m^XU_{\\mathbf c,E}^{-1}. \\]\n\\noindent Here $\\widehat A^{\\rm CG}$ quantizes $\\Omega(Af,f)/2$ as in Coates--Givental, whereas the crate's Getzler normal ordering is $\\widehat A^G=-\\widehat A^{\\rm CG}$. The QRR genus-one determinant scalar is omitted because it cancels from operator conjugation. The finite term table retains $\\operatorname{ch}_l$ through $l=");
        push_usize(&mut out, self.max_chern_character_index);
        push_str(&mut out, "$ and positive powers through $z^{");
        push_usize(&mut out, self.max_positive_z_power);
        push_str(&mut out, "}$.\\\\\n\\noindent Source: Coates--Givental, \\emph{Quantum Riemann--Roch, Lefschetz and Serre}, Theorem~1, equation~(7), arXiv:math/0110142.\n");
        out
    }
}

} // verus!
