//! Torus-equivariant projective spaces.

use vstd::prelude::*;
use crate::foundation::rational::{rat_of_int, Rational};

verus! {

/// `P^n` with the standard torus action, fixed points `p_0, ..., p_n` and
/// weights `lambda_0, ..., lambda_n`.
#[derive(Debug, Clone, PartialEq, Eq)]
pub struct EquivariantProjectiveSpace {
    pub n: usize,
}

impl EquivariantProjectiveSpace {
    pub fn new(n: usize) -> (space: Self)
        ensures
            space.n == n,
    {
        Self { n }
    }
}

/// The sum of a list of exponents.
pub open spec fn power_sum(powers: Seq<usize>) -> nat
    decreases powers.len(),
{
    if powers.len() == 0 {
        0
    } else {
        power_sum(powers.drop_last()) + powers.last() as nat
    }
}

fn sum_powers(powers: &[usize]) -> (s: usize)
    requires
        power_sum(powers@) <= usize::MAX,
    ensures
        s == power_sum(powers@),
{
    let mut s: usize = 0;
    let mut i: usize = 0;
    while i < powers.len()
        invariant
            i <= powers@.len(),
            s == power_sum(powers@.take(i as int)),
            power_sum(powers@) <= usize::MAX,
        decreases powers@.len() - i,
    {
        proof {
            assert(powers@.take(i + 1).drop_last() =~= powers@.take(i as int));
            lemma_power_sum_prefix(powers@, i + 1);
        }
        s = s + powers[i];
        i = i + 1;
    }
    proof {
        assert(powers@.take(i as int) =~= powers@);
    }
    s
}

proof fn lemma_power_sum_prefix(powers: Seq<usize>, k: int)
    requires
        0 <= k <= powers.len(),
    ensures
        power_sum(powers.take(k)) <= power_sum(powers),
    decreases powers.len() - k,
{
    if k < powers.len() {
        lemma_power_sum_prefix(powers, k + 1);
        assert(powers.take(k + 1).drop_last() =~= powers.take(k));
    } else {
        assert(powers.take(k) =~= powers);
    }
}

impl EquivariantProjectiveSpace {
    /// `int_{P^n} H^{a_1} ... H^{a_k}`: one when the powers fill the
    /// dimension, zero otherwise.
    pub fn classical_integral_of_pure_powers(&self, powers: &[usize]) -> (r: Rational)
        requires
            power_sum(powers@) <= usize::MAX,
        ensures
            r@ == rat_of_int(if power_sum(powers@) == self.n { 1 } else { 0 }),
    {
        if sum_powers(powers) == self.n {
            Rational::one()
        } else {
            Rational::zero()
        }
    }

    /// The genus-zero three-point primary invariant of `P^n` in degree `d`:
    /// one when the powers fill the virtual dimension `n + (n + 1) d`, zero
    /// otherwise.
    pub fn genus_zero_three_point_primary(&self, powers: &[usize; 3], degree: usize) -> (r: Rational)
        requires
            power_sum(powers@) <= usize::MAX,
            self.n < usize::MAX,
            self.n + (self.n + 1) * degree <= usize::MAX,
        ensures
            r@ == rat_of_int(if power_sum(powers@) == self.n + (self.n + 1) * degree { 1 } else { 0 }),
    {
        let all = powers.as_slice();
        let sum = sum_powers(all);
        let dimension = self.n + (self.n + 1) * degree;
        if sum == dimension {
            Rational::one()
        } else {
            Rational::zero()
        }
    }
}

} // verus!
