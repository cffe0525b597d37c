//! Bounds of a Virasoro scan and the count of the descendant profiles it
//! enumerates.

use vstd::prelude::*;
use crate::constraints::virasoro::ast::{
    CorrelatorKeyView, canonical_factors, multiplicity, occurrences, Descendant, TimeMonomial,
};
use crate::constraints::virasoro::ast::VirasoroConstraint;
use crate::constraints::virasoro::evaluator::{
    admissible_resolutions, backend_keys, dependencies, evaluate_constraint_with_bounds, evaluated_report,
    evaluation_outcome, holds_key, key_views, omitted_witness, smallest_keys,
    theory_mismatch_report,
    exact_evaluation, CanonicalCorrelatorEvaluator, CorrelatorEvaluationBounds, ResolvedValue,
};
use crate::constraints::virasoro::generator::{
    generate_constraint_with_term_limit, generated_metadata, generated_terms, generation_succeeds,
    lemma_generation_depends_on_views,
};
use crate::foundation::gw_theory::GwTheory;
use crate::foundation::theory::{BasisId, CurveClass};
use crate::order::Order;
use crate::constraints::virasoro::report::{ResidualReport, ResidualStatus};
use crate::foundation::rational::Rational;
use crate::foundation::error::GwError;
use crate::text::{push_str, push_string, push_usize, string_from};

verus! {

/// Upper bound on the number of markings in one scanned time coefficient.
pub const MAX_VIRASORO_SCAN_MARKINGS: usize = 20;

/// The Cartesian product of operators, genera, curve classes and descendant
/// profiles that a scan enumerates, with its work guards.
#[derive(Debug, Clone, Copy, PartialEq, Eq)]
pub struct VirasoroScanBounds {
    pub operator_min: i32,
    pub operator_max: i32,
    pub genus_max: usize,
    /// Bound in the canonical theory's effective/admissible grading.
    pub degree_grading_max: usize,
    pub markings_max: usize,
    pub descendant_max: usize,
    /// Hard guard against an accidentally enormous Cartesian product.
    pub equation_limit: usize,
    /// Per-equation upper bound checked before labelled partitions or matrix
    /// powers are materialized.
    pub generated_term_limit: usize,
    /// Aggregate number of retained AST terms across the complete scan.
    pub total_generated_term_limit: usize,
    /// Bounds for the unique correlator dependency closure of each equation.
    pub correlator_bounds: CorrelatorEvaluationBounds,
}

impl VirasoroScanBounds {
    /// A small scan: `L_{-1}..L_1`, genus at most one, degree grading at most
    /// one, at most two markings of psi power at most one.
    pub fn small() -> (b: Self)
        ensures
            b.operator_min == -1,
            b.operator_max == 1,
            b.genus_max == 1,
            b.degree_grading_max == 1,
            b.markings_max == 2,
            b.descendant_max == 1,
            b.equation_limit == 10_000,
            b.generated_term_limit == 1_000_000,
            b.total_generated_term_limit == 1_000_000,
            b.correlator_bounds.max_genus == Some(1usize),
            b.correlator_bounds.max_markings == Some(4usize),
            b.correlator_bounds.max_descendant_power == Some(2usize),
            b.correlator_bounds.dependency_limit == 100_000,
    {
        Self {
            operator_min: -1,
            operator_max: 1,
            genus_max: 1,
            degree_grading_max: 1,
            markings_max: 2,
            descendant_max: 1,
            equation_limit: 10_000,
            generated_term_limit: 1_000_000,
            total_generated_term_limit: 1_000_000,
            correlator_bounds: CorrelatorEvaluationBounds {
                max_genus: Some(1),
                max_markings: Some(4),
                max_descendant_power: Some(2),
                dependency_limit: 100_000,
            },
        }
    }
}

/// The binomial coefficient, by Pascal's rule.
pub open spec fn binomial(n: nat, k: nat) -> nat
    decreases n, k,
{
    if k == 0 {
        1
    } else if n == 0 {
        0
    } else {
        binomial((n - 1) as nat, (k - 1) as nat) + binomial((n - 1) as nat, k)
    }
}

/// The number of multisets of size `m` drawn from `atoms` kinds:
/// `binomial(atoms + m - 1, m)`.
pub open spec fn multichoose(atoms: nat, m: nat) -> nat {
    if m == 0 {
        1
    } else {
        binomial((atoms + m - 1) as nat, m)
    }
}

/// The number of descendant profiles with at most `markings` markings:
/// `sum_{m=0}^{markings} multichoose(atoms, m)`.
pub open spec fn profile_total(atoms: nat, markings: nat) -> nat
    decreases markings,
{
    if markings == 0 {
        1
    } else {
        profile_total(atoms, (markings - 1) as nat) + multichoose(atoms, markings)
    }
}

/// Whether every intermediate quantity of the checked profile count fits in
/// `usize`: for each `m` in `1..=markings`, the numerator `atoms + m - 1`,
/// the product `multichoose(atoms, m - 1) * (atoms + m - 1)` and the running
/// total.
pub open spec fn profile_count_fits(atoms: nat, markings: nat) -> bool {
    forall|m: nat| 1 <= m <= markings ==> {
        &&& atoms + m - 1 <= usize::MAX
        &&& #[trigger] multichoose(atoms, (m - 1) as nat) * (atoms + m - 1) <= usize::MAX
        &&& profile_total(atoms, m) <= usize::MAX
    }
}

proof fn lemma_binomial_zero_row(k: nat)
    requires
        k > 0,
    ensures
        binomial(0, k) == 0,
{
}

proof fn lemma_binomial_above(n: nat, k: nat)
    requires
        k > n,
    ensures
        binomial(n, k) == 0,
    decreases n,
{
    if n > 0 {
        lemma_binomial_above((n - 1) as nat, (k - 1) as nat);
        lemma_binomial_above((n - 1) as nat, k);
    }
}

proof fn lemma_binomial_one(n: nat)
    ensures
        binomial(n, 1) == n,
    decreases n,
{
    if n > 0 {
        lemma_binomial_one((n - 1) as nat);
        assert(binomial((n - 1) as nat, 0) == 1);
        assert(binomial(n, 1) == binomial((n - 1) as nat, 0) + binomial((n - 1) as nat, 1));
    }
}

/// The absorption identity `(k + 1) * C(n + 1, k + 1) == (n + 1) * C(n, k)`.
pub proof fn lemma_binomial_absorption(n: nat, k: nat)
    ensures
        (k + 1) * binomial(n + 1, k + 1) == (n + 1) * binomial(n, k),
    decreases n, k,
{
    let lhs = binomial(n + 1, k + 1);
    let rhs = binomial(n, k);
    if k == 0 {
        lemma_binomial_one(n + 1);
        assert(rhs == 1);
        assert(lhs == n + 1);
        assert((k + 1) * lhs == (n + 1) * rhs) by (nonlinear_arith)
            requires
                k == 0,
                rhs == 1,
                lhs == n + 1,
        ;
    } else if n == 0 {
        lemma_binomial_above(1, k + 1);
        lemma_binomial_above(0, k);
        assert((k + 1) * lhs == (n + 1) * rhs) by (nonlinear_arith)
            requires
                lhs == 0,
                rhs == 0,
        ;
    } else {
        let n1 = (n - 1) as nat;
        let k1 = (k - 1) as nat;
        lemma_binomial_absorption(n1, k);
        lemma_binomial_absorption(n1, k1);
        let a = binomial(n, k);
        let b = binomial(n, k + 1);
        let c = binomial(n1, k);
        let d = binomial(n1, k1);
        assert(lhs == a + b);
        assert(a == d + c);
        assert((k + 1) * b == n * c);
        assert(k * a == n * d);
        assert((k + 1) * lhs == (n + 1) * rhs) by (nonlinear_arith)
            requires
                lhs == a + b,
                rhs == a,
                (k + 1) * b == n * c,
                k * a == n * d,
                a == d + c,
        ;
    }
}

/// One step of the running count: `multichoose(a, m - 1) * (a + m - 1)` is
/// exactly divisible by `m`, with quotient `multichoose(a, m)`.
proof fn lemma_multichoose_step(atoms: nat, m: nat)
    requires
        m >= 1,
    ensures
        (multichoose(atoms, (m - 1) as nat) * (atoms + m - 1)) as int / (m as int)
            == multichoose(atoms, m) as int,
{
    let prev = multichoose(atoms, (m - 1) as nat);
    let cur = multichoose(atoms, m);
    if atoms + m - 1 == 0 {
        lemma_binomial_zero_row(m);
        assert(prev * 0 == 0) by (nonlinear_arith);
    } else {
        let n = (atoms + m - 2) as nat;
        let k = (m - 1) as nat;
        lemma_binomial_absorption(n, k);
        if m == 1 {
            assert(prev == 1);
        } else {
            assert(prev == binomial(n, k));
        }
        assert(prev == binomial(n, k));
        assert(cur == binomial(n + 1, k + 1));
        assert(m * cur == prev * (atoms + m - 1)) by (nonlinear_arith)
            requires
                m == k + 1,
                atoms + m - 1 == n + 1,
                cur == binomial(n + 1, k + 1),
                prev == binomial(n, k),
                (k + 1) * binomial(n + 1, k + 1) == (n + 1) * binomial(n, k),
        ;
        assert((prev * (atoms + m - 1)) as int / (m as int) == cur as int) by (nonlinear_arith)
            requires
                m * cur == prev * (atoms + m - 1),
                m >= 1,
        ;
    }
}

proof fn lemma_fits_at(atoms: nat, markings: nat, m: nat)
    requires
        profile_count_fits(atoms, markings),
        1 <= m <= markings,
    ensures
        atoms + m - 1 <= usize::MAX,
        multichoose(atoms, (m - 1) as nat) * (atoms + m - 1) <= usize::MAX,
        profile_total(atoms, m) <= usize::MAX,
{
    assert(multichoose(atoms, (m - 1) as nat) * (atoms + m - 1) <= usize::MAX);
}

/// The number of time-coefficient profiles with at most `markings_max`
/// markings drawn, with repetition, from `atom_count` descendant atoms.
pub fn multiset_profile_count(atom_count: usize, markings_max: usize) -> (result: Result<usize, GwError>)
    ensures
        match result {
            Ok(total) => profile_count_fits(atom_count as nat, markings_max as nat)
                && total == profile_total(atom_count as nat, markings_max as nat),
            Err(e) => {
                &&& !profile_count_fits(atom_count as nat, markings_max as nat)
                &&& e matches GwError::UnsupportedInvariant(message)
                &&& message@ == "profile count overflow"@
            },
        },
{
    let ghost a = atom_count as nat;
    let mut total: usize = 1;
    let mut exact: usize = 1;
    let mut done: usize = 0;
    while done < markings_max
        invariant
            a == atom_count as nat,
            done <= markings_max,
            exact == multichoose(a, done as nat),
            total == profile_total(a, done as nat),
            profile_count_fits(a, done as nat),
        decreases markings_max - done,
    {
        let markings = done + 1;
        let ghost m = markings as nat;
        if atom_count > usize::MAX - done {
            proof {
                if profile_count_fits(a, markings_max as nat) {
                    lemma_fits_at(a, markings_max as nat, m);
                }
            }
            return Err(GwError::UnsupportedInvariant(string_from("profile count overflow")));
        }
        let numerator = atom_count + done;
        let product = match exact.checked_mul(numerator) {
            Some(p) => p,
            None => {
                proof {
                    if profile_count_fits(a, markings_max as nat) {
                        lemma_fits_at(a, markings_max as nat, m);
                    }
                }
                return Err(GwError::UnsupportedInvariant(string_from("profile count overflow")));
            },
        };
        proof {
            lemma_multichoose_step(a, m);
        }
        exact = product / markings;
        total = match total.checked_add(exact) {
            Some(t) => t,
            None => {
                proof {
                    if profile_count_fits(a, markings_max as nat) {
                        lemma_fits_at(a, markings_max as nat, m);
                    }
                }
                return Err(GwError::UnsupportedInvariant(string_from("profile count overflow")));
            },
        };
        proof {
            assert forall|j: nat| 1 <= j <= m implies {
                &&& a + j - 1 <= usize::MAX
                &&& #[trigger] multichoose(a, (j - 1) as nat) * (a + j - 1) <= usize::MAX
                &&& profile_total(a, j) <= usize::MAX
            } by {
                if j < m {
                    lemma_fits_at(a, (m - 1) as nat, j);
                }
            }
        }
        done = markings;
    }
    Ok(total)
}


/// The multisets of `k` atoms drawn from `atoms[start..]`, each written in
/// nondecreasing atom position, in lexicographic order of the positions.
pub open spec fn combinations(atoms: Seq<Descendant>, k: nat, start: int) -> Seq<Seq<Descendant>>
    decreases k, atoms.len() - start,
{
    if k == 0 {
        seq![Seq::<Descendant>::empty()]
    } else if start < 0 || start >= atoms.len() {
        Seq::empty()
    } else {
        combinations(atoms, (k - 1) as nat, start).map_values(|c: Seq<Descendant>| seq![atoms[start]] + c)
            + combinations(atoms, k, start + 1)
    }
}

/// The combinations whose first atom lies in `atoms[start..end]`.
pub open spec fn combinations_between(atoms: Seq<Descendant>, k: nat, start: int, end: int) -> Seq<Seq<Descendant>>
    decreases end - start,
{
    if k == 0 || start < 0 || start >= end || start >= atoms.len() {
        Seq::empty()
    } else {
        combinations(atoms, (k - 1) as nat, start).map_values(|c: Seq<Descendant>| seq![atoms[start]] + c)
            + combinations_between(atoms, k, start + 1, end)
    }
}

/// All descendant profiles with at most `markings` markings: the empty
/// profile, then those of one marking, two markings, and so on.
pub open spec fn profiles_upto(atoms: Seq<Descendant>, markings: nat) -> Seq<Seq<Descendant>>
    decreases markings,
{
    if markings == 0 {
        seq![Seq::<Descendant>::empty()]
    } else {
        profiles_upto(atoms, (markings - 1) as nat) + combinations(atoms, markings, 0)
    }
}

/// A canonical monomial with the multiplicities of the listed descendants.
pub open spec fn profile_matches(m: Seq<(Descendant, usize)>, profile: Seq<Descendant>) -> bool {
    &&& canonical_factors(m)
    &&& forall|d: Descendant| multiplicity(m, d) == occurrences(profile, d)
}

proof fn lemma_combinations_split(atoms: Seq<Descendant>, k: nat, start: int, end: int)
    requires
        k > 0,
        0 <= start <= end <= atoms.len(),
    ensures
        combinations(atoms, k, start) == combinations_between(atoms, k, start, end) + combinations(atoms, k, end),
    decreases end - start,
{
    if start == end {
        assert(combinations_between(atoms, k, start, end) =~= Seq::<Seq<Descendant>>::empty());
        assert(combinations(atoms, k, start) =~= Seq::<Seq<Descendant>>::empty() + combinations(atoms, k, end));
    } else {
        lemma_combinations_split(atoms, k, start + 1, end);
        let head = combinations(atoms, (k - 1) as nat, start).map_values(|c: Seq<Descendant>| seq![atoms[start]] + c);
        assert(combinations(atoms, k, start) == head + combinations(atoms, k, start + 1));
        assert(combinations_between(atoms, k, start, end) == head + combinations_between(atoms, k, start + 1, end));
        assert(combinations(atoms, k, start) =~= combinations_between(atoms, k, start, end) + combinations(atoms, k, end));
    }
}

proof fn lemma_multichoose_pascal(a: nat, k: nat)
    requires
        a >= 1,
        k >= 1,
    ensures
        multichoose(a, k) == multichoose(a, (k - 1) as nat) + multichoose((a - 1) as nat, k),
{
    assert(binomial((a + k - 1) as nat, k) == binomial((a + k - 2) as nat, (k - 1) as nat) + binomial((a + k - 2) as nat, k));
    if k == 1 {
        assert(binomial((a - 1) as nat, 0) == 1);
    }
}

proof fn lemma_multichoose_no_atoms(k: nat)
    requires
        k >= 1,
    ensures
        multichoose(0, k) == 0,
{
    lemma_binomial_above((k - 1) as nat, k);
}

proof fn lemma_profile_total_positive(atoms: nat, markings: nat)
    ensures
        profile_total(atoms, markings) >= 1,
    decreases markings,
{
    if markings > 0 {
        lemma_profile_total_positive(atoms, (markings - 1) as nat);
    }
}

/// There are `multichoose(n - start, k)` combinations of `k` atoms drawn
/// from the last `n - start` of `n` atoms.
pub proof fn lemma_combinations_count(atoms: Seq<Descendant>, k: nat, start: int)
    requires
        0 <= start <= atoms.len(),
    ensures
        combinations(atoms, k, start).len() == multichoose((atoms.len() - start) as nat, k),
    decreases k, atoms.len() - start,
{
    if k == 0 {
    } else if start == atoms.len() {
        lemma_multichoose_no_atoms(k);
    } else {
        lemma_combinations_count(atoms, (k - 1) as nat, start);
        lemma_combinations_count(atoms, k, start + 1);
        lemma_multichoose_pascal((atoms.len() - start) as nat, k);
    }
}

/// The profile counter predicts exactly the number of descendant profiles
/// that the enumeration produces.
pub proof fn lemma_profile_count_is_exact(atoms: Seq<Descendant>, markings: nat)
    ensures
        profiles_upto(atoms, markings).len() == profile_total(atoms.len(), markings),
    decreases markings,
{
    if markings > 0 {
        lemma_profile_count_is_exact(atoms, (markings - 1) as nat);
        lemma_combinations_count(atoms, markings, 0);
    }
}


/// A profile generation that overflows its checked count: some nonempty
/// family of profiles with at most `markings` markings ends beyond
/// `expected`.
pub open spec fn profiles_overflow(atoms: Seq<Descendant>, markings: nat, expected: nat) -> bool {
    exists|j: nat| 1 <= j <= markings && #[trigger] combinations(atoms, j, 0).len() > 0
        && profiles_upto(atoms, j).len() > expected
}

/// Append the monomials `current * c` for every combination `c` of
/// `remaining` atoms from `atoms[minimum..]`, failing at the first push
/// beyond `expected_count`.
fn collect_profiles(
    atoms: &Vec<Descendant>,
    remaining: usize,
    minimum: usize,
    current: &mut Vec<Descendant>,
    out: &mut Vec<TimeMonomial>,
    expected_count: usize,
) -> (r: Result<(), GwError>)
    requires
        minimum <= atoms@.len(),
    ensures
        final(current)@ == old(current)@,
        r is Err <==> (combinations(atoms@, remaining as nat, minimum as int).len() > 0
            && old(out)@.len() + combinations(atoms@, remaining as nat, minimum as int).len() > expected_count),
        r matches Err(e) ==> (e matches GwError::ValidationFailure(m)
            && m@ == "descendant-profile generation exceeded its checked count"@),
        r is Ok ==> {
            let cs = combinations(atoms@, remaining as nat, minimum as int);
            &&& final(out)@.len() == old(out)@.len() + cs.len()
            &&& forall|j: int| 0 <= j < old(out)@.len() ==> final(out)@[j] == old(out)@[j]
            &&& forall|j: int| 0 <= j < cs.len() ==> profile_matches(
                (#[trigger] final(out)@[old(out)@.len() + j])@, old(current)@ + cs[j])
        },
    decreases remaining,
{
    if remaining == 0 {
        if out.len() >= expected_count {
            return Err(GwError::ValidationFailure(string_from("descendant-profile generation exceeded its checked count")));
        }
        let mut copy: Vec<Descendant> = Vec::new();
        let mut i: usize = 0;
        while i < current.len()
            invariant
                i <= current@.len(),
                copy@ == current@.take(i as int),
            decreases current@.len() - i,
        {
            copy.push(current[i]);
            proof {
                assert(current@.take(i + 1) =~= current@.take(i as int).push(current@[i as int]));
            }
            i = i + 1;
        }
        proof {
            assert(current@.take(current@.len() as int) =~= current@);
            assert(current@ + seq![Seq::<Descendant>::empty()][0] =~= current@);
        }
        out.push(TimeMonomial::from_descendants(copy));
        return Ok(());
    }
    let ghost start_out = out@;
    let ghost start_current = current@;
    let ghost k = remaining as nat;
    let mut index: usize = minimum;
    while index < atoms.len()
        invariant
            minimum <= index <= atoms@.len(),
            remaining > 0,
            k == remaining as nat,
            start_current == old(current)@,
            start_out == old(out)@,
            current@ == start_current,
            out@.len() == start_out.len() + combinations_between(atoms@, k, minimum as int, index as int).len(),
            combinations_between(atoms@, k, minimum as int, index as int).len() > 0 ==> out@.len() <= expected_count,
            forall|j: int| 0 <= j < start_out.len() ==> out@[j] == start_out[j],
            forall|j: int| 0 <= j < combinations_between(atoms@, k, minimum as int, index as int).len() ==> profile_matches(
                (#[trigger] out@[start_out.len() + j])@, start_current + combinations_between(atoms@, k, minimum as int, index as int)[j]),
        decreases atoms@.len() - index,
    {
        let ghost before = out@;
        let ghost done = combinations_between(atoms@, k, minimum as int, index as int);
        let ghost sub = combinations(atoms@, (k - 1) as nat, index as int);
        let ghost head = sub.map_values(|c: Seq<Descendant>| seq![atoms@[index as int]] + c);
        let ghost total = combinations(atoms@, k, minimum as int);
        proof {
            lemma_combinations_split(atoms@, k, minimum as int, index as int);
            lemma_between_step(atoms@, k, minimum as int, index as int);
            assert(combinations(atoms@, k, index as int) == head + combinations(atoms@, k, index + 1));
            assert(head.len() == sub.len());
            assert(total.len() == done.len() + head.len() + combinations(atoms@, k, index + 1).len());
        }
        current.push(atoms[index]);
        let result = collect_profiles(atoms, remaining - 1, index, current, out, expected_count);
        let _ = current.pop();
        proof {
            assert(current@ =~= start_current);
        }
        match result {
            Err(e) => {
                return Err(e);
            },
            Ok(()) => {},
        }
        proof {
            let now = combinations_between(atoms@, k, minimum as int, index + 1);
            assert(now == done + head);
            assert forall|j: int| 0 <= j < start_out.len() implies out@[j] == start_out[j] by {
                assert(out@[j] == before[j]);
            }
            assert forall|j: int| 0 <= j < now.len() implies profile_matches(
                (#[trigger] out@[start_out.len() + j])@, start_current + now[j]) by {
                if j < done.len() {
                    assert(out@[start_out.len() + j] == before[start_out.len() + j]);
                    assert(now[j] == done[j]);
                } else {
                    let jj = j - done.len();
                    assert(now[j] == head[jj]);
                    assert(head[jj] == seq![atoms@[index as int]] + sub[jj]);
                    assert(start_current.push(atoms@[index as int]) + sub[jj] =~= start_current + head[jj]);
                    assert(out@[start_out.len() + j] == out@[before.len() + jj]);
                }
            }
        }
        index = index + 1;
    }
    proof {
        lemma_combinations_split(atoms@, k, minimum as int, atoms@.len() as int);
        assert(combinations(atoms@, k, atoms@.len() as int) =~= Seq::<Seq<Descendant>>::empty());
        assert(combinations(atoms@, k, minimum as int) =~= combinations_between(atoms@, k, minimum as int, atoms@.len() as int));
    }
    Ok(())
}

proof fn lemma_between_step(atoms: Seq<Descendant>, k: nat, start: int, end: int)
    requires
        k > 0,
        0 <= start <= end < atoms.len(),
    ensures
        combinations_between(atoms, k, start, end + 1) == combinations_between(atoms, k, start, end)
            + combinations(atoms, (k - 1) as nat, end).map_values(|c: Seq<Descendant>| seq![atoms[end]] + c),
    decreases end - start,
{
    let head = combinations(atoms, (k - 1) as nat, end).map_values(|c: Seq<Descendant>| seq![atoms[end]] + c);
    if start == end {
        assert(combinations_between(atoms, k, end + 1, end + 1) =~= Seq::<Seq<Descendant>>::empty());
        assert(combinations_between(atoms, k, start, end) =~= Seq::<Seq<Descendant>>::empty());
        assert(combinations_between(atoms, k, start, end + 1) =~= combinations_between(atoms, k, start, end) + head);
    } else {
        lemma_between_step(atoms, k, start + 1, end);
        let first = combinations(atoms, (k - 1) as nat, start).map_values(|c: Seq<Descendant>| seq![atoms[start]] + c);
        assert(combinations_between(atoms, k, start, end + 1) == first + combinations_between(atoms, k, start + 1, end + 1));
        assert(combinations_between(atoms, k, start, end) == first + combinations_between(atoms, k, start + 1, end));
        assert(combinations_between(atoms, k, start, end + 1) =~= combinations_between(atoms, k, start, end) + head);
    }
}

/// Every time-coefficient profile with at most `markings_max` markings drawn
/// with repetition from `atoms`, in the order of `profiles_upto`; fails when
/// the enumeration goes beyond `expected_count`.
pub fn descendant_profiles(
    atoms: &Vec<Descendant>,
    markings_max: usize,
    expected_count: usize,
) -> (r: Result<Vec<TimeMonomial>, GwError>)
    ensures
        r is Err <==> profiles_overflow(atoms@, markings_max as nat, expected_count as nat),
        r matches Err(e) ==> (e matches GwError::ValidationFailure(m)
            && m@ == "descendant-profile generation exceeded its checked count"@),
        r matches Ok(out) ==> {
            let all = profiles_upto(atoms@, markings_max as nat);
            &&& out@.len() == all.len()
            &&& forall|j: int| 0 <= j < all.len() ==> profile_matches((#[trigger] out@[j])@, all[j])
        },
{
    let mut out: Vec<TimeMonomial> = Vec::new();
    let one = TimeMonomial::one();
    proof {
        assert forall|d: Descendant| multiplicity(one@, d) == occurrences(Seq::<Descendant>::empty(), d) by {}
    }
    out.push(one);
    let mut markings: usize = 0;
    while markings < markings_max
        invariant
            markings <= markings_max,
            out@.len() == profiles_upto(atoms@, markings as nat).len(),
            forall|j: int| 0 <= j < out@.len() ==> profile_matches((#[trigger] out@[j])@, profiles_upto(atoms@, markings as nat)[j]),
            !profiles_overflow(atoms@, markings as nat, expected_count as nat),
        decreases markings_max - markings,
    {
        let next = markings + 1;
        let mut current: Vec<Descendant> = Vec::new();
        let ghost before = out@;
        let ghost cs = combinations(atoms@, next as nat, 0);
        let result = collect_profiles(atoms, next, 0, &mut current, &mut out, expected_count);
        proof {
            assert(profiles_upto(atoms@, next as nat) == profiles_upto(atoms@, markings as nat) + cs);
        }
        match result {
            Err(e) => {
                proof {
                    assert(combinations(atoms@, next as nat, 0).len() > 0 && profiles_upto(atoms@, next as nat).len() > expected_count);
                    assert(profiles_overflow(atoms@, markings_max as nat, expected_count as nat));
                }
                return Err(e);
            },
            Ok(()) => {},
        }
        proof {
            let all = profiles_upto(atoms@, next as nat);
            assert forall|j: int| 0 <= j < out@.len() implies profile_matches((#[trigger] out@[j])@, all[j]) by {
                if j < before.len() {
                    assert(out@[j] == before[j]);
                } else {
                    let jj = j - before.len();
                    assert(Seq::<Descendant>::empty() + cs[jj] =~= cs[jj]);
                    assert(out@[j] == out@[before.len() + jj]);
                }
            }
            assert forall|j: nat| 1 <= j <= next && #[trigger] combinations(atoms@, j, 0).len() > 0
                implies !(profiles_upto(atoms@, j).len() > expected_count) by {
                if j <= markings {
                }
            }
        }
        markings = next;
    }
    proof {
        if profiles_overflow(atoms@, markings_max as nat, expected_count as nat) {
            assert(false);
        }
    }
    Ok(out)
}


/// One scanned equation with its evaluation report.
#[derive(Debug, Clone, PartialEq, Eq)]
pub struct VirasoroScanEntry {
    pub constraint: VirasoroConstraint<Rational>,
    pub report: ResidualReport<Rational>,
}

/// Total number of terms over the entries.
pub open spec fn entry_terms_total(entries: Seq<VirasoroScanEntry>) -> nat
    decreases entries.len(),
{
    if entries.len() == 0 {
        0
    } else {
        entry_terms_total(entries.drop_last()) + entries.last().constraint.terms@.len()
    }
}

/// Number of entries satisfying `p`.
pub open spec fn count_entries(entries: Seq<VirasoroScanEntry>, p: spec_fn(VirasoroScanEntry) -> bool) -> nat
    decreases entries.len(),
{
    if entries.len() == 0 {
        0
    } else {
        count_entries(entries.drop_last(), p) + (if p(entries.last()) { 1nat } else { 0nat })
    }
}

/// An equation without terms after aggregation.
pub open spec fn is_vacuous(e: VirasoroScanEntry) -> bool {
    e.constraint.terms@.len() == 0
}

/// A non-vacuous equation decided without any backend value.
pub open spec fn is_structural_only(e: VirasoroScanEntry) -> bool {
    &&& e.constraint.terms@.len() > 0
    &&& e.report.spec_backend_correlators().len() == 0
    &&& e.report.spec_status() != ResidualStatus::Incomplete
}

/// An equation that used at least one backend value.
pub open spec fn is_backend_exercised(e: VirasoroScanEntry) -> bool {
    e.report.spec_backend_correlators().len() > 0
}

/// A non-vacuous, undecided equation without any backend value.
pub open spec fn is_unresolved_only(e: VirasoroScanEntry) -> bool {
    &&& e.constraint.terms@.len() > 0
    &&& e.report.spec_backend_correlators().len() == 0
    &&& e.report.spec_status() == ResidualStatus::Incomplete
}

pub open spec fn has_status(e: VirasoroScanEntry, status: ResidualStatus) -> bool {
    e.report.spec_status() == status
}

/// A vacuous equation never has a backend value.
pub open spec fn vacuous_entries_unevaluated(entries: Seq<VirasoroScanEntry>) -> bool {
    forall|i: int| 0 <= i < entries.len() && (#[trigger] entries[i]).constraint.terms@.len() == 0
        ==> entries[i].report.spec_backend_correlators().len() == 0
}

/// The equations of a scan with their reports, in scan order.
#[derive(Debug, PartialEq, Eq)]
pub struct VirasoroScanReport {
    bounds: VirasoroScanBounds,
    entries: Vec<VirasoroScanEntry>,
}

impl VirasoroScanReport {
    #[verifier::type_invariant]
    spec fn well_formed(self) -> bool {
        &&& entry_terms_total(self.entries@) <= usize::MAX
        &&& vacuous_entries_unevaluated(self.entries@)
    }

    pub closed spec fn spec_bounds(&self) -> VirasoroScanBounds {
        self.bounds
    }

    pub closed spec fn spec_entries(&self) -> Seq<VirasoroScanEntry> {
        self.entries@
    }

    /// A scan succeeds when it has at least one equation and every equation
    /// is verified zero; an empty scan is never a success.
    pub fn is_success(&self) -> (b: bool)
        ensures
            b == (self.spec_entries().len() > 0 && forall|i: int| 0 <= i < self.spec_entries().len()
                ==> #[trigger] self.spec_entries()[i].report.spec_status() == ResidualStatus::VerifiedZero),
    {
        if self.entries.len() == 0 {
            return false;
        }
        let mut i: usize = 0;
        while i < self.entries.len()
            invariant
                i <= self.entries@.len(),
                forall|j: int| 0 <= j < i ==> #[trigger] self.entries@[j].report.spec_status() == ResidualStatus::VerifiedZero,
            decreases self.entries@.len() - i,
        {
            match self.entries[i].report.status() {
                ResidualStatus::VerifiedZero => {},
                _ => {
                    return false;
                },
            }
            i = i + 1;
        }
        true
    }

    pub fn total(&self) -> (n: usize)
        ensures
            n == self.spec_entries().len(),
    {
        self.entries.len()
    }

    /// Total number of retained terms over all equations.
    pub fn generated_term_count(&self) -> (n: usize)
        ensures
            n == entry_terms_total(self.spec_entries()),
    {
        proof {
            use_type_invariant(self);
        }
        let mut n: usize = 0;
        let mut i: usize = 0;
        while i < self.entries.len()
            invariant
                i <= self.entries@.len(),
                entry_terms_total(self.entries@) <= usize::MAX,
                n == entry_terms_total(self.entries@.take(i as int)),
            decreases self.entries@.len() - i,
        {
            proof {
                assert(self.entries@.take(i + 1).drop_last() =~= self.entries@.take(i as int));
                lemma_entry_terms_prefix(self.entries@, i + 1);
            }
            n = n + self.entries[i].constraint.terms.len();
            i = i + 1;
        }
        proof {
            assert(self.entries@.take(self.entries@.len() as int) =~= self.entries@);
        }
        n
    }

    pub fn bounds(&self) -> (b: &VirasoroScanBounds)
        ensures
            *b == self.spec_bounds(),
    {
        &self.bounds
    }

    pub fn entries(&self) -> (out: &[VirasoroScanEntry])
        ensures
            out@ == self.spec_entries(),
            vacuous_entries_unevaluated(out@),
            entry_terms_total(out@) <= usize::MAX,
    {
        proof {
            use_type_invariant(self);
        }
        self.entries.as_slice()
    }

    pub fn verified_zero_count(&self) -> (n: usize)
        ensures
            n == count_entries(self.spec_entries(), |e: VirasoroScanEntry| has_status(e, ResidualStatus::VerifiedZero)),
    {
        self.status_count(ResidualStatus::VerifiedZero)
    }

    pub fn nonzero_count(&self) -> (n: usize)
        ensures
            n == count_entries(self.spec_entries(), |e: VirasoroScanEntry| has_status(e, ResidualStatus::Nonzero)),
    {
        self.status_count(ResidualStatus::Nonzero)
    }

    pub fn incomplete_count(&self) -> (n: usize)
        ensures
            n == count_entries(self.spec_entries(), |e: VirasoroScanEntry| has_status(e, ResidualStatus::Incomplete)),
    {
        self.status_count(ResidualStatus::Incomplete)
    }

    /// Equations with no terms after exact aggregation.
    pub fn vacuous_count(&self) -> (n: usize)
        ensures
            n == count_entries(self.spec_entries(), |e: VirasoroScanEntry| is_vacuous(e)),
    {
        let mut n: usize = 0;
        let mut i: usize = 0;
        while i < self.entries.len()
            invariant
                i <= self.entries@.len(),
                n == count_entries(self.entries@.take(i as int), |e: VirasoroScanEntry| is_vacuous(e)),
                n <= i,
            decreases self.entries@.len() - i,
        {
            proof {
                assert(self.entries@.take(i + 1).drop_last() =~= self.entries@.take(i as int));
                assert(self.entries@.take(i + 1).last() == self.entries@[i as int]);
            }
            if self.entries[i].constraint.terms.len() == 0 {
                n = n + 1;
            }
            i = i + 1;
        }
        proof {
            assert(self.entries@.take(self.entries@.len() as int) =~= self.entries@);
        }
        n
    }

    /// Non-vacuous equations closed without a backend call.
    pub fn structural_only_count(&self) -> (n: usize)
        ensures
            n == count_entries(self.spec_entries(), |e: VirasoroScanEntry| is_structural_only(e)),
    {
        let mut n: usize = 0;
        let mut i: usize = 0;
        while i < self.entries.len()
            invariant
                i <= self.entries@.len(),
                n == count_entries(self.entries@.take(i as int), |e: VirasoroScanEntry| is_structural_only(e)),
                n <= i,
            decreases self.entries@.len() - i,
        {
            proof {
                assert(self.entries@.take(i + 1).drop_last() =~= self.entries@.take(i as int));
                assert(self.entries@.take(i + 1).last() == self.entries@[i as int]);
            }
            let entry = &self.entries[i];
            let decided = match entry.report.status() {
                ResidualStatus::Incomplete => false,
                _ => true,
            };
            if entry.constraint.terms.len() > 0 && entry.report.backend_correlator_count() == 0 && decided {
                n = n + 1;
            }
            i = i + 1;
        }
        proof {
            assert(self.entries@.take(self.entries@.len() as int) =~= self.entries@);
        }
        n
    }

    /// Equations that used at least one backend value.
    pub fn backend_exercised_count(&self) -> (n: usize)
        ensures
            n == count_entries(self.spec_entries(), |e: VirasoroScanEntry| is_backend_exercised(e)),
    {
        let mut n: usize = 0;
        let mut i: usize = 0;
        while i < self.entries.len()
            invariant
                i <= self.entries@.len(),
                n == count_entries(self.entries@.take(i as int), |e: VirasoroScanEntry| is_backend_exercised(e)),
                n <= i,
            decreases self.entries@.len() - i,
        {
            proof {
                assert(self.entries@.take(i + 1).drop_last() =~= self.entries@.take(i as int));
                assert(self.entries@.take(i + 1).last() == self.entries@[i as int]);
            }
            if self.entries[i].report.backend_correlator_count() > 0 {
                n = n + 1;
            }
            i = i + 1;
        }
        proof {
            assert(self.entries@.take(self.entries@.len() as int) =~= self.entries@);
        }
        n
    }

    /// Non-vacuous equations with missing dependencies and no backend value.
    pub fn unresolved_only_count(&self) -> (n: usize)
        ensures
            n == count_entries(self.spec_entries(), |e: VirasoroScanEntry| is_unresolved_only(e)),
    {
        let mut n: usize = 0;
        let mut i: usize = 0;
        while i < self.entries.len()
            invariant
                i <= self.entries@.len(),
                n == count_entries(self.entries@.take(i as int), |e: VirasoroScanEntry| is_unresolved_only(e)),
                n <= i,
            decreases self.entries@.len() - i,
        {
            proof {
                assert(self.entries@.take(i + 1).drop_last() =~= self.entries@.take(i as int));
                assert(self.entries@.take(i + 1).last() == self.entries@[i as int]);
            }
            let entry = &self.entries[i];
            let undecided = match entry.report.status() {
                ResidualStatus::Incomplete => true,
                _ => false,
            };
            if entry.constraint.terms.len() > 0 && entry.report.backend_correlator_count() == 0 && undecided {
                n = n + 1;
            }
            i = i + 1;
        }
        proof {
            assert(self.entries@.take(self.entries@.len() as int) =~= self.entries@);
        }
        n
    }

    fn status_count(&self, status: ResidualStatus) -> (n: usize)
        ensures
            n == count_entries(self.spec_entries(), |e: VirasoroScanEntry| has_status(e, status)),
    {
        let mut n: usize = 0;
        let mut i: usize = 0;
        while i < self.entries.len()
            invariant
                i <= self.entries@.len(),
                n == count_entries(self.entries@.take(i as int), |e: VirasoroScanEntry| has_status(e, status)),
                n <= i,
            decreases self.entries@.len() - i,
        {
            proof {
                assert(self.entries@.take(i + 1).drop_last() =~= self.entries@.take(i as int));
                assert(self.entries@.take(i + 1).last() == self.entries@[i as int]);
            }
            if self.entries[i].report.status() == status {
                n = n + 1;
            }
            i = i + 1;
        }
        proof {
            assert(self.entries@.take(self.entries@.len() as int) =~= self.entries@);
        }
        n
    }
}

proof fn lemma_entry_terms_prefix(entries: Seq<VirasoroScanEntry>, i: int)
    requires
        0 <= i <= entries.len(),
    ensures
        entry_terms_total(entries.take(i)) <= entry_terms_total(entries),
    decreases entries.len() - i,
{
    if i < entries.len() {
        lemma_entry_terms_prefix(entries, i + 1);
        assert(entries.take(i + 1).drop_last() =~= entries.take(i));
    } else {
        assert(entries.take(i) =~= entries);
    }
}

/// Every equation of a scan report is exactly one of: vacuous, closed
/// structurally, backend-exercised, or unresolved without backend values.
pub proof fn lemma_scan_counts_partition(entries: Seq<VirasoroScanEntry>)
    requires
        vacuous_entries_unevaluated(entries),
    ensures
        count_entries(entries, |e: VirasoroScanEntry| is_vacuous(e))
            + count_entries(entries, |e: VirasoroScanEntry| is_structural_only(e))
            + count_entries(entries, |e: VirasoroScanEntry| is_backend_exercised(e))
            + count_entries(entries, |e: VirasoroScanEntry| is_unresolved_only(e)) == entries.len(),
    decreases entries.len(),
{
    if entries.len() > 0 {
        let prefix = entries.drop_last();
        assert forall|i: int| 0 <= i < prefix.len() && (#[trigger] prefix[i]).constraint.terms@.len() == 0
            implies prefix[i].report.spec_backend_correlators().len() == 0 by {
            assert(prefix[i] == entries[i]);
        }
        lemma_scan_counts_partition(prefix);
        assert(entries.last() == entries[entries.len() - 1]);
    }
}


/// A monomial of a scanned profile: at most `markings_max` descendants,
/// each of psi power at most `descendant_max`.
pub open spec fn scanned_profile(m: Seq<(Descendant, usize)>, bounds: VirasoroScanBounds) -> bool {
    exists|p: Seq<Descendant>| {
        &&& #[trigger] profile_matches(m, p)
        &&& p.len() <= bounds.markings_max
        &&& forall|j: int| 0 <= j < p.len() ==> #[trigger] p[j].psi_power <= bounds.descendant_max
    }
}

/// One scanned equation: the generated coefficient equation of operator
/// `op`, genus `genus` and a scanned profile, with its evaluation report.
pub open spec fn scan_entry_ok(e: VirasoroScanEntry, bounds: VirasoroScanBounds, op: int, genus: int) -> bool {
    let c = e.constraint;
    &&& c.operator.index == op
    &&& c.sector.genus == genus
    &&& generated_metadata(c, c.operator.index, c.sector.genus, c.sector.degree, c.time_coefficient)
    &&& scanned_profile(c.time_coefficient@, bounds)
    &&& evaluation_outcome(e.report, c.terms@, bounds.correlator_bounds)
}

/// Some scanned equation has operator `op` and genus `g`.
pub open spec fn scanned_sector(e: Seq<VirasoroScanEntry>, op: int, g: int) -> bool {
    exists|i: int| 0 <= i < e.len() && (#[trigger] e[i]).constraint.operator.index == op
        && e[i].constraint.sector.genus == g
}

/// A successful scan: at least one and at most `equation_limit` equations,
/// the aggregate term budget respected, every equation generated and
/// evaluated for an operator and genus in range and a scanned profile, in
/// nondecreasing (operator, genus) order, and every operator and genus in
/// range scanned.
pub open spec fn scan_report_ok(report: VirasoroScanReport, bounds: VirasoroScanBounds) -> bool {
    let e = report.spec_entries();
    &&& report.spec_bounds() == bounds
    &&& 0 < e.len() <= bounds.equation_limit
    &&& entry_terms_total(e) <= bounds.total_generated_term_limit
    &&& forall|i: int| 0 <= i < e.len() ==> {
        &&& bounds.operator_min <= (#[trigger] e[i]).constraint.operator.index <= bounds.operator_max
        &&& e[i].constraint.sector.genus <= bounds.genus_max
        &&& scan_entry_ok(e[i], bounds, e[i].constraint.operator.index as int, e[i].constraint.sector.genus as int)
    }
    &&& forall|i: int, j: int| 0 <= i < j < e.len() ==> {
        ||| (#[trigger] e[i]).constraint.operator.index < (#[trigger] e[j]).constraint.operator.index
        ||| (e[i].constraint.operator.index == e[j].constraint.operator.index
            && e[i].constraint.sector.genus <= e[j].constraint.sector.genus)
    }
    &&& forall|op: int, g: int| bounds.operator_min <= op <= bounds.operator_max && 0 <= g <= bounds.genus_max
        ==> #[trigger] scanned_sector(e, op, g)
}

/// A report of an equation without terms has no backend value.
proof fn lemma_vacuous_outcome(r: ResidualReport<Rational>, terms: Seq<crate::constraints::virasoro::ast::ConstraintTerm<Rational>>, bounds: CorrelatorEvaluationBounds)
    requires
        evaluation_outcome(r, terms, bounds),
        terms.len() == 0,
    ensures
        r.spec_backend_correlators().len() == 0,
{
    let (keys, w) = choose|keys: Seq<CorrelatorKeyView>, w: Option<CorrelatorKeyView>| {
        &&& smallest_keys(keys, dependencies(terms), bounds.dependency_limit as nat)
        &&& omitted_witness(keys, dependencies(terms), w)
        &&& {
            ||| theory_mismatch_report(r, terms.len(), keys, w, bounds.dependency_limit as nat)
            ||| exists|res: Seq<ResolvedValue>| #[trigger] admissible_resolutions(res, keys, bounds)
                && evaluated_report(r, terms, keys, res, w, bounds.dependency_limit as nat)
        }
    };
    assert(dependencies(terms) =~= Seq::<CorrelatorKeyView>::empty());
    if keys.len() > 0 {
        assert(holds_key(dependencies(terms), keys[0]));
        reveal(holds_key);
        assert(false);
    }
    if !theory_mismatch_report(r, terms.len(), keys, w, bounds.dependency_limit as nat) {
        let res = choose|res: Seq<ResolvedValue>| #[trigger] admissible_resolutions(res, keys, bounds)
            && evaluated_report(r, terms, keys, res, w, bounds.dependency_limit as nat);
        assert(backend_keys(keys, res, 0) =~= Seq::<CorrelatorKeyView>::empty());
        assert(key_views(r.spec_backend_correlators()).len() == r.spec_backend_correlators().len());
    }
}

proof fn lemma_combination_members(atoms: Seq<Descendant>, k: nat, start: int, max_psi: usize, i: int)
    requires
        forall|j: int| 0 <= j < atoms.len() ==> #[trigger] atoms[j].psi_power <= max_psi,
        0 <= i < combinations(atoms, k, start).len(),
    ensures
        combinations(atoms, k, start)[i].len() == k,
        forall|j: int| 0 <= j < k ==> #[trigger] combinations(atoms, k, start)[i][j].psi_power <= max_psi,
    decreases k, atoms.len() - start,
{
    if k > 0 && 0 <= start < atoms.len() {
        let sub = combinations(atoms, (k - 1) as nat, start);
        let head = sub.map_values(|c: Seq<Descendant>| seq![atoms[start]] + c);
        let rest = combinations(atoms, k, start + 1);
        assert(combinations(atoms, k, start) == head + rest);
        if i < head.len() {
            lemma_combination_members(atoms, (k - 1) as nat, start, max_psi, i);
            let c = combinations(atoms, k, start)[i];
            assert(c == seq![atoms[start]] + sub[i]);
            assert forall|j: int| 0 <= j < k implies #[trigger] c[j].psi_power <= max_psi by {
                if j > 0 {
                    assert(c[j] == sub[i][j - 1]);
                }
            }
        } else {
            lemma_combination_members(atoms, k, start + 1, max_psi, i - head.len());
            assert(combinations(atoms, k, start)[i] == rest[i - head.len()]);
        }
    }
}

proof fn lemma_profile_members(atoms: Seq<Descendant>, markings: nat, max_psi: usize, i: int)
    requires
        forall|j: int| 0 <= j < atoms.len() ==> #[trigger] atoms[j].psi_power <= max_psi,
        0 <= i < profiles_upto(atoms, markings).len(),
    ensures
        profiles_upto(atoms, markings)[i].len() <= markings,
        forall|j: int| 0 <= j < profiles_upto(atoms, markings)[i].len() ==> #[trigger] profiles_upto(atoms, markings)[i][j].psi_power <= max_psi,
    decreases markings,
{
    if markings > 0 {
        let prev = profiles_upto(atoms, (markings - 1) as nat);
        let cs = combinations(atoms, markings, 0);
        assert(profiles_upto(atoms, markings) == prev + cs);
        if i < prev.len() {
            lemma_profile_members(atoms, (markings - 1) as nat, max_psi, i);
            assert(profiles_upto(atoms, markings)[i] == prev[i]);
        } else {
            lemma_combination_members(atoms, markings, 0, max_psi, i - prev.len());
            assert(profiles_upto(atoms, markings)[i] == cs[i - prev.len()]);
        }
    }
}

/// A scanned equation is generated from the evaluator's theory -- its terms
/// those of the expansion -- and evaluated exactly against the evaluator.
pub open spec fn scan_entry_exact<E: CanonicalCorrelatorEvaluator>(e: VirasoroScanEntry, evaluator: E, bounds: VirasoroScanBounds) -> bool {
    let c = e.constraint;
    &&& generated_terms(evaluator.spec_theory(), c.terms@, c.operator.index, c.sector.genus, c.sector.degree, c.time_coefficient)
    &&& exact_evaluation(e.report, evaluator, c.terms@, bounds.correlator_bounds)
}

/// The entry in row `row` and column `col` of a block of width `width`
/// starting at `start`.
pub open spec fn grid_entry(e: Seq<VirasoroScanEntry>, start: int, width: int, row: int, col: int) -> VirasoroScanEntry {
    e[start + row * width + col]
}

/// The equation of a curve class and a profile in a sector's block: that
/// class, that time coefficient, generated and evaluated exactly.
pub open spec fn sector_cell<E: CanonicalCorrelatorEvaluator>(
    x: VirasoroScanEntry,
    evaluator: E,
    bounds: VirasoroScanBounds,
    curve: CurveClass,
    profile: TimeMonomial,
) -> bool {
    &&& x.constraint.sector.degree@ == curve@
    &&& x.constraint.time_coefficient@ == profile@
    &&& scan_entry_exact(x, evaluator, bounds)
}

/// The scan's aggregate term budget refused the equations: the retained
/// terms exceed it, or their count does not fit in `usize`.
pub open spec fn aggregate_budget_error(e: GwError, bounds: VirasoroScanBounds) -> bool {
    ||| (e matches GwError::ResourceLimit { operation, requested, limit } && operation@ == "retained Virasoro scan terms"@
        && limit == bounds.total_generated_term_limit && requested > limit)
    ||| (e matches GwError::UnsupportedInvariant(m) && m@ == "aggregate Virasoro scan term count overflow"@)
}

/// The equation of an operator, a genus, a class and a time coefficient
/// cannot be generated within the per-equation term limit.
pub open spec fn cell_generation_fails<T: GwTheory>(
    theory: T,
    bounds: VirasoroScanBounds,
    operator: i32,
    genus: usize,
    curve: CurveClass,
    time: TimeMonomial,
) -> bool {
    !generation_succeeds(theory, operator, genus, curve, time, bounds.generated_term_limit)
}

/// Generate and evaluate the equations of one operator and genus, for every
/// curve class and profile in order, within the aggregate term budget.
fn scan_sector<E: CanonicalCorrelatorEvaluator>(
    evaluator: &E,
    bounds: &VirasoroScanBounds,
    operator: i32,
    genus: usize,
    curves: &Vec<CurveClass>,
    profiles: &Vec<TimeMonomial>,
    entries: &mut Vec<VirasoroScanEntry>,
    retained_terms: &mut usize,
) -> (r: Result<(), GwError>)
    requires
        *old(retained_terms) == entry_terms_total(old(entries)@),
        entry_terms_total(old(entries)@) <= bounds.total_generated_term_limit,
        *old(retained_terms) <= old(entries)@.len() * bounds.generated_term_limit,
        vacuous_entries_unevaluated(old(entries)@),
        forall|j: int| 0 <= j < profiles@.len() ==> scanned_profile((#[trigger] profiles@[j])@, *bounds),
    ensures
        r is Ok ==> {
            &&& final(entries)@.len() == old(entries)@.len() + curves@.len() * profiles@.len()
            &&& forall|j: int| 0 <= j < old(entries)@.len() ==> final(entries)@[j] == old(entries)@[j]
            &&& forall|j: int| old(entries)@.len() <= j < final(entries)@.len()
                ==> scan_entry_ok(#[trigger] final(entries)@[j], *bounds, operator as int, genus as int)
            &&& *final(retained_terms) == entry_terms_total(final(entries)@)
            &&& entry_terms_total(final(entries)@) <= bounds.total_generated_term_limit
            &&& *final(retained_terms) <= final(entries)@.len() * bounds.generated_term_limit
            &&& vacuous_entries_unevaluated(final(entries)@)
            &&& forall|ci: int, pi: int| 0 <= ci < curves@.len() && 0 <= pi < profiles@.len() ==> sector_cell(
                #[trigger] grid_entry(final(entries)@, old(entries)@.len() as int, profiles@.len() as int, ci, pi),
                *evaluator,
                *bounds,
                curves@[ci],
                profiles@[pi],
            )
        },
        r matches Err(e) ==> (aggregate_budget_error(e, *bounds) && (old(entries)@.len() + curves@.len()
            * profiles@.len()) * bounds.generated_term_limit > bounds.total_generated_term_limit) || exists|ci: int, pi: int|
            0 <= ci < curves@.len() && 0 <= pi < profiles@.len() && #[trigger] cell_generation_fails(
                evaluator.spec_theory(),
                *bounds,
                operator,
                genus,
                curves@[ci],
                profiles@[pi],
            ),
        curves@.len() == 0 || profiles@.len() == 0 ==> {
            &&& r is Ok
            &&& final(entries)@ == old(entries)@
            &&& *final(retained_terms) == *old(retained_terms)
        },
{
    let theory = evaluator.theory();
    let ghost start = entries@;
    let n_profiles = profiles.len();
    let mut ci: usize = 0;
    while ci < curves.len()
        invariant
            ci <= curves@.len(),
            n_profiles == profiles@.len(),
            start == old(entries)@,
            entries@.len() == start.len() + ci * n_profiles,
            forall|j: int| 0 <= j < start.len() ==> entries@[j] == start[j],
            forall|j: int| start.len() <= j < entries@.len() ==> scan_entry_ok(#[trigger] entries@[j], *bounds, operator as int, genus as int),
            *retained_terms == entry_terms_total(entries@),
            entry_terms_total(entries@) <= bounds.total_generated_term_limit,
            *retained_terms <= entries@.len() * bounds.generated_term_limit,
            vacuous_entries_unevaluated(entries@),
            forall|j: int| 0 <= j < profiles@.len() ==> scanned_profile((#[trigger] profiles@[j])@, *bounds),
            forall|c: int, p: int| 0 <= c < ci && 0 <= p < n_profiles ==> sector_cell(
                #[trigger] grid_entry(entries@, start.len() as int, n_profiles as int, c, p),
                *evaluator,
                *bounds,
                curves@[c],
                profiles@[p],
            ),
            *theory == evaluator.spec_theory(),
        decreases curves@.len() - ci,
    {
        let mut pi: usize = 0;
        while pi < n_profiles
            invariant
                ci < curves@.len(),
                pi <= n_profiles,
                n_profiles == profiles@.len(),
                start == old(entries)@,
                entries@.len() == start.len() + ci * n_profiles + pi,
                forall|j: int| 0 <= j < start.len() ==> entries@[j] == start[j],
                forall|j: int| start.len() <= j < entries@.len() ==> scan_entry_ok(#[trigger] entries@[j], *bounds, operator as int, genus as int),
                *retained_terms == entry_terms_total(entries@),
                entry_terms_total(entries@) <= bounds.total_generated_term_limit,
                *retained_terms <= entries@.len() * bounds.generated_term_limit,
                vacuous_entries_unevaluated(entries@),
                forall|j: int| 0 <= j < profiles@.len() ==> scanned_profile((#[trigger] profiles@[j])@, *bounds),
                forall|c: int, p: int| 0 <= c < ci && 0 <= p < n_profiles ==> sector_cell(
                    #[trigger] grid_entry(entries@, start.len() as int, n_profiles as int, c, p),
                    *evaluator,
                    *bounds,
                    curves@[c],
                    profiles@[p],
                ),
                forall|p: int| 0 <= p < pi ==> sector_cell(
                    #[trigger] grid_entry(entries@, start.len() as int, n_profiles as int, ci as int, p),
                    *evaluator,
                    *bounds,
                    curves@[ci as int],
                    profiles@[p],
                ),
                *theory == evaluator.spec_theory(),
            decreases n_profiles - pi,
        {
            let profile = profiles[pi].clone();
            let curve = curves[ci].clone();
            proof {
                lemma_generation_depends_on_views(
                    *theory,
                    operator,
                    genus,
                    curve,
                    curves@[ci as int],
                    profile,
                    profiles@[pi as int],
                    bounds.generated_term_limit,
                );
            }
            let constraint = match generate_constraint_with_term_limit(
                theory,
                operator,
                genus,
                curve,
                profile,
                bounds.generated_term_limit,
            ) {
                Ok(c) => c,
                Err(e) => {
                    proof {
                        assert(cell_generation_fails(evaluator.spec_theory(), *bounds, operator, genus, curves@[ci as int], profiles@[pi as int]));
                    }
                    return Err(e);
                },
            };
            proof {
                let gen = bounds.generated_term_limit as int;
                let len = entries@.len() as int;
                assert(ci * n_profiles + pi + 1 <= curves@.len() * n_profiles) by (nonlinear_arith)
                    requires
                        ci < curves@.len(),
                        pi < n_profiles,
                ;
                assert(*retained_terms + constraint.terms@.len() <= (start.len() + curves@.len() * n_profiles) * gen)
                    by (nonlinear_arith)
                    requires
                        *retained_terms <= len * gen,
                        constraint.terms@.len() <= gen,
                        len + 1 <= start.len() + curves@.len() * n_profiles,
                        gen >= 0,
                ;
                assert(*retained_terms + constraint.terms@.len() <= (len + 1) * gen) by (nonlinear_arith)
                    requires
                        *retained_terms <= len * gen,
                        constraint.terms@.len() <= gen,
                ;
            }
            let total = match retained_terms.checked_add(constraint.terms.len()) {
                Some(t) => t,
                None => {
                    return Err(GwError::UnsupportedInvariant(string_from("aggregate Virasoro scan term count overflow")));
                },
            };
            if total > bounds.total_generated_term_limit {
                return Err(GwError::ResourceLimit {
                    operation: string_from("retained Virasoro scan terms"),
                    requested: total,
                    limit: bounds.total_generated_term_limit,
                });
            }
            let report = evaluate_constraint_with_bounds(evaluator, &constraint, bounds.correlator_bounds);
            let ghost before = entries@;
            let entry = VirasoroScanEntry { constraint, report };
            proof {
                assert(scanned_profile(entry.constraint.time_coefficient@, *bounds)) by {
                    assert(scanned_profile(profiles@[pi as int]@, *bounds));
                }
                if entry.constraint.terms@.len() == 0 {
                    lemma_vacuous_outcome(entry.report, entry.constraint.terms@, bounds.correlator_bounds);
                }
            }
            entries.push(entry);
            *retained_terms = total;
            proof {
                assert(entries@.drop_last() =~= before);
                assert forall|j: int| 0 <= j < start.len() implies entries@[j] == start[j] by {
                    assert(entries@[j] == before[j]);
                }
                assert forall|j: int| start.len() <= j < entries@.len() implies scan_entry_ok(#[trigger] entries@[j], *bounds, operator as int, genus as int) by {
                    if j < before.len() {
                        assert(entries@[j] == before[j]);
                    }
                }
                assert forall|j: int| 0 <= j < entries@.len() && (#[trigger] entries@[j]).constraint.terms@.len() == 0
                    implies entries@[j].report.spec_backend_correlators().len() == 0 by {
                    if j < before.len() {
                        assert(entries@[j] == before[j]);
                    }
                }
                let here = start.len() + ci * n_profiles + pi;
                assert(entries@[here] == entry);
                assert(sector_cell(entries@[here], *evaluator, *bounds, curves@[ci as int], profiles@[pi as int]));
                assert forall|c: int, p: int| 0 <= c < ci && 0 <= p < n_profiles implies sector_cell(
                    #[trigger] grid_entry(entries@, start.len() as int, n_profiles as int, c, p),
                    *evaluator,
                    *bounds,
                    curves@[c],
                    profiles@[p],
                ) by {
                    assert(c * n_profiles + p < ci * n_profiles) by (nonlinear_arith)
                        requires
                            0 <= c < ci,
                            0 <= p < n_profiles,
                    ;
                    assert(grid_entry(before, start.len() as int, n_profiles as int, c, p) == grid_entry(entries@, start.len() as int, n_profiles as int, c, p));
                }
                assert forall|p: int| 0 <= p < pi + 1 implies sector_cell(
                    #[trigger] grid_entry(entries@, start.len() as int, n_profiles as int, ci as int, p),
                    *evaluator,
                    *bounds,
                    curves@[ci as int],
                    profiles@[p],
                ) by {
                    if p < pi {
                        assert(grid_entry(before, start.len() as int, n_profiles as int, ci as int, p) == grid_entry(entries@, start.len() as int, n_profiles as int, ci as int, p));
                    } else {
                        assert(grid_entry(entries@, start.len() as int, n_profiles as int, ci as int, p) == entries@[here]);
                    }
                }
            }
            pi = pi + 1;
        }
        proof {
            assert((ci + 1) * n_profiles == ci * n_profiles + n_profiles) by (nonlinear_arith);
        }
        ci = ci + 1;
    }
    proof {
        if curves@.len() == 0 || n_profiles == 0 {
            assert(ci * n_profiles == 0) by (nonlinear_arith)
                requires
                    ci == 0 || n_profiles == 0,
            ;
            assert(entries@ =~= start);
        }
    }
    Ok(())
}

/// The marking bound of the scan's dependencies: the one given, else two
/// more than the scanned markings.
pub open spec fn derived_dependency_markings(markings_max: usize, given: Option<usize>) -> Option<nat> {
    match given {
        Some(b) => Some(b as nat),
        None => if markings_max + 2 <= usize::MAX {
            Some((markings_max + 2) as nat)
        } else {
            None
        },
    }
}

/// The psi-power bound of the scan's dependencies: the one given; the
/// scanned bound when no nonnegative operator is scanned; else the larger of
/// `descendant_max + k_max` and `k_max + 1`.
pub open spec fn derived_dependency_descendants(descendant_max: usize, k_max: i32, given: Option<usize>) -> Option<nat> {
    match given {
        Some(b) => Some(b as nat),
        None => if k_max < 0 {
            Some(descendant_max as nat)
        } else if descendant_max + k_max > usize::MAX {
            None
        } else if descendant_max + k_max >= k_max + 1 {
            Some((descendant_max + k_max) as nat)
        } else {
            Some((k_max + 1) as nat)
        },
    }
}

/// Dependency bounds of a scan derived from its bounds, unless given:
/// `(markings, psi power)`.  A derived bound that does not fit in `usize` is
/// refused, the marking bound first.
pub fn derive_dependency_bounds(
    markings_max: usize,
    descendant_max: usize,
    k_max: i32,
    dependency_markings: Option<usize>,
    dependency_descendants: Option<usize>,
) -> (r: Result<(usize, usize), GwError>)
    ensures
        derived_dependency_markings(markings_max, dependency_markings) is None ==> (r matches Err(
            GwError::UnsupportedInvariant(m),
        ) && m@ == "dependency marking bound derived from --markings-max overflowed"@),
        derived_dependency_markings(markings_max, dependency_markings) is Some && derived_dependency_descendants(
            descendant_max,
            k_max,
            dependency_descendants,
        ) is None ==> (r matches Err(GwError::UnsupportedInvariant(m))
            && m@ == "dependency descendant bound derived from scan bounds overflowed"@),
        r is Ok <==> (derived_dependency_markings(markings_max, dependency_markings) is Some
            && derived_dependency_descendants(descendant_max, k_max, dependency_descendants) is Some),
        r matches Ok((m, d)) ==> m == derived_dependency_markings(markings_max, dependency_markings)->0
            && d == derived_dependency_descendants(descendant_max, k_max, dependency_descendants)->0,
{
    let markings = match dependency_markings {
        Some(bound) => bound,
        None => match markings_max.checked_add(2) {
            Some(bound) => bound,
            None => {
                return Err(GwError::UnsupportedInvariant(
                    string_from("dependency marking bound derived from --markings-max overflowed"),
                ));
            },
        },
    };
    let descendants = match dependency_descendants {
        Some(bound) => bound,
        None => if k_max < 0 {
            descendant_max
        } else {
            let k = k_max as usize;
            let shifted_external = match descendant_max.checked_add(k) {
                Some(value) => value,
                None => {
                    return Err(GwError::UnsupportedInvariant(
                        string_from("dependency descendant bound derived from scan bounds overflowed"),
                    ));
                },
            };
            let pure_descendant = match k.checked_add(1) {
                Some(value) => value,
                None => {
                    return Err(GwError::UnsupportedInvariant(
                        string_from("dependency descendant bound derived from --k-max overflowed"),
                    ));
                },
            };
            if shifted_external >= pure_descendant {
                shifted_external
            } else {
                pure_descendant
            }
        },
    };
    Ok((markings, descendants))
}

/// The scan bounds of a command-line request: the scanned ranges and limits
/// as given, and dependencies bounded by the scan's genus, by the derived
/// marking and psi-power bounds, and by `dependency_limit`.
pub fn scan_bounds_from_request(
    k_min: i32,
    k_max: i32,
    g_max: usize,
    d_max: usize,
    markings_max: usize,
    descendant_max: usize,
    equation_limit: usize,
    term_limit: usize,
    total_term_limit: usize,
    dependency_markings: Option<usize>,
    dependency_descendants: Option<usize>,
    dependency_limit: usize,
) -> (r: Result<VirasoroScanBounds, GwError>)
    ensures
        r is Ok <==> (derived_dependency_markings(markings_max, dependency_markings) is Some
            && derived_dependency_descendants(descendant_max, k_max, dependency_descendants) is Some),
        derived_dependency_markings(markings_max, dependency_markings) is None ==> (r matches Err(
            GwError::UnsupportedInvariant(m),
        ) && m@ == "dependency marking bound derived from --markings-max overflowed"@),
        derived_dependency_markings(markings_max, dependency_markings) is Some && derived_dependency_descendants(
            descendant_max,
            k_max,
            dependency_descendants,
        ) is None ==> (r matches Err(GwError::UnsupportedInvariant(m))
            && m@ == "dependency descendant bound derived from scan bounds overflowed"@),
        r matches Ok(b) ==> b == (VirasoroScanBounds {
            operator_min: k_min,
            operator_max: k_max,
            genus_max: g_max,
            degree_grading_max: d_max,
            markings_max,
            descendant_max,
            equation_limit,
            generated_term_limit: term_limit,
            total_generated_term_limit: total_term_limit,
            correlator_bounds: CorrelatorEvaluationBounds {
                max_genus: Some(g_max),
                max_markings: Some(derived_dependency_markings(markings_max, dependency_markings)->0 as usize),
                max_descendant_power: Some(
                    derived_dependency_descendants(descendant_max, k_max, dependency_descendants)->0 as usize,
                ),
                dependency_limit,
            },
        }),
{
    let (markings, descendants) = derive_dependency_bounds(
        markings_max,
        descendant_max,
        k_max,
        dependency_markings,
        dependency_descendants,
    )?;
    Ok(VirasoroScanBounds {
        operator_min: k_min,
        operator_max: k_max,
        genus_max: g_max,
        degree_grading_max: d_max,
        markings_max,
        descendant_max,
        equation_limit,
        generated_term_limit: term_limit,
        total_generated_term_limit: total_term_limit,
        correlator_bounds: CorrelatorEvaluationBounds {
            max_genus: Some(g_max),
            max_markings: Some(markings),
            max_descendant_power: Some(descendants),
            dependency_limit,
        },
    })
}

/// Whether `curve` equals one of `curves[..end]`.
fn contains_curve(curves: &Vec<CurveClass>, end: usize, curve: &CurveClass) -> (found: bool)
    requires
        end <= curves@.len(),
    ensures
        found == exists|j: int| 0 <= j < end && (#[trigger] curves@[j])@ == curve@,
{
    let mut j: usize = 0;
    while j < end
        invariant
            j <= end <= curves@.len(),
            forall|k: int| 0 <= k < j ==> (#[trigger] curves@[k])@ != curve@,
        decreases end - j,
    {
        match curves[j].compare(curve) {
            Order::Equal => {
                proof {
                    crate::foundation::theory::lemma_curve_order_equal(curves@[j as int]@, curve@);
                }
                return true;
            },
            _ => {
                proof {
                    crate::foundation::theory::lemma_curve_order_equal(curves@[j as int]@, curve@);
                }
            },
        }
        j = j + 1;
    }
    false
}

fn theory_failure(theory_id: &String, before: &str, after: &str) -> (e: GwError)
    ensures
        e matches GwError::ValidationFailure(m) && m@ == "theory "@ + theory_id@ + before@ + after@,
{
    let mut message = string_from("theory ");
    push_string(&mut message, theory_id);
    push_str(&mut message, before);
    push_str(&mut message, after);
    GwError::ValidationFailure(message)
}

/// The descendant atoms of a scan: psi powers `0..levels`, each with every
/// basis element `0..basis_len`, psi power first.
pub open spec fn scan_atoms(levels: nat, basis_len: nat) -> Seq<Descendant>
    decreases levels,
{
    if levels == 0 {
        Seq::empty()
    } else {
        scan_atoms((levels - 1) as nat, basis_len) + Seq::new(
            basis_len,
            |b: int| Descendant { psi_power: (levels - 1) as usize, class: BasisId(b as usize) },
        )
    }
}

/// The descendant profiles a scan enumerates, in order.
pub open spec fn scan_profiles<T: GwTheory>(theory: T, bounds: VirasoroScanBounds) -> Seq<Seq<Descendant>> {
    profiles_upto(
        scan_atoms((bounds.descendant_max + 1) as nat, theory.spec_state_space().basis@.len()),
        bounds.markings_max as nat,
    )
}

/// The number of operators a scan covers.
pub open spec fn scan_operator_count(bounds: VirasoroScanBounds) -> int {
    bounds.operator_max - bounds.operator_min + 1
}

/// The size of the Cartesian product of a scan, when the checks before it
/// pass: valid bounds, counts of atoms and profiles that fit, the theory's
/// class count nonzero, and every partial product fitting in `usize`.
pub open spec fn scan_projection<T: GwTheory>(theory: T, bounds: VirasoroScanBounds) -> Option<nat> {
    let atoms = (bounds.descendant_max + 1) * theory.spec_state_space().basis@.len();
    let o = scan_operator_count(bounds);
    let g = bounds.genus_max + 1;
    let c = theory.spec_bounded_admissible_class_count(bounds.degree_grading_max)->Ok_0;
    let p = profile_total(atoms as nat, bounds.markings_max as nat);
    if -1 <= bounds.operator_min <= bounds.operator_max && bounds.markings_max <= MAX_VIRASORO_SCAN_MARKINGS
        && bounds.descendant_max < usize::MAX && atoms <= usize::MAX && profile_count_fits(
        atoms as nat,
        bounds.markings_max as nat,
    ) && theory.spec_bounded_admissible_class_count(bounds.degree_grading_max) is Ok && c > 0
        && bounds.genus_max < usize::MAX && o * g <= usize::MAX && o * g * c <= usize::MAX && o * g * c * p
        <= usize::MAX {
        Some((o * g * c * p) as nat)
    } else {
        None
    }
}

/// The position of operator `o`, genus `g`, class `ci` and profile `pi` in
/// the scan's order.
pub open spec fn scan_index(o: int, g: int, ci: int, pi: int, genera: int, classes: int, profiles: int) -> int {
    ((o * genera + g) * classes + ci) * profiles + pi
}

/// The scanned equation of an operator, a genus, a class and a profile.
pub open spec fn scan_cell<E: CanonicalCorrelatorEvaluator>(
    x: VirasoroScanEntry,
    evaluator: E,
    bounds: VirasoroScanBounds,
    op: int,
    genus: int,
    curve: CurveClass,
    profile: Seq<Descendant>,
) -> bool {
    &&& x.constraint.operator.index == op
    &&& x.constraint.sector.genus == genus
    &&& x.constraint.sector.degree@ == curve@
    &&& profile_matches(x.constraint.time_coefficient@, profile)
    &&& scan_entry_exact(x, evaluator, bounds)
}

/// The report holds exactly one equation for every operator, genus, class of
/// the theory's bounded cone and scanned profile, in that order.
pub open spec fn scan_covers<E: CanonicalCorrelatorEvaluator>(report: VirasoroScanReport, evaluator: E, bounds: VirasoroScanBounds) -> bool {
    let e = report.spec_entries();
    let theory = evaluator.spec_theory();
    let curves = theory.spec_bounded_admissible_classes(bounds.degree_grading_max)->Ok_0;
    let profiles = scan_profiles(theory, bounds);
    let o = scan_operator_count(bounds);
    let g = bounds.genus_max + 1;
    &&& e.len() == o * g * curves.len() * profiles.len()
    &&& forall|op: int, genus: int, ci: int, pi: int|
        0 <= op < o && 0 <= genus < g && 0 <= ci < curves.len() && 0 <= pi < profiles.len() ==> scan_cell(
            #[trigger] e[scan_index(op, genus, ci, pi, g, curves.len() as int, profiles.len() as int)],
            evaluator,
            bounds,
            bounds.operator_min + op,
            genus,
            curves[ci],
            profiles[pi],
        )
}

/// Where the block of operator `o` and genus `g` lies.
proof fn lemma_scan_index(o: int, g: int, ci: int, pi: int, genera: int, classes: int, profiles: int)
    requires
        0 <= o,
        0 <= g < genera,
        0 <= ci < classes,
        0 <= pi < profiles,
    ensures
        scan_index(o, g, ci, pi, genera, classes, profiles) == o * genera * (classes * profiles) + g * (classes * profiles)
            + ci * profiles + pi,
        ci * profiles + pi < classes * profiles,
{
    assert(((o * genera + g) * classes + ci) * profiles == (o * genera + g) * (classes * profiles) + ci * profiles)
        by (nonlinear_arith);
    assert((o * genera + g) * (classes * profiles) == o * genera * (classes * profiles) + g * (classes * profiles))
        by (nonlinear_arith);
    assert(ci * profiles + pi < classes * profiles) by (nonlinear_arith)
        requires
            0 <= ci < classes,
            0 <= pi < profiles,
    ;
}

/// The theory's bounded cone is usable: as many classes as announced, each
/// of the lattice's rank, none repeated, the degree-zero class among them.
pub open spec fn scan_classes_ok<T: GwTheory>(theory: T, bounds: VirasoroScanBounds) -> bool {
    let cs = theory.spec_bounded_admissible_classes(bounds.degree_grading_max)->Ok_0;
    let rank = theory.spec_curve_class_space().coordinate_names@.len();
    &&& theory.spec_bounded_admissible_classes(bounds.degree_grading_max) is Ok
    &&& cs.len() == theory.spec_bounded_admissible_class_count(bounds.degree_grading_max)->Ok_0
    &&& forall|i: int| 0 <= i < cs.len() ==> (#[trigger] cs[i])@.len() == rank
    &&& forall|i: int, j: int| 0 <= i < j < cs.len() ==> (#[trigger] cs[i])@ != (#[trigger] cs[j])@
    &&& exists|i: int| 0 <= i < cs.len() && (#[trigger] cs[i])@ == Seq::new(rank, |t: int| 0i64)
}

/// The scanned profiles can be enumerated within their count.
pub open spec fn scan_profiles_ok<T: GwTheory>(theory: T, bounds: VirasoroScanBounds) -> bool {
    let n = theory.spec_state_space().basis@.len();
    let atoms = scan_atoms((bounds.descendant_max + 1) as nat, n);
    let count = profile_total(((bounds.descendant_max + 1) * n) as nat, bounds.markings_max as nat);
    &&& (bounds.markings_max == 0 || !profiles_overflow(atoms, bounds.markings_max as nat, count))
    &&& profiles_upto(atoms, bounds.markings_max as nat).len() == count
}

/// Everything before the equations are generated passes.
pub open spec fn scan_ready<T: GwTheory>(theory: T, bounds: VirasoroScanBounds) -> bool {
    &&& scan_projection(theory, bounds) is Some
    &&& scan_projection(theory, bounds)->0 <= bounds.equation_limit
    &&& scan_classes_ok(theory, bounds)
    &&& scan_profiles_ok(theory, bounds)
}

/// The equation of operator offset `o`, genus `g`, class `ci` and a time
/// coefficient `t` of profile `pi` cannot be generated.
pub open spec fn scan_cell_fails<T: GwTheory>(theory: T, bounds: VirasoroScanBounds, o: int, g: int, ci: int, pi: int, t: TimeMonomial) -> bool {
    let cs = theory.spec_bounded_admissible_classes(bounds.degree_grading_max)->Ok_0;
    &&& 0 <= o < scan_operator_count(bounds)
    &&& 0 <= g <= bounds.genus_max
    &&& 0 <= ci < cs.len()
    &&& 0 <= pi < scan_profiles(theory, bounds).len()
    &&& profile_matches(t@, scan_profiles(theory, bounds)[pi])
    &&& cell_generation_fails(theory, bounds, (bounds.operator_min + o) as i32, g as usize, cs[ci], t)
}

/// Positions of earlier blocks lie before a later block.
proof fn lemma_scan_index_before(
    o: int,
    g: int,
    ci: int,
    pi: int,
    genera: int,
    classes: int,
    profiles: int,
    later_o: int,
    later_g: int,
)
    requires
        0 <= o,
        0 <= g < genera,
        0 <= later_g,
        0 <= ci < classes,
        0 <= pi < profiles,
        o * genera + g < later_o * genera + later_g,
    ensures
        scan_index(o, g, ci, pi, genera, classes, profiles) < later_o * genera * (classes * profiles) + later_g * (
        classes * profiles),
{
    lemma_scan_index(o, g, ci, pi, genera, classes, profiles);
    let block = classes * profiles;
    assert((o * genera + g) * block + block <= (later_o * genera + later_g) * block) by (nonlinear_arith)
        requires
            o * genera + g < later_o * genera + later_g,
            block >= 0,
    ;
    assert((later_o * genera + later_g) * block == later_o * genera * block + later_g * block) by (nonlinear_arith);
    assert((o * genera + g) * block == o * genera * block + g * block) by (nonlinear_arith);
}

/// Generate and evaluate every coefficient equation of a bounded scan:
/// operators `operator_min..=operator_max`, genera `0..=genus_max`, the
/// theory's curve classes of grading at most `degree_grading_max`, and all
/// descendant profiles with at most `markings_max` markings of psi power at
/// most `descendant_max`.  The size of the Cartesian product is checked
/// against `equation_limit` before any curve class or profile is built.
pub fn scan_constraints<E: CanonicalCorrelatorEvaluator>(
    evaluator: &E,
    bounds: VirasoroScanBounds,
) -> (r: Result<VirasoroScanReport, GwError>)
    ensures
        (bounds.operator_min < -1 || bounds.operator_max < bounds.operator_min) ==> (r matches Err(
            GwError::ConventionMismatch(m),
        ) && m@ == "Virasoro scan requires -1 <= operator_min <= operator_max"@),
        (-1 <= bounds.operator_min <= bounds.operator_max && bounds.markings_max > MAX_VIRASORO_SCAN_MARKINGS)
            ==> (r matches Err(GwError::ResourceLimit { operation, requested, limit }) && operation@
            == "Virasoro scan markings"@ && requested == bounds.markings_max && limit == MAX_VIRASORO_SCAN_MARKINGS),
        (-1 <= bounds.operator_min <= bounds.operator_max && bounds.markings_max <= MAX_VIRASORO_SCAN_MARKINGS
            && bounds.descendant_max == usize::MAX) ==> (r matches Err(GwError::UnsupportedInvariant(m))
            && m@ == "descendant scan bound is too large"@),
        (scan_projection(evaluator.spec_theory(), bounds) is Some && scan_projection(evaluator.spec_theory(), bounds)->0
            > bounds.equation_limit) ==> (r matches Err(GwError::ResourceLimit { operation, requested, limit })
            && operation@ == "Virasoro scan equations"@ && requested == scan_projection(evaluator.spec_theory(), bounds)->0
            && limit == bounds.equation_limit),
        r matches Err(e) ==> !scan_ready(evaluator.spec_theory(), bounds) || (aggregate_budget_error(e, bounds)
            && scan_projection(evaluator.spec_theory(), bounds)->0 * bounds.generated_term_limit
            > bounds.total_generated_term_limit) || exists|o: int, g: int, ci: int, pi: int, t: TimeMonomial| #[trigger] scan_cell_fails(
            evaluator.spec_theory(),
            bounds,
            o,
            g,
            ci,
            pi,
            t,
        ),
        scan_ready(evaluator.spec_theory(), bounds) && scan_projection(evaluator.spec_theory(), bounds)->0
            * bounds.generated_term_limit <= bounds.total_generated_term_limit && !(exists|
            o: int,
            g: int,
            ci: int,
            pi: int,
            t: TimeMonomial,
        | #[trigger] scan_cell_fails(evaluator.spec_theory(), bounds, o, g, ci, pi, t)) ==> r is Ok,
        r matches Ok(report) ==> scan_report_ok(report, bounds),
        r matches Ok(report) ==> (scan_projection(evaluator.spec_theory(), bounds) is Some && scan_projection(
            evaluator.spec_theory(),
            bounds,
        )->0 <= bounds.equation_limit && report.spec_entries().len() == scan_projection(evaluator.spec_theory(), bounds)->0),
        r matches Ok(report) ==> scan_covers(report, *evaluator, bounds),
{
    if bounds.operator_min < -1 || bounds.operator_max < bounds.operator_min {
        return Err(GwError::ConventionMismatch(string_from("Virasoro scan requires -1 <= operator_min <= operator_max")));
    }
    if bounds.markings_max > MAX_VIRASORO_SCAN_MARKINGS {
        return Err(GwError::ResourceLimit {
            operation: string_from("Virasoro scan markings"),
            requested: bounds.markings_max,
            limit: MAX_VIRASORO_SCAN_MARKINGS,
        });
    }
    let theory = evaluator.theory();
    let operator_count: usize = (bounds.operator_max as i64 - bounds.operator_min as i64 + 1) as usize;
    if bounds.descendant_max == usize::MAX {
        return Err(GwError::UnsupportedInvariant(string_from("descendant scan bound is too large")));
    }
    let descendant_levels = bounds.descendant_max + 1;
    let basis_len = theory.state_space().basis.len();
    let atom_count = match descendant_levels.checked_mul(basis_len) {
        Some(count) => count,
        None => {
            return Err(GwError::UnsupportedInvariant(string_from("descendant atom count overflow")));
        },
    };
    let profile_count = match multiset_profile_count(atom_count, bounds.markings_max) {
        Ok(count) => count,
        Err(e) => {
            return Err(e);
        },
    };
    let curve_count = match theory.bounded_admissible_class_count(bounds.degree_grading_max) {
        Ok(count) => count,
        Err(e) => {
            return Err(e);
        },
    };
    if curve_count == 0 {
        return Err(theory_failure(&theory.theory_id(), " omitted the degree-zero curve class", " from its bounded cone"));
    }
    let genus_levels = match bounds.genus_max.checked_add(1) {
        Some(levels) => levels,
        None => {
            return Err(GwError::AlgebraFailure(string_from("genus scan bound overflow")));
        },
    };
    let projected = match operator_count.checked_mul(genus_levels) {
        Some(a) => match a.checked_mul(curve_count) {
            Some(b) => b.checked_mul(profile_count),
            None => None,
        },
        None => None,
    };
    let projected = match projected {
        Some(count) => count,
        None => {
            return Err(GwError::AlgebraFailure(string_from("Virasoro scan size overflow")));
        },
    };
    if projected > bounds.equation_limit {
        return Err(GwError::ResourceLimit {
            operation: string_from("Virasoro scan equations"),
            requested: projected,
            limit: bounds.equation_limit,
        });
    }
    proof {
        assert(operator_count as int == scan_operator_count(bounds));
        assert(scan_projection(evaluator.spec_theory(), bounds) == Some(projected as nat));
    }
    let curves = match theory.bounded_admissible_classes(bounds.degree_grading_max) {
        Ok(curves) => curves,
        Err(e) => {
            return Err(e);
        },
    };
    if curves.len() != curve_count {
        let mut message = string_from("theory ");
        push_string(&mut message, &theory.theory_id());
        push_str(&mut message, " reported ");
        push_usize(&mut message, curve_count);
        push_str(&mut message, " bounded curve classes but produced ");
        push_usize(&mut message, curves.len());
        return Err(GwError::ValidationFailure(message));
    }
    let mut i: usize = 0;
    while i < curves.len()
        invariant
            i <= curves@.len(),
            -1 <= bounds.operator_min <= bounds.operator_max,
            bounds.markings_max <= MAX_VIRASORO_SCAN_MARKINGS,
            bounds.descendant_max < usize::MAX,
            scan_projection(evaluator.spec_theory(), bounds) is Some,
            scan_projection(evaluator.spec_theory(), bounds)->0 <= bounds.equation_limit,
            *theory == evaluator.spec_theory(),
            theory.spec_bounded_admissible_classes(bounds.degree_grading_max) == Ok::<Seq<CurveClass>, GwError>(curves@),
        decreases curves@.len() - i,
    {
        match theory.curve_class_space().validate(&curves[i]) {
            Ok(()) => {},
            Err(e) => {
                proof {
                    assert(!scan_classes_ok(evaluator.spec_theory(), bounds)) by {
                        if scan_classes_ok(evaluator.spec_theory(), bounds) {
                            assert(curves@[i as int]@.len() == theory.spec_curve_class_space().coordinate_names@.len());
                        }
                    }
                }
                return Err(e);
            },
        }
        if contains_curve(&curves, i, &curves[i]) {
            proof {
                assert(!scan_classes_ok(evaluator.spec_theory(), bounds)) by {
                    let j = choose|j: int| 0 <= j < i && (#[trigger] curves@[j])@ == curves@[i as int]@;
                    if scan_classes_ok(evaluator.spec_theory(), bounds) {
                        assert(curves@[j]@ != curves@[i as int]@);
                    }
                }
            }
            let mut message = string_from("theory ");
            push_string(&mut message, &theory.theory_id());
            push_str(&mut message, " returned a duplicate bounded curve class ");
            push_string(&mut message, &curves[i].text());
            return Err(GwError::ValidationFailure(message));
        }
        i = i + 1;
    }
    let zero_curve = CurveClass::zero(theory.curve_class_space().rank());
    if !contains_curve(&curves, curves.len(), &zero_curve) {
        proof {
            assert(zero_curve@ =~= Seq::new(theory.spec_curve_class_space().coordinate_names@.len(), |t: int| 0i64));
            assert(!scan_classes_ok(evaluator.spec_theory(), bounds)) by {
                if scan_classes_ok(evaluator.spec_theory(), bounds) {
                    let cs = curves@;
                    let i = choose|i: int| 0 <= i < cs.len() && (#[trigger] cs[i])@ == Seq::new(
                        theory.spec_curve_class_space().coordinate_names@.len(),
                        |t: int| 0i64,
                    );
                    assert(curves@[i]@ == zero_curve@);
                }
            }
        }
        return Err(theory_failure(&theory.theory_id(), " omitted the degree-zero curve class", " from its bounded cone"));
    }
    let profiles = if bounds.markings_max == 0 {
        let one = TimeMonomial::one();
        proof {
            assert forall|d: Descendant| multiplicity(one@, d) == occurrences(Seq::<Descendant>::empty(), d) by {}
            assert(profile_matches(one@, Seq::<Descendant>::empty()));
        }
        let mut single: Vec<TimeMonomial> = Vec::new();
        single.push(one);
        single
    } else {
        let mut atoms: Vec<Descendant> = Vec::new();
        let mut psi_power: usize = 0;
        while psi_power < descendant_levels
            invariant
                psi_power <= descendant_levels,
                descendant_levels == bounds.descendant_max + 1,
                forall|j: int| 0 <= j < atoms@.len() ==> #[trigger] atoms@[j].psi_power <= bounds.descendant_max,
                atoms@ == scan_atoms(psi_power as nat, basis_len as nat),
            decreases descendant_levels - psi_power,
        {
            let mut basis: usize = 0;
            while basis < basis_len
                invariant
                    basis <= basis_len,
                    psi_power < descendant_levels,
                    descendant_levels == bounds.descendant_max + 1,
                    forall|j: int| 0 <= j < atoms@.len() ==> #[trigger] atoms@[j].psi_power <= bounds.descendant_max,
                    atoms@ == scan_atoms(psi_power as nat, basis_len as nat) + Seq::new(
                        basis as nat,
                        |b: int| Descendant { psi_power: psi_power, class: BasisId(b as usize) },
                    ),
                decreases basis_len - basis,
            {
                let ghost before = atoms@;
                atoms.push(Descendant::new(psi_power, BasisId(basis)));
                proof {
                    assert(atoms@ =~= scan_atoms(psi_power as nat, basis_len as nat) + Seq::new(
                        (basis + 1) as nat,
                        |b: int| Descendant { psi_power: psi_power, class: BasisId(b as usize) },
                    ));
                }
                basis = basis + 1;
            }
            proof {
                assert(atoms@ =~= scan_atoms((psi_power + 1) as nat, basis_len as nat));
            }
            psi_power = psi_power + 1;
        }
        match descendant_profiles(&atoms, bounds.markings_max, profile_count) {
            Ok(out) => {
                proof {
                    let all = profiles_upto(atoms@, bounds.markings_max as nat);
                    assert forall|j: int| 0 <= j < out@.len() implies scanned_profile((#[trigger] out@[j])@, bounds) by {
                        lemma_profile_members(atoms@, bounds.markings_max as nat, bounds.descendant_max, j);
                        assert(profile_matches(out@[j]@, all[j]));
                    }
                }
                out
            },
            Err(e) => {
                return Err(e);
            },
        }
    };
    let ghost all = scan_profiles(evaluator.spec_theory(), bounds);
    proof {
        if bounds.markings_max == 0 {
            assert(all =~= seq![Seq::<Descendant>::empty()]);
        }
        assert(profiles@.len() == all.len());
        assert forall|j: int| 0 <= j < profiles@.len() implies profile_matches((#[trigger] profiles@[j])@, all[j]) by {
            if bounds.markings_max == 0 {
                assert(j == 0);
            }
        }
    }
    if profiles.len() != profile_count {
        let mut message = string_from("profile counter predicted ");
        push_usize(&mut message, profile_count);
        push_str(&mut message, " monomials but generated ");
        push_usize(&mut message, profiles.len());
        return Err(GwError::ValidationFailure(message));
    }
    let mut entries: Vec<VirasoroScanEntry> = Vec::new();
    let mut retained_terms: usize = 0;
    let ghost block = (curves@.len() * profiles@.len()) as nat;
    proof {
        lemma_profile_total_positive(atom_count as nat, bounds.markings_max as nat);
        assert(projected == operator_count * genus_levels * curve_count * profile_count);
        assert(operator_count * genus_levels * curve_count * profile_count == operator_count * genus_levels * block) by (nonlinear_arith)
            requires
                block == curve_count * profile_count,
        ;
        assert(block >= 1) by (nonlinear_arith)
            requires
                block == curve_count * profile_count,
                curve_count >= 1,
                profile_count >= 1,
        ;
        assert(0 * genus_levels * block == 0) by (nonlinear_arith);
        assert(entries@.len() * bounds.generated_term_limit == 0) by (nonlinear_arith)
            requires
                entries@.len() == 0,
        ;
    }
    let mut op_offset: usize = 0;
    while op_offset < operator_count
        invariant
            op_offset <= operator_count,
            operator_count as int == bounds.operator_max - bounds.operator_min + 1,
            -1 <= bounds.operator_min <= bounds.operator_max,
            bounds.markings_max <= MAX_VIRASORO_SCAN_MARKINGS,
            bounds.descendant_max < usize::MAX,
            genus_levels == bounds.genus_max + 1,
            block == curves@.len() * profiles@.len(),
            block >= 1,
            entries@.len() == op_offset * genus_levels * block,
            operator_count * genus_levels * block <= bounds.equation_limit,
            retained_terms == entry_terms_total(entries@),
            entry_terms_total(entries@) <= bounds.total_generated_term_limit,
            retained_terms <= entries@.len() * bounds.generated_term_limit,
            projected == operator_count * genus_levels * block,
            scan_projection(evaluator.spec_theory(), bounds) == Some(projected as nat),
            vacuous_entries_unevaluated(entries@),
            forall|j: int| 0 <= j < profiles@.len() ==> scanned_profile((#[trigger] profiles@[j])@, bounds),
            forall|i: int| 0 <= i < entries@.len() ==> {
                &&& bounds.operator_min <= (#[trigger] entries@[i]).constraint.operator.index < bounds.operator_min + op_offset
                &&& entries@[i].constraint.sector.genus < genus_levels
                &&& scan_entry_ok(entries@[i], bounds, entries@[i].constraint.operator.index as int, entries@[i].constraint.sector.genus as int)
            },
            forall|i: int, j: int| 0 <= i < j < entries@.len() ==> {
                ||| (#[trigger] entries@[i]).constraint.operator.index < (#[trigger] entries@[j]).constraint.operator.index
                ||| (entries@[i].constraint.operator.index == entries@[j].constraint.operator.index
                    && entries@[i].constraint.sector.genus <= entries@[j].constraint.sector.genus)
            },
            forall|op: int, g: int| bounds.operator_min <= op < bounds.operator_min + op_offset && 0 <= g < genus_levels
                ==> #[trigger] scanned_sector(entries@, op, g),
            scan_projection(evaluator.spec_theory(), bounds) is Some,
            scan_projection(evaluator.spec_theory(), bounds)->0 <= bounds.equation_limit,
            *theory == evaluator.spec_theory(),
            theory.spec_bounded_admissible_classes(bounds.degree_grading_max) == Ok::<Seq<CurveClass>, GwError>(curves@),
            all == scan_profiles(evaluator.spec_theory(), bounds),
            all.len() == profiles@.len(),
            forall|j: int| 0 <= j < profiles@.len() ==> profile_matches((#[trigger] profiles@[j])@, all[j]),
            forall|o: int, g: int, ci: int, pi: int|
                0 <= o < op_offset && 0 <= g < genus_levels && 0 <= ci < curves@.len() && 0 <= pi < profiles@.len()
                    ==> scan_cell(
                    #[trigger] entries@[scan_index(o, g, ci, pi, genus_levels as int, curves@.len() as int, profiles@.len() as int)],
                    *evaluator,
                    bounds,
                    bounds.operator_min + o,
                    g,
                    curves@[ci],
                    all[pi],
                ),
        decreases operator_count - op_offset,
    {
        let operator: i32 = (bounds.operator_min as i64 + op_offset as i64) as i32;
        let ghost op_start = entries@.len();
        let mut genus: usize = 0;
        while genus < genus_levels
            invariant
                genus <= genus_levels,
                op_offset < operator_count,
                operator as int == bounds.operator_min + op_offset,
                operator_count as int == bounds.operator_max - bounds.operator_min + 1,
                -1 <= bounds.operator_min <= bounds.operator_max,
                bounds.markings_max <= MAX_VIRASORO_SCAN_MARKINGS,
                bounds.descendant_max < usize::MAX,
                genus_levels == bounds.genus_max + 1,
                block == curves@.len() * profiles@.len(),
                block >= 1,
                op_start == op_offset * genus_levels * block,
                entries@.len() == op_start + genus * block,
                operator_count * genus_levels * block <= bounds.equation_limit,
                retained_terms == entry_terms_total(entries@),
                entry_terms_total(entries@) <= bounds.total_generated_term_limit,
                retained_terms <= entries@.len() * bounds.generated_term_limit,
                projected == operator_count * genus_levels * block,
                scan_projection(evaluator.spec_theory(), bounds) == Some(projected as nat),
                vacuous_entries_unevaluated(entries@),
                forall|j: int| 0 <= j < profiles@.len() ==> scanned_profile((#[trigger] profiles@[j])@, bounds),
                forall|i: int| 0 <= i < entries@.len() ==> {
                    &&& bounds.operator_min <= (#[trigger] entries@[i]).constraint.operator.index <= operator
                    &&& entries@[i].constraint.sector.genus < genus_levels
                    &&& (i >= op_start ==> entries@[i].constraint.operator.index == operator
                        && entries@[i].constraint.sector.genus < genus)
                    &&& (i < op_start ==> entries@[i].constraint.operator.index < operator)
                    &&& scan_entry_ok(entries@[i], bounds, entries@[i].constraint.operator.index as int, entries@[i].constraint.sector.genus as int)
                },
                forall|i: int, j: int| 0 <= i < j < entries@.len() ==> {
                    ||| (#[trigger] entries@[i]).constraint.operator.index < (#[trigger] entries@[j]).constraint.operator.index
                    ||| (entries@[i].constraint.operator.index == entries@[j].constraint.operator.index
                        && entries@[i].constraint.sector.genus <= entries@[j].constraint.sector.genus)
                },
                forall|op: int, g: int| bounds.operator_min <= op < operator && 0 <= g < genus_levels
                    ==> #[trigger] scanned_sector(entries@, op, g),
                forall|g: int| 0 <= g < genus ==> #[trigger] scanned_sector(entries@, operator as int, g),
                scan_projection(evaluator.spec_theory(), bounds) is Some,
            scan_projection(evaluator.spec_theory(), bounds)->0 <= bounds.equation_limit,
                *theory == evaluator.spec_theory(),
                theory.spec_bounded_admissible_classes(bounds.degree_grading_max) == Ok::<Seq<CurveClass>, GwError>(curves@),
                all == scan_profiles(evaluator.spec_theory(), bounds),
                all.len() == profiles@.len(),
                forall|j: int| 0 <= j < profiles@.len() ==> profile_matches((#[trigger] profiles@[j])@, all[j]),
                forall|o: int, g: int, ci: int, pi: int|
                    0 <= o <= op_offset && 0 <= g < genus_levels && (o < op_offset || g < genus) && 0 <= ci < curves@.len()
                        && 0 <= pi < profiles@.len() ==> scan_cell(
                        #[trigger] entries@[scan_index(o, g, ci, pi, genus_levels as int, curves@.len() as int, profiles@.len() as int)],
                        *evaluator,
                        bounds,
                        bounds.operator_min + o,
                        g,
                        curves@[ci],
                        all[pi],
                    ),
            decreases genus_levels - genus,
        {
            let ghost before = entries@;
            match scan_sector(evaluator, &bounds, operator, genus, &curves, &profiles, &mut entries, &mut retained_terms) {
                Ok(()) => {},
                Err(e) => {
                    proof {
                        if !(exists|ci: int, pi: int|
                            0 <= ci < curves@.len() && 0 <= pi < profiles@.len() && #[trigger] cell_generation_fails(
                                evaluator.spec_theory(),
                                bounds,
                                operator,
                                genus,
                                curves@[ci],
                                profiles@[pi],
                            )) {
                            let gen = bounds.generated_term_limit as int;
                            assert(before.len() + block <= projected) by (nonlinear_arith)
                                requires
                                    before.len() == op_offset * genus_levels * block + genus * block,
                                    projected == operator_count * genus_levels * block,
                                    op_offset < operator_count,
                                    genus < genus_levels,
                                    block >= 1,
                            ;
                            assert(projected * gen >= (before.len() + block) * gen) by (nonlinear_arith)
                                requires
                                    before.len() + block <= projected,
                                    gen >= 0,
                            ;
                        }
                        else {
                            let (ci, pi) = choose|ci: int, pi: int|
                                0 <= ci < curves@.len() && 0 <= pi < profiles@.len() && #[trigger] cell_generation_fails(
                                    evaluator.spec_theory(),
                                    bounds,
                                    operator,
                                    genus,
                                    curves@[ci],
                                    profiles@[pi],
                                );
                            assert(scan_cell_fails(
                                evaluator.spec_theory(),
                                bounds,
                                op_offset as int,
                                genus as int,
                                ci,
                                pi,
                                profiles@[pi],
                            ));
                        }
                    }
                    return Err(e);
                },
            }
            proof {
                assert(entries@.len() == before.len() + block);
                assert(op_start + (genus + 1) * block == op_start + genus * block + block) by (nonlinear_arith);
                let fresh = before.len() as int;
                assert(scan_entry_ok(entries@[fresh], bounds, operator as int, genus as int));
                assert forall|i: int| 0 <= i < entries@.len() implies {
                    &&& bounds.operator_min <= (#[trigger] entries@[i]).constraint.operator.index <= operator
                    &&& entries@[i].constraint.sector.genus < genus_levels
                    &&& (i >= op_start ==> entries@[i].constraint.operator.index == operator
                        && entries@[i].constraint.sector.genus < genus + 1)
                    &&& (i < op_start ==> entries@[i].constraint.operator.index < operator)
                    &&& scan_entry_ok(entries@[i], bounds, entries@[i].constraint.operator.index as int, entries@[i].constraint.sector.genus as int)
                } by {
                    if i < before.len() {
                        assert(entries@[i] == before[i]);
                    } else {
                        assert(scan_entry_ok(entries@[i], bounds, operator as int, genus as int));
                    }
                }
                assert forall|i: int, j: int| 0 <= i < j < entries@.len() implies {
                    ||| (#[trigger] entries@[i]).constraint.operator.index < (#[trigger] entries@[j]).constraint.operator.index
                    ||| (entries@[i].constraint.operator.index == entries@[j].constraint.operator.index
                        && entries@[i].constraint.sector.genus <= entries@[j].constraint.sector.genus)
                } by {
                    if j < before.len() {
                        assert(entries@[i] == before[i] && entries@[j] == before[j]);
                    } else if i < before.len() {
                        assert(entries@[i] == before[i]);
                        assert(scan_entry_ok(entries@[j], bounds, operator as int, genus as int));
                    } else {
                        assert(scan_entry_ok(entries@[i], bounds, operator as int, genus as int));
                        assert(scan_entry_ok(entries@[j], bounds, operator as int, genus as int));
                    }
                }
                assert forall|op: int, g: int| bounds.operator_min <= op < operator && 0 <= g < genus_levels
                    implies #[trigger] scanned_sector(entries@, op, g) by {
                    assert(scanned_sector(before, op, g));
                    let i = choose|i: int| 0 <= i < before.len() && (#[trigger] before[i]).constraint.operator.index == op
                        && before[i].constraint.sector.genus == g;
                    assert(entries@[i] == before[i]);
                }
                assert forall|g: int| 0 <= g < genus + 1 implies #[trigger] scanned_sector(entries@, operator as int, g) by {
                    if g < genus {
                        assert(scanned_sector(before, operator as int, g));
                        let i = choose|i: int| 0 <= i < before.len() && (#[trigger] before[i]).constraint.operator.index == operator
                            && before[i].constraint.sector.genus == g;
                        assert(entries@[i] == before[i]);
                    } else {
                        assert(entries@[fresh].constraint.operator.index == operator);
                    }
                }
            }
            proof {
                let gl = genus_levels as int;
                let nc = curves@.len() as int;
                let np = profiles@.len() as int;
                assert(before.len() == op_offset * gl * (nc * np) + genus * (nc * np));
                assert forall|o: int, g: int, ci: int, pi: int|
                    0 <= o <= op_offset && 0 <= g < genus_levels && (o < op_offset || g < genus + 1) && 0 <= ci < curves@.len()
                        && 0 <= pi < profiles@.len() implies scan_cell(
                        #[trigger] entries@[scan_index(o, g, ci, pi, gl, nc, np)],
                        *evaluator,
                        bounds,
                        bounds.operator_min + o,
                        g,
                        curves@[ci],
                        all[pi],
                    ) by {
                    lemma_scan_index(o, g, ci, pi, gl, nc, np);
                    if o < op_offset || g < genus {
                        assert(o * gl + g < op_offset * gl + genus) by (nonlinear_arith)
                            requires
                                0 <= o <= op_offset,
                                0 <= g < gl,
                                o < op_offset || g < genus,
                                0 <= genus,
                        ;
                        lemma_scan_index_before(o, g, ci, pi, gl, nc, np, op_offset as int, genus as int);
                        assert(entries@[scan_index(o, g, ci, pi, gl, nc, np)] == before[scan_index(o, g, ci, pi, gl, nc, np)]);
                    } else {
                        let idx = before.len() + ci * np + pi;
                        assert(scan_index(o, g, ci, pi, gl, nc, np) == idx);
                        assert(grid_entry(entries@, before.len() as int, np, ci, pi) == entries@[idx]);
                        assert(sector_cell(grid_entry(entries@, before.len() as int, np, ci, pi), *evaluator, bounds, curves@[ci], profiles@[pi]));
                        assert(scan_entry_ok(entries@[idx], bounds, operator as int, genus as int));
                        assert(profile_matches(profiles@[pi]@, all[pi]));
                    }
                }
            }
            genus = genus + 1;
        }
        proof {
            assert((op_offset + 1) * genus_levels * block == op_offset * genus_levels * block + genus_levels * block) by (nonlinear_arith);
            assert forall|op: int, g: int| bounds.operator_min <= op < bounds.operator_min + op_offset + 1 && 0 <= g < genus_levels
                implies #[trigger] scanned_sector(entries@, op, g) by {
                if op < operator {
                } else {
                    assert(op == operator);
                }
            }
        }
        op_offset = op_offset + 1;
    }
    proof {
        assert(entries@.len() == operator_count * genus_levels * block);
        assert(entries@.len() >= 1) by (nonlinear_arith)
            requires
                entries@.len() == operator_count * genus_levels * block,
                operator_count >= 1,
                genus_levels >= 1,
                block >= 1,
        ;
    }
    let report = VirasoroScanReport { bounds, entries };
    proof {
        assert(report.spec_entries() == entries@);
        assert(curves@.len() as int * profiles@.len() as int == block);
        assert(operator_count * genus_levels * curves@.len() * profiles@.len() == operator_count * genus_levels * block)
            by (nonlinear_arith)
            requires
                block == curves@.len() * profiles@.len(),
        ;
        assert(scan_covers(report, *evaluator, bounds));
    }
    Ok(report)
}

} // verus!
