//! Building blocks of Getzler's Virasoro coefficient expansion: the work
//! guards checked before any expansion is materialized, Getzler's brackets,
//! and the labelled expansion of a time coefficient.

use vstd::prelude::*;
use vstd::arithmetic::power::pow;
use crate::constraints::virasoro::ast::{
    correlator_order, correlator_view, lemma_correlator_order_antisymmetric, lemma_sorted_view_unique,
    total_multiplicity, CohomologicalGrading,
    CorrelatorKeyView, ConstraintSector, ConstraintTerm, CorrelatorKey,
    Descendant, DilatonShift, FormulaSource, LinearTerm, PotentialConvention, QuadraticTerm,
    StateSpaceConvention, TermOrigin, TheoryLabel, TimeMonomial, TimeNormalization,
    UnstableConvention, VirasoroConstraint, VirasoroConventions, VirasoroOperator,
};
use crate::foundation::gw_theory::GwTheory;
use crate::foundation::theory::{BasisId, CurveClass, CurveClassSplit, CurveEffectivity, VirasoroOperatorKind};
use crate::order::{int_order, lemma_lex_order_antisymmetric, lex_order, Order};
use crate::constraints::virasoro::keyed::{
    keyed_total, lemma_positive_concat, lemma_same_totals_append, lemma_same_totals_reflexive,
    lemma_same_totals_symmetric, lemma_same_totals_transitive,
    lemma_same_totals_step, lemma_total_accumulate,
    lemma_total_insert, lemma_total_push_zero, lemma_total_replace, positive_values, same_totals,
};
use crate::foundation::error::GwError;
use crate::foundation::rational::{
    lemma_add_congruent, lemma_denominator_product_positive, lemma_mul_congruent, lemma_neg_congruent,
    lemma_same_value_transitive, lemma_sub_congruent, rat_add, rat_mul, rat_neg, rat_of_int, rat_pow,
    rat_sub, rational_text, same_value, Rational, RationalView,
};
use crate::foundation::state_space::{
    anomaly_value, binary_power, check_inverse, dense_basis, identity_matrix, is_inverse_pair, matrix_cells_fit,
    positive_denominators, same_matrix, square, MatrixView, StateSpace, StateSpaceMatrix,
};
use crate::foundation::theory::{BasisElement, Parity};
use crate::text::{push_str, push_string, push_usize, string_from};

verus! {

/// Default upper bound on the unaggregated term expansion of one coefficient.
pub const DEFAULT_GENERATED_TERM_LIMIT: usize = 1_000_000;
/// Explicit work guard for bracket-polynomial and matrix-power generation.
pub const MAX_STANDARD_VIRASORO_OPERATOR_INDEX: usize = 64;
/// Explicit payload guard for labelled correlator keys in one coefficient.
pub const MAX_VIRASORO_MARKINGS: usize = 64;

/// `x + offset`.
pub open spec fn shifted(x: RationalView, offset: nat) -> RationalView {
    rat_add(x, rat_of_int(offset as int))
}

/// The elementary symmetric polynomial `e_j(x, x + 1, ..., x + count - 1)`,
/// by the recurrence `e_j(y_0..y_c) = e_j(y_0..y_{c-1}) + y_c e_{j-1}(y_0..y_{c-1})`.
pub open spec fn elementary(x: RationalView, count: nat, j: nat) -> RationalView
    decreases count,
{
    if j == 0 {
        rat_of_int(1)
    } else if count == 0 {
        rat_of_int(0)
    } else {
        rat_add(
            elementary(x, (count - 1) as nat, j),
            rat_mul(elementary(x, (count - 1) as nat, (j - 1) as nat), shifted(x, (count - 1) as nat)),
        )
    }
}

/// Getzler's bracket `[x]^k_i = e_{k+1-i}(x, x + 1, ..., x + k)`, zero for
/// `i > k + 1`.
pub open spec fn getzler_bracket_value(x: RationalView, k: nat, i: nat) -> RationalView {
    if i > k + 1 {
        rat_of_int(0)
    } else {
        elementary(x, k + 1, (k + 1 - i) as nat)
    }
}

proof fn lemma_elementary_denominator(x: RationalView, count: nat, j: nat)
    requires
        x.1 > 0,
    ensures
        elementary(x, count, j).1 > 0,
    decreases count,
{
    if j > 0 && count > 0 {
        let c1 = (count - 1) as nat;
        lemma_elementary_denominator(x, c1, j);
        lemma_elementary_denominator(x, c1, (j - 1) as nat);
        let s = shifted(x, c1);
        let m = rat_mul(elementary(x, c1, (j - 1) as nat), s);
        lemma_denominator_product_positive(elementary(x, c1, (j - 1) as nat), s);
        lemma_denominator_product_positive(elementary(x, c1, j), m);
    }
}

proof fn lemma_elementary_above(x: RationalView, count: nat, j: nat)
    requires
        j > count,
    ensures
        elementary(x, count, j).0 == 0,
    decreases count,
{
    if count > 0 {
        let c1 = (count - 1) as nat;
        lemma_elementary_above(x, c1, j);
        lemma_elementary_above(x, c1, (j - 1) as nat);
        let e = elementary(x, c1, (j - 1) as nat);
        let s = shifted(x, c1);
        assert(rat_mul(e, s).0 == 0) by (nonlinear_arith)
            requires
                e.0 == 0,
                rat_mul(e, s).0 == e.0 * s.0,
        ;
    }
}

/// One update of the bracket table: `cell + below * value` stands for
/// `e_degree` of one more value when `cell`, `below` and `value` stand for
/// `e_degree`, `e_{degree-1}` and the new value.
proof fn lemma_bracket_step(
    x: RationalView,
    count: nat,
    degree: nat,
    cell: RationalView,
    below: RationalView,
    value: RationalView,
    product: RationalView,
    updated: RationalView,
)
    requires
        x.1 > 0,
        degree >= 1,
        cell.1 > 0,
        below.1 > 0,
        value.1 > 0,
        product.1 > 0,
        same_value(cell, elementary(x, count, degree)),
        same_value(below, elementary(x, count, (degree - 1) as nat)),
        same_value(value, shifted(x, count)),
        same_value(product, rat_mul(below, value)),
        same_value(updated, rat_add(cell, product)),
    ensures
        same_value(updated, elementary(x, count + 1, degree)),
{
    let e_d = elementary(x, count, degree);
    let e_b = elementary(x, count, (degree - 1) as nat);
    let s = shifted(x, count);
    lemma_mul_congruent(below, e_b, value, s);
    lemma_denominator_product_positive(below, value);
    lemma_same_value_transitive(product, rat_mul(below, value), rat_mul(e_b, s));
    lemma_add_congruent(cell, e_d, product, rat_mul(e_b, s));
    lemma_denominator_product_positive(cell, product);
    lemma_same_value_transitive(updated, rat_add(cell, product), rat_add(e_d, rat_mul(e_b, s)));
    assert(elementary(x, count + 1, degree) == rat_add(e_d, rat_mul(e_b, s)));
}

/// A table entry beyond the current count stays zero when one more value is
/// taken in.
proof fn lemma_bracket_untouched(x: RationalView, count: nat, d: nat, cell: RationalView)
    requires
        x.1 > 0,
        cell.1 > 0,
        d > count + 1 || d == 0,
        same_value(cell, elementary(x, count, d)),
    ensures
        same_value(cell, elementary(x, count + 1, d)),
{
    lemma_elementary_denominator(x, count, d);
    if d > 0 {
        lemma_elementary_above(x, count, d);
        lemma_elementary_above(x, count + 1, d);
        lemma_same_value_transitive(cell, elementary(x, count, d), elementary(x, count + 1, d));
    }
}

/// Getzler's `[x]^k_i = e_(k+1-i)(x,x+1,...,x+k)`.
pub fn getzler_bracket(x: Rational, k: usize, i: usize) -> (result: Result<Rational, GwError>)
    ensures
        match result {
            Ok(r) => k + 2 <= usize::MAX || i > k + 1,
            Err(_) => k + 2 > usize::MAX && i <= k + 1,
        },
        result matches Ok(r) ==> same_value(r@, getzler_bracket_value(x@, k as nat, i as nat)),
        result matches Err(e) ==> (e matches GwError::UnsupportedInvariant(m)
            && m@ == "Getzler bracket index overflow"@),
{
    if k == usize::MAX {
        return Err(GwError::UnsupportedInvariant(string_from("Getzler bracket index overflow")));
    }
    let maximum_index = k + 1;
    if i > maximum_index {
        let zero = Rational::zero();
        return Ok(zero);
    }
    let wanted = maximum_index - i;
    if maximum_index == usize::MAX {
        return Err(GwError::UnsupportedInvariant(string_from("Getzler bracket index overflow")));
    }
    let width = k + 2;
    proof {
        use_type_invariant(&x);
    }
    let ghost xv = x@;
    let mut table: Vec<Rational> = Vec::new();
    table.push(Rational::one());
    while table.len() < width
        invariant
            1 <= table@.len() <= width,
            table@[0]@ == rat_of_int(1),
            forall|d: int| 1 <= d < table@.len() ==> #[trigger] table@[d]@ == rat_of_int(0),
        decreases width - table@.len(),
    {
        table.push(Rational::zero());
    }
    let mut offset: usize = 0;
    while offset <= k
        invariant
            xv == x@,
            xv.1 > 0,
            width == k + 2,
            table@.len() == width,
            offset <= k + 1,
            forall|d: int| 0 <= d < width ==> same_value(#[trigger] table@[d]@, elementary(xv, offset as nat, d as nat)),
            forall|d: int| 0 <= d < width ==> (#[trigger] table@[d]@).1 > 0,
        decreases k + 1 - offset,
    {
        let shift = Rational::from_usize(offset);
        let value = x.add(&shift);
        proof {
            use_type_invariant(&shift);
            use_type_invariant(&value);
            assert(same_value(xv, xv));
            lemma_add_congruent(xv, xv, shift@, rat_of_int(offset as int));
            lemma_denominator_product_positive(xv, shift@);
            lemma_same_value_transitive(value@, rat_add(xv, shift@), shifted(xv, offset as nat));
        }
        let ghost before = table@;
        let mut degree: usize = offset + 1;
        while degree > 0
            invariant
                xv.1 > 0,
                width == k + 2,
                offset <= k,
                degree <= offset + 1,
                table@.len() == width,
                before.len() == width,
                value@.1 > 0,
                same_value(value@, shifted(xv, offset as nat)),
                forall|d: int| 0 <= d < width ==> same_value(#[trigger] before[d]@, elementary(xv, offset as nat, d as nat)),
                forall|d: int| 0 <= d <= degree ==> #[trigger] table@[d] == before[d],
                forall|d: int| offset + 1 < d < width ==> #[trigger] table@[d] == before[d],
                forall|d: int| degree < d <= offset + 1 ==> same_value(#[trigger] table@[d]@,
                    elementary(xv, offset as nat + 1, d as nat)),
                forall|d: int| 0 <= d < width ==> (#[trigger] table@[d]@).1 > 0,
                forall|d: int| 0 <= d < width ==> (#[trigger] before[d]@).1 > 0,
            decreases degree,
        {
            let product = table[degree - 1].mul(&value);
            let updated = table[degree].add(&product);
            proof {
                let cell = table@[degree as int];
                let below = table@[degree - 1];
                use_type_invariant(&product);
                use_type_invariant(&updated);
                lemma_bracket_step(xv, offset as nat, degree as nat, cell@, below@, value@, product@, updated@);
            }
            table.set(degree, updated);
            degree = degree - 1;
        }
        proof {
            assert forall|d: int| 0 <= d < width implies same_value(#[trigger] table@[d]@,
                elementary(xv, offset as nat + 1, d as nat)) by {
                if d == 0 || d > offset + 1 {
                    let cell = table@[d];
                    lemma_bracket_untouched(xv, offset as nat, d as nat, cell@);
                }
            }
        }
        offset = offset + 1;
    }
    let result = table[wanted].clone();
    Ok(result)
}

/// The number of pairs of second-order operator indices, `k (k + 1) / 2`.
pub open spec fn second_index_pairs(k: nat) -> nat {
    (k * (k + 1)) / 2
}

/// Slots of the disconnected (degree-splitting) part: each genus split, each
/// admissible curve split and each labelled marking partition.
pub open spec fn disconnected_slots(k: nat, genus: nat, markings: nat, splits: nat) -> int {
    if splits == 0 || second_index_pairs(k) == 0 {
        0
    } else {
        (genus + 1) * (splits * pow(2, markings))
    }
}

pub open spec fn linear_slots(k: nat, markings: nat, size: nat) -> int {
    ((k + 2) * size * (markings + 1)) as int
}

pub open spec fn second_slots(k: nat, genus: nat, markings: nat, size: nat, splits: nat) -> int {
    second_index_pairs(k) * (size * size) * ((if genus > 0 { 1int } else { 0 }) + disconnected_slots(
        k,
        genus,
        markings,
        splits,
    ))
}

/// Upper bound on the unaggregated terms of one coefficient of `L_k`.
pub open spec fn term_estimate(k: nat, genus: nat, markings: nat, size: nat, splits: nat) -> int {
    linear_slots(k, markings, size) + second_slots(k, genus, markings, size, splits) + 2
}

/// Whether every intermediate quantity of the estimate, computed in the
/// order below, fits in `usize`.
pub open spec fn term_estimate_fits(k: nat, genus: nat, markings: nat, size: nat, splits: nat) -> bool {
    let m = usize::MAX as int;
    let pairs = second_index_pairs(k);
    let partial = (if genus > 0 { 1int } else { 0 }) + disconnected_slots(k, genus, markings, splits);
    &&& k + 2 <= m
    &&& (k + 2) * size <= m
    &&& markings + 1 <= m
    &&& linear_slots(k, markings, size) <= m
    &&& k * (k + 1) <= m
    &&& size * size <= m
    &&& (splits != 0 && pairs != 0) ==> {
        &&& pow(2, markings) <= m
        &&& genus + 1 <= m
        &&& splits * pow(2, markings) <= m
        &&& disconnected_slots(k, genus, markings, splits) <= m
    }
    &&& partial <= m
    &&& pairs * (size * size) <= m
    &&& second_slots(k, genus, markings, size, splits) <= m
    &&& linear_slots(k, markings, size) + second_slots(k, genus, markings, size, splits) <= m
    &&& term_estimate(k, genus, markings, size, splits) <= m
}

/// `2^markings`, or `None` when it does not fit in `usize`.
fn checked_power_of_two(markings: usize) -> (p: Option<usize>)
    ensures
        p is Some <==> pow(2, markings as nat) <= usize::MAX,
        p matches Some(v) ==> v == pow(2, markings as nat),
{
    let mut value: usize = 1;
    let mut i: usize = 0;
    proof {
        vstd::arithmetic::power::lemma_pow0(2);
    }
    while i < markings
        invariant
            i <= markings,
            value == pow(2, i as nat),
        decreases markings - i,
    {
        proof {
            vstd::arithmetic::power::lemma_pow_adds(2, i as nat, 1);
            vstd::arithmetic::power::lemma_pow1(2);
        }
        match value.checked_mul(2) {
            Some(next) => value = next,
            None => {
                proof {
                    vstd::arithmetic::power::lemma_pow_increases(2, (i + 1) as nat, markings as nat);
                }
                return None;
            },
        }
        i = i + 1;
    }
    Some(value)
}

/// Refuse a coefficient of `L_k` whose unaggregated expansion could exceed
/// `term_limit`, before any labelled partition or matrix power is built.
pub fn enforce_term_budget(
    k: usize,
    genus: usize,
    markings: usize,
    state_space_size: usize,
    degree_splits: usize,
    term_limit: usize,
) -> (result: Result<(), GwError>)
    ensures
        result is Ok <==> term_estimate_fits(k as nat, genus as nat, markings as nat, state_space_size as nat, degree_splits as nat)
            && term_estimate(k as nat, genus as nat, markings as nat, state_space_size as nat, degree_splits as nat) <= term_limit,
        result matches Err(GwError::UnsupportedInvariant(_)) <==> !term_estimate_fits(k as nat, genus as nat, markings as nat, state_space_size as nat, degree_splits as nat),
        result matches Err(GwError::ResourceLimit { operation, requested, limit }) ==> {
            &&& operation@ == "Virasoro coefficient expansion upper bound"@
            &&& requested == term_estimate(k as nat, genus as nat, markings as nat, state_space_size as nat, degree_splits as nat)
            &&& limit == term_limit
        },
        result is Err ==> result matches Err(GwError::UnsupportedInvariant(_)) || result matches Err(GwError::ResourceLimit { .. }),
{
    let ghost fits = term_estimate_fits(k as nat, genus as nat, markings as nat, state_space_size as nat, degree_splits as nat);
    let size = state_space_size;
    if k > usize::MAX - 2 {
        return Err(GwError::UnsupportedInvariant(string_from("Virasoro operator index is too large")));
    }
    let operator_width = k + 2;
    let width_size = match operator_width.checked_mul(size) {
        Some(v) => v,
        None => return Err(GwError::UnsupportedInvariant(string_from("Virasoro term estimate overflow"))),
    };
    if markings == usize::MAX {
        return Err(GwError::UnsupportedInvariant(string_from("Virasoro marking count is too large")));
    }
    let linear = match width_size.checked_mul(markings + 1) {
        Some(v) => v,
        None => return Err(GwError::UnsupportedInvariant(string_from("Virasoro term estimate overflow"))),
    };
    let pair_product = match k.checked_mul(k + 1) {
        Some(v) => v,
        None => return Err(GwError::UnsupportedInvariant(string_from("Virasoro term estimate overflow"))),
    };
    let second_index_pairs = pair_product / 2;
    let basis_pairs = match size.checked_mul(size) {
        Some(v) => v,
        None => return Err(GwError::UnsupportedInvariant(string_from("Virasoro term estimate overflow"))),
    };
    let genus_reduction: usize = if genus > 0 { 1 } else { 0 };
    let disconnected: usize = if degree_splits == 0 || second_index_pairs == 0 {
        0
    } else {
        let marking_partitions = match checked_power_of_two(markings) {
            Some(v) => v,
            None => return Err(GwError::UnsupportedInvariant(string_from("too many markings for labelled partitions"))),
        };
        if genus == usize::MAX {
            return Err(GwError::UnsupportedInvariant(string_from("Virasoro genus is too large")));
        }
        let split_partitions = match degree_splits.checked_mul(marking_partitions) {
            Some(v) => v,
            None => return Err(GwError::UnsupportedInvariant(string_from("Virasoro term estimate overflow"))),
        };
        match (genus + 1).checked_mul(split_partitions) {
            Some(v) => v,
            None => return Err(GwError::UnsupportedInvariant(string_from("Virasoro term estimate overflow"))),
        }
    };
    let genus_and_splitting = match genus_reduction.checked_add(disconnected) {
        Some(v) => v,
        None => return Err(GwError::UnsupportedInvariant(string_from("Virasoro term estimate overflow"))),
    };
    let pair_slots = match second_index_pairs.checked_mul(basis_pairs) {
        Some(v) => v,
        None => return Err(GwError::UnsupportedInvariant(string_from("Virasoro term estimate overflow"))),
    };
    let second = match pair_slots.checked_mul(genus_and_splitting) {
        Some(v) => v,
        None => return Err(GwError::UnsupportedInvariant(string_from("Virasoro term estimate overflow"))),
    };
    let both = match linear.checked_add(second) {
        Some(v) => v,
        None => return Err(GwError::UnsupportedInvariant(string_from("Virasoro term estimate overflow"))),
    };
    let estimate = match both.checked_add(2) {
        Some(v) => v,
        None => return Err(GwError::UnsupportedInvariant(string_from("Virasoro term estimate overflow"))),
    };
    if estimate > term_limit {
        return Err(GwError::ResourceLimit {
            operation: string_from("Virasoro coefficient expansion upper bound"),
            requested: estimate,
            limit: term_limit,
        });
    }
    Ok(())
}

/// Every descendant of the monomial repeated by its multiplicity, in factor
/// order: the labelled time derivatives of the coefficient.
pub open spec fn expanded(f: Seq<(Descendant, usize)>) -> Seq<Descendant>
    decreases f.len(),
{
    if f.len() == 0 {
        Seq::empty()
    } else {
        expanded(f.drop_last()) + Seq::new(f.last().1 as nat, |_i: int| f.last().0)
    }
}

/// Expanding a factor list gives as many markings as its total multiplicity.
proof fn lemma_expanded_len(f: Seq<(Descendant, usize)>)
    ensures
        expanded(f).len() == total_multiplicity(f),
    decreases f.len(),
{
    if f.len() > 0 {
        lemma_expanded_len(f.drop_last());
    }
}

/// The labelled insertions whose derivatives extract `time`.
pub fn expand_time_coefficient(time: &TimeMonomial) -> (result: Result<Vec<Descendant>, GwError>)
    ensures
        result is Ok <==> total_multiplicity(time@) <= usize::MAX,
        result matches Ok(v) ==> v@ == expanded(time@),
        result matches Err(e) ==> (e matches GwError::AlgebraFailure(m)
            && m@ == "time-coefficient marking count overflow"@),
{
    if time.total_degree().is_none() {
        return Err(GwError::AlgebraFailure(string_from("time-coefficient marking count overflow")));
    }
    let factors = time.factors();
    let mut out: Vec<Descendant> = Vec::new();
    let mut i: usize = 0;
    while i < factors.len()
        invariant
            i <= factors@.len(),
            factors@ == time@,
            out@ == expanded(factors@.take(i as int)),
        decreases factors@.len() - i,
    {
        let (descendant, multiplicity) = factors[i];
        let ghost start = out@;
        let mut j: usize = 0;
        while j < multiplicity
            invariant
                j <= multiplicity,
                out@ == start + Seq::new(j as nat, |_i: int| descendant),
            decreases multiplicity - j,
        {
            out.push(descendant);
            proof {
                assert(start + Seq::new((j + 1) as nat, |_i: int| descendant) =~= (start + Seq::new(
                    j as nat,
                    |_i: int| descendant,
                )).push(descendant));
            }
            j = j + 1;
        }
        proof {
            assert(factors@.take(i + 1).drop_last() =~= factors@.take(i as int));
        }
        i = i + 1;
    }
    proof {
        assert(factors@.take(factors@.len() as int) =~= factors@);
    }
    Ok(out)
}

/// Dense basis ids and only even basis elements.
pub open spec fn even_dense_basis(basis: Seq<BasisElement>) -> bool {
    &&& dense_basis(basis)
    &&& forall|i: int| 0 <= i < basis.len() ==> (#[trigger] basis[i]).parity == Parity::Even
}

/// The grading conditions on one pair `(left, right)` of basis elements: the
/// pairing is symmetric, a nonzero pairing has complementary degrees, and
/// `c_1` raises the degree by one.
pub open spec fn pair_grading_ok(basis: Seq<BasisElement>, g: MatrixView, c: MatrixView, d: nat, l: int, r: int) -> bool {
    &&& same_value(g[l][r], g[r][l])
    &&& (g[l][r].0 != 0 ==> basis[l].hodge_p_degree + basis[r].hodge_p_degree == d
        && basis[l].complex_codimension + basis[r].complex_codimension == d)
    &&& (c[r][l].0 != 0 ==> basis[l].hodge_p_degree + 1 == basis[r].hodge_p_degree
        && basis[l].complex_codimension + 1 == basis[r].complex_codimension)
}

/// `sum_{m < count} c[m][l] g[m][r]`: `c_1` with its output index lowered.
pub open spec fn lowered_sum(c: MatrixView, g: MatrixView, l: int, r: int, count: nat) -> RationalView
    decreases count,
{
    if count == 0 {
        rat_of_int(0)
    } else {
        rat_add(lowered_sum(c, g, l, r, (count - 1) as nat), rat_mul(c[count - 1][l], g[count - 1][r]))
    }
}

/// `(p - d/2)^2 - 1/4`.
pub open spec fn grading_summand(p: nat, d: nat) -> RationalView {
    rat_sub(rat_pow(rat_sub(rat_of_int(p as int), (d as int, 2)), 2), (1, 4))
}

/// The supertrace `sum (+/-) ((p - d/2)^2 - 1/4)` over the basis.
pub open spec fn grading_supertrace(basis: Seq<BasisElement>, d: nat) -> RationalView
    decreases basis.len(),
{
    if basis.len() == 0 {
        rat_of_int(0)
    } else {
        let summand = grading_summand(basis.last().hodge_p_degree as nat, d);
        rat_add(
            grading_supertrace(basis.drop_last(), d),
            match basis.last().parity {
                Parity::Even => summand,
                Parity::Odd => rat_neg(summand),
            },
        )
    }
}

/// `-1/4` times the grading supertrace: the genus-one anomaly the grading
/// operator predicts.
pub open spec fn grading_anomaly(basis: Seq<BasisElement>, d: nat) -> RationalView {
    rat_mul((-1, 4), grading_supertrace(basis, d))
}

/// The checks made on the canonical-theory data before the gradings pass:
/// dense even basis, pairing and `c_1` present and of the basis size, the
/// inverse pairing an inverse, and the unit in the basis with degree zero.
pub open spec fn compact_data_before_grading(state: StateSpace) -> bool {
    let basis = state.basis@;
    let n = basis.len();
    &&& even_dense_basis(basis)
    &&& state.pairing is Some
    &&& state.c1_action is Some
    &&& state.pairing->0.metric@.len() == n
    &&& state.pairing->0.inverse@.len() == n
    &&& state.c1_action->0@.len() == n
    &&& matrix_cells_fit(n)
    &&& is_inverse_pair(state.pairing->0.metric@, state.pairing->0.inverse@)
    &&& state.unit.0 < n
    &&& basis[state.unit.0 as int].hodge_p_degree == 0
    &&& basis[state.unit.0 as int].complex_codimension == 0
}

/// Every pair of basis elements has a symmetric pairing, and pairing and
/// `c_1` respect the grading; a degree sum that overflows fails.
pub open spec fn pair_gradings_ok(state: StateSpace, d: nat) -> bool {
    let n = state.basis@.len();
    forall|l: int, r: int| 0 <= l < n && 0 <= r < n ==> #[trigger] pair_grading_ok(
        state.basis@,
        state.pairing->0.metric@,
        state.c1_action->0@,
        d,
        l,
        r,
    )
}

/// The canonical-theory data the standard compact Getzler operator needs.
pub open spec fn compact_virasoro_data_valid(state: StateSpace, d: nat, anomaly: Option<RationalView>) -> bool {
    let basis = state.basis@;
    let n = basis.len();
    &&& even_dense_basis(basis)
    &&& state.pairing is Some
    &&& state.c1_action is Some
    &&& state.pairing->0.metric@.len() == n
    &&& state.pairing->0.inverse@.len() == n
    &&& state.c1_action->0@.len() == n
    &&& matrix_cells_fit(n)
    &&& is_inverse_pair(state.pairing->0.metric@, state.pairing->0.inverse@)
    &&& state.unit.0 < n
    &&& basis[state.unit.0 as int].hodge_p_degree == 0
    &&& basis[state.unit.0 as int].complex_codimension == 0
    &&& forall|l: int, r: int| 0 <= l < n && 0 <= r < n ==> #[trigger] pair_grading_ok(
        basis,
        state.pairing->0.metric@,
        state.c1_action->0@,
        d,
        l,
        r,
    )
    &&& forall|l: int, r: int| 0 <= l < n && 0 <= r < n ==> same_value(
        #[trigger] lowered_sum(state.c1_action->0@, state.pairing->0.metric@, l, r, n),
        lowered_sum(state.c1_action->0@, state.pairing->0.metric@, r, l, n),
    )
    &&& anomaly is Some
    &&& same_value(anomaly->0, grading_anomaly(basis, d))
}

proof fn lemma_lowered_denominator(c: MatrixView, g: MatrixView, l: int, r: int, count: nat)
    requires
        square(c),
        square(g),
        c.len() == g.len(),
        positive_denominators(c),
        positive_denominators(g),
        0 <= l < c.len(),
        0 <= r < c.len(),
        count <= c.len(),
    ensures
        lowered_sum(c, g, l, r, count).1 > 0,
    decreases count,
{
    if count > 0 {
        let m = count - 1;
        lemma_lowered_denominator(c, g, l, r, (count - 1) as nat);
        assert(c[m][l].1 > 0);
        assert(g[m][r].1 > 0);
        lemma_denominator_product_positive(c[m][l], g[m][r]);
        lemma_denominator_product_positive(lowered_sum(c, g, l, r, (count - 1) as nat), rat_mul(c[m][l], g[m][r]));
    }
}

proof fn lemma_zero_term(acc: RationalView, s: RationalView, a: RationalView, b: RationalView)
    requires
        same_value(acc, s),
        a.0 == 0 || b.0 == 0,
    ensures
        same_value(acc, rat_add(s, rat_mul(a, b))),
{
    assert(acc.0 * (s.1 * (a.1 * b.1)) == (s.0 * (a.1 * b.1) + (a.0 * b.0) * s.1) * acc.1) by (nonlinear_arith)
        requires
            acc.0 * s.1 == s.0 * acc.1,
            a.0 == 0 || b.0 == 0,
    ;
}

/// `sum_m c1[m][left] metric[m][right]`, skipping zero factors.
fn lowered_value(c1: &StateSpaceMatrix, metric: &StateSpaceMatrix, left: usize, right: usize) -> (v: Rational)
    requires
        c1@.len() == metric@.len(),
        left < c1@.len(),
        right < c1@.len(),
    ensures
        same_value(v@, lowered_sum(c1@, metric@, left as int, right as int, c1@.len())),
{
    let size = c1.size();
    let _ = metric.size();
    let mut value = Rational::zero();
    let mut middle: usize = 0;
    while middle < size
        invariant
            size == c1@.len(),
            size == metric@.len(),
            square(c1@),
            square(metric@),
            left < size,
            right < size,
            middle <= size,
            same_value(value@, lowered_sum(c1@, metric@, left as int, right as int, middle as nat)),
        decreases size - middle,
    {
        let coefficient = c1.entry(middle, left);
        let pairing = metric.entry(middle, right);
        if !coefficient.is_zero() && !pairing.is_zero() {
            let product = coefficient.mul(pairing);
            let next = value.add(&product);
            proof {
                use_type_invariant(&value);
                use_type_invariant(&product);
                lemma_add_congruent(
                    value@,
                    lowered_sum(c1@, metric@, left as int, right as int, middle as nat),
                    product@,
                    rat_mul(coefficient@, pairing@),
                );
                lemma_denominator_product_positive(value@, product@);
                lemma_same_value_transitive(
                    next@,
                    rat_add(value@, product@),
                    lowered_sum(c1@, metric@, left as int, right as int, middle as nat + 1),
                );
            }
            value = next;
        } else {
            proof {
                lemma_zero_term(
                    value@,
                    lowered_sum(c1@, metric@, left as int, right as int, middle as nat),
                    coefficient@,
                    pairing@,
                );
            }
        }
        middle = middle + 1;
    }
    value
}

/// `-1/4 sum (+/-) ((p - d/2)^2 - 1/4)` over the basis.
fn compute_grading_anomaly(basis: &Vec<BasisElement>, dimension: usize) -> (a: Rational)
    ensures
        same_value(a@, grading_anomaly(basis@, dimension as nat)),
{
    let half_dimension = Rational::new(dimension as i128, 2);
    let quarter = Rational::new(1, 4);
    let mut supertrace = Rational::zero();
    let mut i: usize = 0;
    while i < basis.len()
        invariant
            i <= basis@.len(),
            same_value(half_dimension@, (dimension as int, 2)),
            same_value(quarter@, (1, 4)),
            same_value(supertrace@, grading_supertrace(basis@.take(i as int), dimension as nat)),
        decreases basis@.len() - i,
    {
        let p = basis[i].hodge_p_degree;
        let degree = Rational::from_usize(p);
        let mu = degree.sub(&half_dimension);
        let squared = mu.pow_usize(2);
        let summand = squared.sub(&quarter);
        let signed = match basis[i].parity {
            Parity::Even => summand.clone(),
            Parity::Odd => summand.neg(),
        };
        let next = supertrace.add(&signed);
        proof {
            let d = dimension as nat;
            let mu_spec = rat_sub(rat_of_int(p as int), (d as int, 2));
            use_type_invariant(&degree);
            use_type_invariant(&half_dimension);
            use_type_invariant(&mu);
            use_type_invariant(&squared);
            use_type_invariant(&quarter);
            use_type_invariant(&summand);
            use_type_invariant(&signed);
            use_type_invariant(&supertrace);
            lemma_sub_congruent(degree@, rat_of_int(p as int), half_dimension@, (d as int, 2));
            lemma_denominator_product_positive(degree@, half_dimension@);
            lemma_same_value_transitive(mu@, rat_sub(degree@, half_dimension@), mu_spec);
            lemma_square_congruent(mu@, mu_spec);
            vstd::arithmetic::power::lemma_pow_positive(mu@.1, 2);
            lemma_same_value_transitive(squared@, rat_pow(mu@, 2), rat_pow(mu_spec, 2));
            lemma_sub_congruent(squared@, rat_pow(mu_spec, 2), quarter@, (1, 4));
            lemma_denominator_product_positive(squared@, quarter@);
            lemma_same_value_transitive(summand@, rat_sub(squared@, quarter@), grading_summand(p as nat, d));
            let s = grading_summand(p as nat, d);
            let expected = match basis@[i as int].parity {
                Parity::Even => s,
                Parity::Odd => rat_neg(s),
            };
            if basis@[i as int].parity == Parity::Odd {
                assert((-summand@.0) * s.1 == (-s.0) * summand@.1) by (nonlinear_arith)
                    requires
                        summand@.0 * s.1 == s.0 * summand@.1,
                ;
                lemma_same_value_transitive(signed@, rat_neg(summand@), rat_neg(s));
            }
            assert(same_value(signed@, expected));
            lemma_add_congruent(supertrace@, grading_supertrace(basis@.take(i as int), d), signed@, expected);
            lemma_denominator_product_positive(supertrace@, signed@);
            assert(basis@.take(i + 1).drop_last() =~= basis@.take(i as int));
            assert(basis@.take(i + 1).last() == basis@[i as int]);
            lemma_same_value_transitive(
                next@,
                rat_add(supertrace@, signed@),
                grading_supertrace(basis@.take(i + 1), d),
            );
        }
        supertrace = next;
        i = i + 1;
    }
    let factor = Rational::new(-1, 4);
    let a = factor.mul(&supertrace);
    proof {
        assert(basis@.take(basis@.len() as int) =~= basis@);
        use_type_invariant(&factor);
        use_type_invariant(&supertrace);
        lemma_mul_congruent(factor@, (-1, 4), supertrace@, grading_supertrace(basis@, dimension as nat));
        lemma_denominator_product_positive(factor@, supertrace@);
        lemma_same_value_transitive(a@, rat_mul(factor@, supertrace@), grading_anomaly(basis@, dimension as nat));
    }
    a
}

proof fn lemma_supertrace_denominator(basis: Seq<BasisElement>, d: nat)
    ensures
        grading_supertrace(basis, d).1 > 0,
    decreases basis.len(),
{
    if basis.len() > 0 {
        lemma_supertrace_denominator(basis.drop_last(), d);
        let p = basis.last().hodge_p_degree as nat;
        let mu = rat_sub(rat_of_int(p as int), (d as int, 2));
        assert(mu.1 == 2);
        vstd::arithmetic::power::lemma_pow_positive(mu.1, 2);
        let sq = rat_pow(mu, 2);
        let summand = grading_summand(p, d);
        assert(summand.1 == sq.1 * 4);
        assert(summand.1 > 0) by (nonlinear_arith)
            requires
                summand.1 == sq.1 * 4,
                sq.1 > 0,
        ;
        lemma_denominator_product_positive(grading_supertrace(basis.drop_last(), d), summand);
    }
}

/// Squaring respects equality of fractions.
proof fn lemma_square_congruent(a: RationalView, b: RationalView)
    requires
        same_value(a, b),
    ensures
        same_value(rat_pow(a, 2), rat_pow(b, 2)),
{
    vstd::arithmetic::power::lemma_pow1(a.0);
    vstd::arithmetic::power::lemma_pow1(a.1);
    vstd::arithmetic::power::lemma_pow1(b.0);
    vstd::arithmetic::power::lemma_pow1(b.1);
    vstd::arithmetic::power::lemma_pow_adds(a.0, 1, 1);
    vstd::arithmetic::power::lemma_pow_adds(a.1, 1, 1);
    vstd::arithmetic::power::lemma_pow_adds(b.0, 1, 1);
    vstd::arithmetic::power::lemma_pow_adds(b.1, 1, 1);
    lemma_mul_congruent(a, b, a, b);
}

/// The grading conditions on every pair of basis elements.
fn check_pair_grading(
    basis: &Vec<BasisElement>,
    metric: &StateSpaceMatrix,
    c1: &StateSpaceMatrix,
    dimension: usize,
) -> (result: Result<(), GwError>)
    requires
        metric@.len() == basis@.len(),
        c1@.len() == basis@.len(),
    ensures
        result is Ok <==> forall|l: int, r: int| 0 <= l < basis@.len() && 0 <= r < basis@.len()
            ==> #[trigger] pair_grading_ok(basis@, metric@, c1@, dimension as nat, l, r),
        result matches Err(e) ==> e is ConventionMismatch,
{
    let size = basis.len();
    let _ = metric.size();
    let _ = c1.size();
    let ghost d = dimension as nat;
    let mut left: usize = 0;
    while left < size
        invariant
            size == basis@.len(),
            size == metric@.len(),
            size == c1@.len(),
            square(metric@),
            square(c1@),
            d == dimension,
            left <= size,
            forall|l: int, r: int| 0 <= l < left && 0 <= r < size ==> #[trigger] pair_grading_ok(basis@, metric@, c1@, d, l, r),
        decreases size - left,
    {
        let mut right: usize = 0;
        while right < size
            invariant
                size == basis@.len(),
                size == metric@.len(),
                size == c1@.len(),
                square(metric@),
                square(c1@),
                d == dimension,
                left < size,
                right <= size,
                forall|l: int, r: int| 0 <= l < left && 0 <= r < size ==> #[trigger] pair_grading_ok(basis@, metric@, c1@, d, l, r),
                forall|r: int| 0 <= r < right ==> #[trigger] pair_grading_ok(basis@, metric@, c1@, d, left as int, r),
            decreases size - right,
        {
            let pairing = metric.entry(left, right);
            let transposed = metric.entry(right, left);
            let lower = &basis[left];
            let upper = &basis[right];
            if !pairing.equals(transposed) {
                proof {
                    assert(!pair_grading_ok(basis@, metric@, c1@, d, left as int, right as int));
                }
                return Err(
                    GwError::ConventionMismatch(
                        string_from("Poincare pairing must be symmetric in the even-state-space convention"),
                    ),
                );
            }
            if !pairing.is_zero() {
                let hodge_ok = match lower.hodge_p_degree.checked_add(upper.hodge_p_degree) {
                    Some(total) => total == dimension,
                    None => false,
                };
                let codimension_ok = match lower.complex_codimension.checked_add(upper.complex_codimension) {
                    Some(total) => total == dimension,
                    None => false,
                };
                if !hodge_ok || !codimension_ok {
                    proof {
                        assert(!pair_grading_ok(basis@, metric@, c1@, d, left as int, right as int));
                    }
                    return Err(
                        GwError::ConventionMismatch(string_from("nonzero Poincare pairing violates the complex grading")),
                    );
                }
            }
            let action = c1.entry(right, left);
            if !action.is_zero() {
                let hodge_ok = match lower.hodge_p_degree.checked_add(1) {
                    Some(raised) => raised == upper.hodge_p_degree,
                    None => false,
                };
                let codimension_ok = match lower.complex_codimension.checked_add(1) {
                    Some(raised) => raised == upper.complex_codimension,
                    None => false,
                };
                if !hodge_ok || !codimension_ok {
                    proof {
                        assert(!pair_grading_ok(basis@, metric@, c1@, d, left as int, right as int));
                    }
                    return Err(
                        GwError::ConventionMismatch(string_from("cup product by c1 does not raise complex degree by one")),
                    );
                }
            }
            proof {
                assert(pair_grading_ok(basis@, metric@, c1@, d, left as int, right as int));
            }
            right = right + 1;
        }
        left = left + 1;
    }
    Ok(())
}

/// Whether `c_1` with its output index lowered by the pairing is symmetric.
fn lowered_c1_is_symmetric(c1: &StateSpaceMatrix, metric: &StateSpaceMatrix) -> (symmetric: bool)
    requires
        c1@.len() == metric@.len(),
    ensures
        symmetric == forall|l: int, r: int| 0 <= l < c1@.len() && 0 <= r < c1@.len() ==> same_value(
            #[trigger] lowered_sum(c1@, metric@, l, r, c1@.len()),
            lowered_sum(c1@, metric@, r, l, c1@.len()),
        ),
{
    let size = c1.size();
    let _ = metric.size();
    let mut left: usize = 0;
    while left < size
        invariant
            size == c1@.len(),
            size == metric@.len(),
            square(c1@),
            square(metric@),
            positive_denominators(c1@),
            positive_denominators(metric@),
            left <= size,
            forall|l: int, r: int| 0 <= l < left && 0 <= r < size ==> same_value(
                #[trigger] lowered_sum(c1@, metric@, l, r, size as nat),
                lowered_sum(c1@, metric@, r, l, size as nat),
            ),
        decreases size - left,
    {
        let mut right: usize = 0;
        while right < size
            invariant
                size == c1@.len(),
                size == metric@.len(),
                square(c1@),
                square(metric@),
                positive_denominators(c1@),
                positive_denominators(metric@),
                left < size,
                right <= size,
                forall|l: int, r: int| 0 <= l < left && 0 <= r < size ==> same_value(
                    #[trigger] lowered_sum(c1@, metric@, l, r, size as nat),
                    lowered_sum(c1@, metric@, r, l, size as nat),
                ),
                forall|r: int| 0 <= r < right ==> same_value(
                    #[trigger] lowered_sum(c1@, metric@, left as int, r, size as nat),
                    lowered_sum(c1@, metric@, r, left as int, size as nat),
                ),
            decreases size - right,
        {
            let forward = lowered_value(c1, metric, left, right);
            let backward = lowered_value(c1, metric, right, left);
            let equal = forward.equals(&backward);
            proof {
                use_type_invariant(&forward);
                use_type_invariant(&backward);
                let s_lr = lowered_sum(c1@, metric@, left as int, right as int, size as nat);
                let s_rl = lowered_sum(c1@, metric@, right as int, left as int, size as nat);
                lemma_lowered_denominator(c1@, metric@, left as int, right as int, size as nat);
                lemma_lowered_denominator(c1@, metric@, right as int, left as int, size as nat);
                if equal {
                    lemma_same_value_transitive(s_lr, forward@, backward@);
                    lemma_same_value_transitive(s_lr, backward@, s_rl);
                } else {
                    if same_value(s_lr, s_rl) {
                        lemma_same_value_transitive(forward@, s_lr, s_rl);
                        lemma_same_value_transitive(forward@, s_rl, backward@);
                    }
                }
            }
            if !equal {
                return false;
            }
            right = right + 1;
        }
        left = left + 1;
    }
    true
}

/// The anomaly a canonical theory reports, as a fraction.
pub open spec fn anomaly_view(anomaly: Option<Rational>) -> Option<RationalView> {
    match anomaly {
        Some(a) => Some(a@),
        None => None,
    }
}

/// Check the canonical-theory data required by the standard compact Getzler
/// operator: a dense even basis, a pairing with a verified inverse, the `c_1`
/// action, a unit of degree zero, the complex grading of the pairing and of
/// `c_1`, self-adjointness of `c_1`, and agreement of the characteristic
/// genus-one anomaly with the grading identity.
pub fn validate_compact_virasoro_data(
    state: &StateSpace,
    dimension: usize,
    characteristic_anomaly: Option<Rational>,
) -> (result: Result<(), GwError>)
    ensures
        result is Ok <==> compact_virasoro_data_valid(*state, dimension as nat, anomaly_view(characteristic_anomaly)),
        !dense_basis(state.basis@) ==> (result matches Err(GwError::ConventionMismatch(m))
            && m@ == "Virasoro basis ids must be dense and agree with basis order"@),
        dense_basis(state.basis@) && !even_dense_basis(state.basis@) ==> (result matches Err(
            GwError::UnsupportedInvariant(m),
        ) && m@ == "the current Virasoro correlator key supports even state spaces only; Koszul signs are not represented"@),
        even_dense_basis(state.basis@) && state.pairing is None ==> (result matches Err(
            GwError::UnsupportedInvariant(m),
        ) && m@
            == "standard compact Virasoro generation requires the theory's Poincare/twisted pairing and inverse; local twists require the QRR-conjugated operator"@),
        even_dense_basis(state.basis@) && state.pairing is Some && state.c1_action is None ==> (result matches Err(
            GwError::UnsupportedInvariant(m),
        ) && m@ == "standard compact Virasoro generation requires cup product by c1(TX)"@),
        compact_data_before_grading(*state) && !pair_gradings_ok(*state, dimension as nat) ==> (result matches Err(
            GwError::ConventionMismatch(_),
        )),
{
    let basis = &state.basis;
    let size = basis.len();
    let mut index: usize = 0;
    while index < size
        invariant
            basis@ == state.basis@,
            size == basis@.len(),
            index <= size,
            forall|i: int| 0 <= i < index ==> (#[trigger] basis@[i]).id == crate::foundation::theory::BasisId(i as usize),
        decreases size - index,
    {
        if basis[index].id.0 != index {
            proof {
                assert(basis@[index as int].id != crate::foundation::theory::BasisId(index));
            }
            return Err(
                GwError::ConventionMismatch(string_from("Virasoro basis ids must be dense and agree with basis order")),
            );
        }
        index = index + 1;
    }
    index = 0;
    while index < size
        invariant
            basis@ == state.basis@,
            size == basis@.len(),
            index <= size,
            dense_basis(basis@),
            forall|i: int| 0 <= i < index ==> (#[trigger] basis@[i]).parity == Parity::Even,
        decreases size - index,
    {
        match basis[index].parity {
            Parity::Odd => {
                proof {
                    assert(basis@[index as int].parity == Parity::Odd);
                }
                return Err(
                    GwError::UnsupportedInvariant(
                        string_from(
                            "the current Virasoro correlator key supports even state spaces only; Koszul signs are not represented",
                        ),
                    ),
                );
            },
            Parity::Even => {},
        }
        index = index + 1;
    }
    let pairing = match &state.pairing {
        Some(p) => p,
        None => {
            return Err(
                GwError::UnsupportedInvariant(
                    string_from(
                        "standard compact Virasoro generation requires the theory's Poincare/twisted pairing and inverse; local twists require the QRR-conjugated operator",
                    ),
                ),
            );
        },
    };
    let c1 = match &state.c1_action {
        Some(c) => c,
        None => {
            return Err(
                GwError::UnsupportedInvariant(
                    string_from("standard compact Virasoro generation requires cup product by c1(TX)"),
                ),
            );
        },
    };
    if pairing.metric.size() != size || pairing.inverse.size() != size || c1.size() != size {
        return Err(
            GwError::ConventionMismatch(string_from("Virasoro geometric matrices do not match the canonical-theory basis")),
        );
    }
    let inverse_ok = check_inverse(&pairing.metric, &pairing.inverse)?;
    if !inverse_ok {
        return Err(
            GwError::ConventionMismatch(string_from("the supplied inverse Poincare pairing is not an inverse")),
        );
    }
    let unit = match state.element(state.unit) {
        Some(u) => u,
        None => {
            return Err(GwError::ConventionMismatch(string_from("Virasoro canonical-theory unit is not in its basis")));
        },
    };
    if unit.hodge_p_degree != 0 || unit.complex_codimension != 0 {
        return Err(
            GwError::ConventionMismatch(string_from("Virasoro canonical-theory unit must have complex degree zero")),
        );
    }
    check_pair_grading(basis, &pairing.metric, c1, dimension)?;
    if !lowered_c1_is_symmetric(c1, &pairing.metric) {
        return Err(
            GwError::ConventionMismatch(
                string_from("cup product by c1 is not self-adjoint for the canonical-theory pairing"),
            ),
        );
    }
    let grading = compute_grading_anomaly(basis, dimension);
    let anomaly = match &characteristic_anomaly {
        Some(a) => a,
        None => {
            return Err(
                GwError::UnsupportedInvariant(
                    string_from(
                        "standard compact Virasoro generation requires characteristic data for the genus-one anomaly",
                    ),
                ),
            );
        },
    };
    let agrees = anomaly.equals(&grading);
    proof {
        use_type_invariant(&grading);
        use_type_invariant(anomaly);
        let g = grading_anomaly(basis@, dimension as nat);
        lemma_supertrace_denominator(basis@, dimension as nat);
        assert(g.1 > 0) by (nonlinear_arith)
            requires
                same_value(grading@, g),
                grading@.1 > 0,
                g == rat_mul((-1, 4), grading_supertrace(basis@, dimension as nat)),
                grading_supertrace(basis@, dimension as nat).1 > 0,
        ;
        if agrees {
            lemma_same_value_transitive(anomaly@, grading@, g);
        } else if same_value(anomaly@, g) {
            lemma_same_value_transitive(anomaly@, g, grading@);
        }
    }
    if !agrees {
        let mut message = string_from("canonical-theory characteristic anomaly ");
        push_string(&mut message, &anomaly.text());
        push_str(&mut message, " disagrees with the grading identity ");
        push_string(&mut message, &grading.text());
        return Err(GwError::ConventionMismatch(message));
    }
    Ok(())
}

/// Labelled split number `j`, `0 <= j < 2^n`, of `s` into a left and a
/// right factor: the first marking goes left exactly when `j < 2^(n-1)`, and
/// the remaining markings are split by `j mod 2^(n-1)`.
pub open spec fn marking_split(s: Seq<Descendant>, j: nat) -> (Seq<Descendant>, Seq<Descendant>)
    decreases s.len(),
{
    if s.len() == 0 {
        (Seq::empty(), Seq::empty())
    } else {
        let half = pow(2, (s.len() - 1) as nat);
        if j < half {
            let rest = marking_split(s.skip(1), j);
            (seq![s[0]] + rest.0, rest.1)
        } else {
            let rest = marking_split(s.skip(1), (j - half) as nat);
            (rest.0, seq![s[0]] + rest.1)
        }
    }
}

/// All `2^n` labelled splits, in the order the generator visits them.
pub open spec fn all_marking_splits(s: Seq<Descendant>) -> Seq<(Seq<Descendant>, Seq<Descendant>)> {
    Seq::new(pow(2, s.len()) as nat, |j: int| marking_split(s, j as nat))
}

/// The views of a list of `(left, right)` splits.
pub open spec fn split_views(v: Seq<(Vec<Descendant>, Vec<Descendant>)>) -> Seq<(Seq<Descendant>, Seq<Descendant>)> {
    Seq::new(v.len(), |i: int| (v[i].0@, v[i].1@))
}

fn copy_descendants(items: &Vec<Descendant>) -> (out: Vec<Descendant>)
    ensures
        out@ == items@,
{
    let mut out: Vec<Descendant> = Vec::new();
    let mut i: usize = 0;
    while i < items.len()
        invariant
            i <= items@.len(),
            out@ == items@.take(i as int),
        decreases items@.len() - i,
    {
        out.push(items[i]);
        proof {
            assert(items@.take(i + 1) =~= items@.take(i as int).push(items@[i as int]));
        }
        i = i + 1;
    }
    proof {
        assert(items@.take(items@.len() as int) =~= items@);
    }
    out
}

/// Appends, for every labelled split `(l, r)` of `markings[index..]`, the
/// pair `(left + l, right + r)`.
fn collect_marking_splits(
    markings: &[Descendant],
    index: usize,
    left: &mut Vec<Descendant>,
    right: &mut Vec<Descendant>,
    out: &mut Vec<(Vec<Descendant>, Vec<Descendant>)>,
)
    requires
        index <= markings@.len(),
        pow(2, (markings@.len() - index) as nat) + old(out)@.len() <= usize::MAX,
    ensures
        final(left)@ == old(left)@,
        final(right)@ == old(right)@,
        split_views(final(out)@) == split_views(old(out)@) + Seq::new(
            pow(2, (markings@.len() - index) as nat) as nat,
            |j: int| {
                let split = marking_split(markings@.skip(index as int), j as nat);
                (old(left)@ + split.0, old(right)@ + split.1)
            },
        ),
    decreases markings@.len() - index,
{
    let ghost n = markings@.len();
    let ghost rest = markings@.skip(index as int);
    if index == markings.len() {
        let pair = (copy_descendants(left), copy_descendants(right));
        out.push(pair);
        proof {
            vstd::arithmetic::power::lemma_pow0(2);
            assert(rest.len() == 0);
            assert(split_views(out@) =~= split_views(old(out)@) + Seq::new(
                pow(2, (n - index) as nat) as nat,
                |j: int| {
                    let split = marking_split(rest, j as nat);
                    (old(left)@ + split.0, old(right)@ + split.1)
                },
            ));
        }
        return;
    }
    let ghost half = pow(2, (n - index - 1) as nat);
    proof {
        vstd::arithmetic::power::lemma_pow_positive(2, (n - index - 1) as nat);
        vstd::arithmetic::power::lemma_pow_adds(2, 1, (n - index - 1) as nat);
        vstd::arithmetic::power::lemma_pow1(2);
        assert(pow(2, (n - index) as nat) == 2 * half);
    }
    let ghost out0 = split_views(out@);
    let ghost left0 = left@;
    let ghost right0 = right@;
    let ghost tail = markings@.skip(index + 1);
    let marking = markings[index];
    left.push(marking);
    collect_marking_splits(markings, index + 1, left, right, out);
    let ghost out1 = split_views(out@);
    proof {
        assert(out1.len() == out@.len());
        assert(out1 == out0 + Seq::new(
            half as nat,
            |j: int| {
                let split = marking_split(tail, j as nat);
                (left0.push(marking) + split.0, right0 + split.1)
            },
        ));
        assert(out@.len() == out0.len() + half);
    }
    left.pop();
    proof {
        assert(left@ =~= left0);
    }
    right.push(marking);
    collect_marking_splits(markings, index + 1, left, right, out);
    right.pop();
    proof {
        assert(right@ =~= right0);
        let out2 = split_views(out@);
        assert(out2 == out1 + Seq::new(
            half as nat,
            |j: int| {
                let split = marking_split(tail, j as nat);
                (left0 + split.0, right0.push(marking) + split.1)
            },
        ));
        assert(rest.skip(1) =~= tail);
        assert(rest[0] == marking);
        let expected = Seq::new(
            pow(2, (n - index) as nat) as nat,
            |j: int| {
                let split = marking_split(rest, j as nat);
                (left0 + split.0, right0 + split.1)
            },
        );
        assert forall|i: int| 0 <= i < out0.len() + expected.len() implies #[trigger] out2[i] == (out0 + expected)[i] by {
            if i < out0.len() {
                assert(out2[i] == out1[i]);
                assert(out1[i] == out0[i]);
            } else {
                let j = i - out0.len();
                if j < half {
                    let inner = marking_split(tail, j as nat);
                    assert(marking_split(rest, j as nat) == (seq![marking] + inner.0, inner.1));
                    assert(left0.push(marking) + inner.0 =~= left0 + (seq![marking] + inner.0));
                    assert(out2[i] == out1[i]);
                } else {
                    let inner = marking_split(tail, (j - half) as nat);
                    assert(marking_split(rest, j as nat) == (inner.0, seq![marking] + inner.1));
                    assert(right0.push(marking) + inner.1 =~= right0 + (seq![marking] + inner.1));
                    assert(out2[i] == out2[out1.len() + (j - half)]);
                }
            }
        }
        assert(out2 =~= out0 + expected);
    }
}

/// The `2^n` labelled splits of the markings into two factors, refused when
/// their number exceeds `term_limit` or does not fit in `usize`.
pub fn labelled_marking_splits(
    markings: &[Descendant],
    term_limit: usize,
) -> (result: Result<Vec<(Vec<Descendant>, Vec<Descendant>)>, GwError>)
    ensures
        result is Ok <==> pow(2, markings@.len()) <= term_limit,
        result matches Ok(v) ==> split_views(v@) == all_marking_splits(markings@),
        pow(2, markings@.len()) > usize::MAX ==> (result matches Err(GwError::UnsupportedInvariant(m))
            && m@ == "too many markings for labelled partitions"@),
        term_limit < pow(2, markings@.len()) <= usize::MAX ==> (result matches Err(
            GwError::ResourceLimit { operation, requested, limit },
        ) && operation@ == "labelled Virasoro marking splits"@ && requested == pow(2, markings@.len())
            && limit == term_limit),
{
    let split_count = match checked_power_of_two(markings.len()) {
        Some(count) => count,
        None => {
            return Err(GwError::UnsupportedInvariant(string_from("too many markings for labelled partitions")));
        },
    };
    if split_count > term_limit {
        return Err(GwError::ResourceLimit {
            operation: string_from("labelled Virasoro marking splits"),
            requested: split_count,
            limit: term_limit,
        });
    }
    let mut out: Vec<(Vec<Descendant>, Vec<Descendant>)> = Vec::new();
    let mut left: Vec<Descendant> = Vec::new();
    let mut right: Vec<Descendant> = Vec::new();
    collect_marking_splits(markings, 0, &mut left, &mut right, &mut out);
    proof {
        assert(markings@.skip(0) =~= markings@);
        assert(split_views(out@) =~= all_marking_splits(markings@));
    }
    Ok(out)
}

/// The code points of a string, as integers.
pub open spec fn char_ints(s: Seq<char>) -> Seq<int> {
    s.map_values(|c: char| c as int)
}

/// Lexicographic three-way comparison of two strings by code point.
fn compare_text(a: &str, b: &str) -> (o: Order)
    ensures
        o.sign() == lex_order(char_ints(a@), char_ints(b@)),
{
    let n = a.unicode_len();
    let m = b.unicode_len();
    let mut i: usize = 0;
    proof {
        assert(char_ints(a@).skip(0) =~= char_ints(a@));
        assert(char_ints(b@).skip(0) =~= char_ints(b@));
    }
    while i < n && i < m
        invariant
            n == a@.len(),
            m == b@.len(),
            i <= n,
            i <= m,
            lex_order(char_ints(a@), char_ints(b@)) == lex_order(
                char_ints(a@).skip(i as int),
                char_ints(b@).skip(i as int),
            ),
        decreases n - i,
    {
        let x = a.get_char(i);
        let y = b.get_char(i);
        let ghost sa = char_ints(a@).skip(i as int);
        let ghost sb = char_ints(b@).skip(i as int);
        assert(sa[0] == x as int);
        assert(sb[0] == y as int);
        if (x as u32) < (y as u32) {
            return Order::Less;
        } else if (x as u32) > (y as u32) {
            return Order::Greater;
        }
        assert(sa.drop_first() =~= char_ints(a@).skip(i + 1));
        assert(sb.drop_first() =~= char_ints(b@).skip(i + 1));
        i = i + 1;
    }
    let ghost sa = char_ints(a@).skip(i as int);
    let ghost sb = char_ints(b@).skip(i as int);
    if n < m {
        assert(sa.len() == 0 && sb.len() > 0);
        Order::Less
    } else if n > m {
        assert(sa.len() > 0 && sb.len() == 0);
        Order::Greater
    } else {
        assert(sa.len() == 0 && sb.len() == 0);
        Order::Equal
    }
}

/// The rank of an origin's variant in declaration order.
pub open spec fn origin_rank(o: TermOrigin) -> int {
    match o {
        TermOrigin::LinearOperator => 0,
        TermOrigin::DilatonShift => 1,
        TermOrigin::GenusReduction => 2,
        TermOrigin::DegreeSplitting => 3,
        TermOrigin::UnstableCorrection => 4,
        TermOrigin::Other(_) => 5,
    }
}

/// The order of term origins: variant order, then the label of `Other`.
pub open spec fn origin_order(a: TermOrigin, b: TermOrigin) -> int {
    match (a, b) {
        (TermOrigin::Other(x), TermOrigin::Other(y)) => lex_order(char_ints(x@), char_ints(y@)),
        _ => int_order(origin_rank(a), origin_rank(b)),
    }
}

fn compare_origin(a: &TermOrigin, b: &TermOrigin) -> (o: Order)
    ensures
        o.sign() == origin_order(*a, *b),
{
    match (a, b) {
        (TermOrigin::Other(x), TermOrigin::Other(y)) => compare_text(x.as_str(), y.as_str()),
        _ => {
            let ra: u8 = match a {
                TermOrigin::LinearOperator => 0,
                TermOrigin::DilatonShift => 1,
                TermOrigin::GenusReduction => 2,
                TermOrigin::DegreeSplitting => 3,
                TermOrigin::UnstableCorrection => 4,
                TermOrigin::Other(_) => 5,
            };
            let rb: u8 = match b {
                TermOrigin::LinearOperator => 0,
                TermOrigin::DilatonShift => 1,
                TermOrigin::GenusReduction => 2,
                TermOrigin::DegreeSplitting => 3,
                TermOrigin::UnstableCorrection => 4,
                TermOrigin::Other(_) => 5,
            };
            if ra < rb {
                Order::Less
            } else if ra == rb {
                Order::Equal
            } else {
                Order::Greater
            }
        },
    }
}

/// Lexicographic combination of two comparisons.
fn then_order(first: Order, second: Order) -> (o: Order)
    ensures
        o.sign() == if first.sign() != 0 { first.sign() } else { second.sign() },
{
    match first {
        Order::Equal => second,
        _ => first,
    }
}

/// The key under which an origin is filed: its variant rank and, for
/// `Other`, the code points of its label.
pub open spec fn origin_key(o: TermOrigin) -> (int, Seq<int>) {
    match o {
        TermOrigin::Other(label) => (5, char_ints(label@)),
        _ => (origin_rank(o), Seq::empty()),
    }
}

/// Origins compare equal exactly when they are filed under the same key.
proof fn lemma_origin_order_zero(a: TermOrigin, b: TermOrigin)
    ensures
        origin_order(a, b) == 0 <==> origin_key(a) == origin_key(b),
{
    match (a, b) {
        (TermOrigin::Other(x), TermOrigin::Other(y)) => {
            lemma_lex_order_antisymmetric(char_ints(x@), char_ints(y@));
        },
        _ => {},
    }
}

/// The constant entries as (origin key, value).
pub open spec fn constant_entries(s: Seq<(TermOrigin, Rational)>) -> Seq<((int, Seq<int>), RationalView)> {
    s.map_values(|e: (TermOrigin, Rational)| (origin_key(e.0), e.1@))
}

/// The linear entries as ((correlator, origin key), value).
pub open spec fn linear_entries(s: Seq<(CorrelatorKey, TermOrigin, Rational)>) -> Seq<
    ((CorrelatorKeyView, (int, Seq<int>)), RationalView),
> {
    s.map_values(|e: (CorrelatorKey, TermOrigin, Rational)| ((e.0@, origin_key(e.1)), e.2@))
}

/// The quadratic entries as ((left, right, origin key), value), the two
/// factors in canonical order.
pub open spec fn quadratic_entries(s: Seq<(CorrelatorKey, CorrelatorKey, TermOrigin, Rational)>) -> Seq<
    ((CorrelatorKeyView, CorrelatorKeyView, (int, Seq<int>)), RationalView),
> {
    s.map_values(
        |e: (CorrelatorKey, CorrelatorKey, TermOrigin, Rational)|
            ((ordered_pair(e.0@, e.1@).0, ordered_pair(e.0@, e.1@).1, origin_key(e.2)), e.3@),
    )
}

/// The two factors of a product in canonical order.
pub open spec fn ordered_pair(left: CorrelatorKeyView, right: CorrelatorKeyView) -> (CorrelatorKeyView, CorrelatorKeyView) {
    if correlator_order(right, left) < 0 {
        (right, left)
    } else {
        (left, right)
    }
}

/// The canonical order of a pair does not depend on the order it is given in.
proof fn lemma_ordered_pair_symmetric(a: CorrelatorKeyView, b: CorrelatorKeyView)
    ensures
        ordered_pair(a, b) == ordered_pair(b, a),
{
    lemma_correlator_order_antisymmetric(a, b);
}

/// The constant terms of the entries with a nonzero value, in order.
pub open spec fn constant_terms(s: Seq<(TermOrigin, Rational)>) -> Seq<ConstraintTerm<Rational>>
    decreases s.len(),
{
    if s.len() == 0 {
        Seq::empty()
    } else {
        let rest = constant_terms(s.drop_last());
        let e = s.last();
        if e.1@.0 == 0 {
            rest
        } else {
            rest.push(ConstraintTerm::Constant { coefficient: e.1, origin: e.0 })
        }
    }
}

/// The linear terms of the entries with a nonzero value, in order.
pub open spec fn linear_terms(s: Seq<(CorrelatorKey, TermOrigin, Rational)>) -> Seq<ConstraintTerm<Rational>>
    decreases s.len(),
{
    if s.len() == 0 {
        Seq::empty()
    } else {
        let rest = linear_terms(s.drop_last());
        let e = s.last();
        if e.2@.0 == 0 {
            rest
        } else {
            rest.push(ConstraintTerm::Linear(LinearTerm { coefficient: e.2, correlator: e.0, origin: e.1 }))
        }
    }
}

/// The product `coefficient * <left> <right>` with its factors in canonical order.
pub open spec fn canonical_quadratic(
    coefficient: Rational,
    left: CorrelatorKey,
    right: CorrelatorKey,
    origin: TermOrigin,
) -> QuadraticTerm<Rational> {
    if correlator_order(right@, left@) < 0 {
        QuadraticTerm { coefficient, left: right, right: left, origin }
    } else {
        QuadraticTerm { coefficient, left, right, origin }
    }
}

/// The quadratic terms of the entries with a nonzero value, in order.
pub open spec fn quadratic_terms(s: Seq<(CorrelatorKey, CorrelatorKey, TermOrigin, Rational)>) -> Seq<
    ConstraintTerm<Rational>,
>
    decreases s.len(),
{
    if s.len() == 0 {
        Seq::empty()
    } else {
        let rest = quadratic_terms(s.drop_last());
        let e = s.last();
        if e.3@.0 == 0 {
            rest
        } else {
            rest.push(ConstraintTerm::Quadratic(canonical_quadratic(e.3, e.0, e.1, e.2)))
        }
    }
}

/// The constant terms of a list as (origin key, coefficient) entries.
pub open spec fn constant_term_entries(ts: Seq<ConstraintTerm<Rational>>) -> Seq<((int, Seq<int>), RationalView)>
    decreases ts.len(),
{
    if ts.len() == 0 {
        Seq::empty()
    } else {
        let rest = constant_term_entries(ts.drop_last());
        match ts.last() {
            ConstraintTerm::Constant { coefficient, origin } => rest.push((origin_key(origin), coefficient@)),
            _ => rest,
        }
    }
}

/// The linear terms of a list as ((correlator, origin key), coefficient) entries.
pub open spec fn linear_term_entries(ts: Seq<ConstraintTerm<Rational>>) -> Seq<
    ((CorrelatorKeyView, (int, Seq<int>)), RationalView),
>
    decreases ts.len(),
{
    if ts.len() == 0 {
        Seq::empty()
    } else {
        let rest = linear_term_entries(ts.drop_last());
        match ts.last() {
            ConstraintTerm::Linear(t) => rest.push(((t.correlator@, origin_key(t.origin)), t.coefficient@)),
            _ => rest,
        }
    }
}

/// The quadratic terms of a list as ((left, right, origin key), coefficient)
/// entries, the factors in canonical order.
pub open spec fn quadratic_term_entries(ts: Seq<ConstraintTerm<Rational>>) -> Seq<
    ((CorrelatorKeyView, CorrelatorKeyView, (int, Seq<int>)), RationalView),
>
    decreases ts.len(),
{
    if ts.len() == 0 {
        Seq::empty()
    } else {
        let rest = quadratic_term_entries(ts.drop_last());
        match ts.last() {
            ConstraintTerm::Quadratic(t) => rest.push(
                (
                    (ordered_pair(t.left@, t.right@).0, ordered_pair(t.left@, t.right@).1, origin_key(t.origin)),
                    t.coefficient@,
                ),
            ),
            _ => rest,
        }
    }
}

/// The entries of consecutive term lists are consecutive.
proof fn lemma_term_entries_concat(a: Seq<ConstraintTerm<Rational>>, b: Seq<ConstraintTerm<Rational>>)
    ensures
        constant_term_entries(a + b) == constant_term_entries(a) + constant_term_entries(b),
        linear_term_entries(a + b) == linear_term_entries(a) + linear_term_entries(b),
        quadratic_term_entries(a + b) == quadratic_term_entries(a) + quadratic_term_entries(b),
    decreases b.len(),
{
    if b.len() == 0 {
        assert(a + b =~= a);
        assert(constant_term_entries(a) + constant_term_entries(b) =~= constant_term_entries(a));
        assert(linear_term_entries(a) + linear_term_entries(b) =~= linear_term_entries(a));
        assert(quadratic_term_entries(a) + quadratic_term_entries(b) =~= quadratic_term_entries(a));
    } else {
        lemma_term_entries_concat(a, b.drop_last());
        assert((a + b).drop_last() =~= a + b.drop_last());
        assert((a + b).last() == b.last());
        assert(constant_term_entries(a) + constant_term_entries(b) =~= constant_term_entries(a + b));
        assert(linear_term_entries(a) + linear_term_entries(b) =~= linear_term_entries(a + b));
        assert(quadratic_term_entries(a) + quadratic_term_entries(b) =~= quadratic_term_entries(a + b));
    }
}

/// One kind of term list has no entries of the other kinds.
proof fn lemma_term_kinds_apart(
    c: Seq<(TermOrigin, Rational)>,
    l: Seq<(CorrelatorKey, TermOrigin, Rational)>,
    q: Seq<(CorrelatorKey, CorrelatorKey, TermOrigin, Rational)>,
)
    ensures
        linear_term_entries(constant_terms(c)).len() == 0,
        quadratic_term_entries(constant_terms(c)).len() == 0,
        constant_term_entries(linear_terms(l)).len() == 0,
        quadratic_term_entries(linear_terms(l)).len() == 0,
        constant_term_entries(quadratic_terms(q)).len() == 0,
        linear_term_entries(quadratic_terms(q)).len() == 0,
    decreases c.len() + l.len() + q.len(),
{
    if c.len() > 0 {
        lemma_term_kinds_apart(c.drop_last(), l, q);
        let t = constant_terms(c.drop_last());
        assert(constant_terms(c) == t || constant_terms(c) == t.push(ConstraintTerm::Constant { coefficient: c.last().1, origin: c.last().0 }));
        if constant_terms(c) != t {
            assert(constant_terms(c).drop_last() =~= t);
        }
    }
    if l.len() > 0 {
        lemma_term_kinds_apart(c, l.drop_last(), q);
        let t = linear_terms(l.drop_last());
        if linear_terms(l) != t {
            assert(linear_terms(l).drop_last() =~= t);
        }
    }
    if q.len() > 0 {
        lemma_term_kinds_apart(c, l, q.drop_last());
        let t = quadratic_terms(q.drop_last());
        if quadratic_terms(q) != t {
            assert(quadratic_terms(q).drop_last() =~= t);
        }
    }
}

/// The constant terms of the stored entries have the entries' totals.
proof fn lemma_constant_terms_totals(c: Seq<(TermOrigin, Rational)>)
    requires
        positive_values(constant_entries(c)),
    ensures
        same_totals(constant_entries(c), constant_term_entries(constant_terms(c))),
        positive_values(constant_term_entries(constant_terms(c))),
    decreases c.len(),
{
    let entries = constant_entries(c);
    if c.len() == 0 {
        assert(entries =~= Seq::<((int, Seq<int>), RationalView)>::empty());
        lemma_same_totals_reflexive(entries);
    } else {
        let rest = c.drop_last();
        let x = c.last();
        assert(constant_entries(rest) =~= entries.drop_last());
        assert(positive_values(constant_entries(rest))) by {
            assert forall|i: int| 0 <= i < constant_entries(rest).len() implies (#[trigger] constant_entries(rest)[i]).1.1 > 0 by {
                assert(constant_entries(rest)[i] == entries[i]);
            }
        }
        lemma_constant_terms_totals(rest);
        let e = (origin_key(x.0), x.1@);
        assert(entries =~= constant_entries(rest).push(e));
        assert(entries[entries.len() - 1] == e);
        let a = constant_term_entries(constant_terms(rest));
        if x.1@.0 == 0 {
            lemma_total_push_zero(constant_entries(rest), e, e.0);
            assert(same_totals(entries, constant_entries(rest))) by {
                assert forall|key: (int, Seq<int>)| same_value(#[trigger] keyed_total(entries, key), keyed_total(constant_entries(rest), key)) by {
                    lemma_total_push_zero(constant_entries(rest), e, key);
                }
            }
            lemma_same_totals_transitive(entries, constant_entries(rest), a);
        } else {
            let term = ConstraintTerm::Constant { coefficient: x.1, origin: x.0 };
            assert(constant_terms(c) == constant_terms(rest).push(term));
            assert(constant_terms(c).drop_last() =~= constant_terms(rest));
            assert(constant_term_entries(constant_terms(c)) == a.push(e));
            lemma_same_totals_reflexive(entries);
            lemma_same_totals_step(constant_entries(rest), entries, a, e, e);
            assert forall|i: int| 0 <= i < a.push(e).len() implies (#[trigger] a.push(e)[i]).1.1 > 0 by {
                if i < a.len() {
                    assert(a.push(e)[i] == a[i]);
                }
            }
        }
    }
}

/// The linear terms of the stored entries have the entries' totals.
proof fn lemma_linear_terms_totals(l: Seq<(CorrelatorKey, TermOrigin, Rational)>)
    requires
        positive_values(linear_entries(l)),
    ensures
        same_totals(linear_entries(l), linear_term_entries(linear_terms(l))),
        positive_values(linear_term_entries(linear_terms(l))),
    decreases l.len(),
{
    let entries = linear_entries(l);
    if l.len() == 0 {
        assert(entries =~= Seq::<((CorrelatorKeyView, (int, Seq<int>)), RationalView)>::empty());
        lemma_same_totals_reflexive(entries);
    } else {
        let rest = l.drop_last();
        let x = l.last();
        assert(linear_entries(rest) =~= entries.drop_last());
        assert(positive_values(linear_entries(rest))) by {
            assert forall|i: int| 0 <= i < linear_entries(rest).len() implies (#[trigger] linear_entries(rest)[i]).1.1 > 0 by {
                assert(linear_entries(rest)[i] == entries[i]);
            }
        }
        lemma_linear_terms_totals(rest);
        let e = ((x.0@, origin_key(x.1)), x.2@);
        assert(entries =~= linear_entries(rest).push(e));
        assert(entries[entries.len() - 1] == e);
        let a = linear_term_entries(linear_terms(rest));
        if x.2@.0 == 0 {
            assert(same_totals(entries, linear_entries(rest))) by {
                assert forall|key: (CorrelatorKeyView, (int, Seq<int>))| same_value(#[trigger] keyed_total(entries, key), keyed_total(linear_entries(rest), key)) by {
                    lemma_total_push_zero(linear_entries(rest), e, key);
                }
            }
            lemma_same_totals_transitive(entries, linear_entries(rest), a);
        } else {
            let term = ConstraintTerm::Linear(LinearTerm { coefficient: x.2, correlator: x.0, origin: x.1 });
            assert(linear_terms(l) == linear_terms(rest).push(term));
            assert(linear_terms(l).drop_last() =~= linear_terms(rest));
            assert(linear_term_entries(linear_terms(l)) == a.push(e));
            lemma_same_totals_reflexive(entries);
            lemma_same_totals_step(linear_entries(rest), entries, a, e, e);
            assert forall|i: int| 0 <= i < a.push(e).len() implies (#[trigger] a.push(e)[i]).1.1 > 0 by {
                if i < a.len() {
                    assert(a.push(e)[i] == a[i]);
                }
            }
        }
    }
}

/// The quadratic terms of the stored entries have the entries' totals.
proof fn lemma_quadratic_terms_totals(q: Seq<(CorrelatorKey, CorrelatorKey, TermOrigin, Rational)>)
    requires
        positive_values(quadratic_entries(q)),
    ensures
        same_totals(quadratic_entries(q), quadratic_term_entries(quadratic_terms(q))),
        positive_values(quadratic_term_entries(quadratic_terms(q))),
    decreases q.len(),
{
    let entries = quadratic_entries(q);
    if q.len() == 0 {
        assert(entries =~= Seq::<((CorrelatorKeyView, CorrelatorKeyView, (int, Seq<int>)), RationalView)>::empty());
        lemma_same_totals_reflexive(entries);
    } else {
        let rest = q.drop_last();
        let x = q.last();
        assert(quadratic_entries(rest) =~= entries.drop_last());
        assert(positive_values(quadratic_entries(rest))) by {
            assert forall|i: int| 0 <= i < quadratic_entries(rest).len() implies (#[trigger] quadratic_entries(rest)[i]).1.1 > 0 by {
                assert(quadratic_entries(rest)[i] == entries[i]);
            }
        }
        lemma_quadratic_terms_totals(rest);
        let e = ((ordered_pair(x.0@, x.1@).0, ordered_pair(x.0@, x.1@).1, origin_key(x.2)), x.3@);
        assert(entries =~= quadratic_entries(rest).push(e));
        assert(entries[entries.len() - 1] == e);
        let a = quadratic_term_entries(quadratic_terms(rest));
        if x.3@.0 == 0 {
            assert(same_totals(entries, quadratic_entries(rest))) by {
                assert forall|key: (CorrelatorKeyView, CorrelatorKeyView, (int, Seq<int>))| same_value(#[trigger] keyed_total(entries, key), keyed_total(quadratic_entries(rest), key)) by {
                    lemma_total_push_zero(quadratic_entries(rest), e, key);
                }
            }
            lemma_same_totals_transitive(entries, quadratic_entries(rest), a);
        } else {
            let t = canonical_quadratic(x.3, x.0, x.1, x.2);
            let term = ConstraintTerm::Quadratic(t);
            assert(quadratic_terms(q) == quadratic_terms(rest).push(term));
            assert(quadratic_terms(q).drop_last() =~= quadratic_terms(rest));
            lemma_ordered_pair_symmetric(x.0@, x.1@);
            assert(ordered_pair(t.left@, t.right@) == ordered_pair(x.0@, x.1@));
            assert(quadratic_term_entries(quadratic_terms(q)) == a.push(e));
            lemma_same_totals_reflexive(entries);
            lemma_same_totals_step(quadratic_entries(rest), entries, a, e, e);
            assert forall|i: int| 0 <= i < a.push(e).len() implies (#[trigger] a.push(e)[i]).1.1 > 0 by {
                if i < a.len() {
                    assert(a.push(e)[i] == a[i]);
                }
            }
        }
    }
}

/// Coefficients aggregated by constant origin, by linear correlator and
/// origin, and by ordered quadratic pair and origin, each list kept in key
/// order.  Read as sums per key (`keyed_total`), the lists are what the
/// additions made to them.
struct TermAccumulator {
    constants: Vec<(TermOrigin, Rational)>,
    linear: Vec<(CorrelatorKey, TermOrigin, Rational)>,
    quadratic: Vec<(CorrelatorKey, CorrelatorKey, TermOrigin, Rational)>,
}

impl TermAccumulator {
    /// Every stored value has a positive denominator.
    spec fn denominators_positive(self) -> bool {
        &&& positive_values(constant_entries(self.constants@))
        &&& positive_values(linear_entries(self.linear@))
        &&& positive_values(quadratic_entries(self.quadratic@))
    }

    /// The number of stored entries.
    spec fn entry_count(self) -> nat {
        self.constants@.len() + self.linear@.len() + self.quadratic@.len()
    }

    fn new() -> (acc: Self)
        ensures
            acc.constants@.len() == 0,
            acc.linear@.len() == 0,
            acc.quadratic@.len() == 0,
    {
        Self { constants: Vec::new(), linear: Vec::new(), quadratic: Vec::new() }
    }

    /// Adds `coefficient` to the constant filed under `origin`.
    fn add_constant(&mut self, coefficient: Rational, origin: TermOrigin)
        ensures
            same_totals(
                constant_entries(final(self).constants@),
                constant_entries(old(self).constants@).push((origin_key(origin), coefficient@)),
            ),
            final(self).linear == old(self).linear,
            final(self).quadratic == old(self).quadratic,
            old(self).denominators_positive() ==> final(self).denominators_positive(),
            final(self).entry_count() <= old(self).entry_count() + 1,
    {
        let ghost entries = constant_entries(self.constants@);
        let ghost key = origin_key(origin);
        let ghost amount = coefficient@;
        proof {
            use_type_invariant(&coefficient);
        }
        if coefficient.is_zero() {
            proof {
                assert forall|k: (int, Seq<int>)| same_value(
                    #[trigger] keyed_total(entries, k),
                    keyed_total(entries.push((key, amount)), k),
                ) by {
                    lemma_total_push_zero(entries, (key, amount), k);
                }
            }
            return;
        }
        let mut i: usize = 0;
        while i < self.constants.len()
            invariant
                i <= self.constants@.len(),
                *self == *old(self),
                entries == constant_entries(self.constants@),
                key == origin_key(origin),
                amount == coefficient@,
            decreases self.constants@.len() - i,
        {
            match compare_origin(&self.constants[i].0, &origin) {
                Order::Equal => {
                    let sum = self.constants[i].1.add(&coefficient);
                    proof {
                        use_type_invariant(&sum);
                        lemma_origin_order_zero(self.constants@[i as int].0, origin);
                        let exact = entries.update(i as int, (entries[i as int].0, rat_add(entries[i as int].1, amount)));
                        assert(exact.update(i as int, (exact[i as int].0, sum@)) =~= entries.update(
                            i as int,
                            (key, sum@),
                        ));
                        assert forall|k: (int, Seq<int>)| same_value(
                            #[trigger] keyed_total(entries.update(i as int, (key, sum@)), k),
                            keyed_total(entries.push((key, amount)), k),
                        ) by {
                            lemma_total_replace(exact, i as int, sum@, k);
                            lemma_total_accumulate(entries, i as int, amount, k);
                        }
                    }
                    self.constants.set(i, (origin, sum));
                    proof {
                        assert(constant_entries(self.constants@) =~= entries.update(i as int, (key, sum@)));
                    }
                    return;
                },
                Order::Greater => {
                    break;
                },
                Order::Less => {},
            }
            i = i + 1;
        }
        self.constants.insert(i, (origin, coefficient));
        proof {
            assert(constant_entries(self.constants@) =~= entries.insert(i as int, (key, amount)));
            assert forall|k: (int, Seq<int>)| same_value(
                #[trigger] keyed_total(entries.insert(i as int, (key, amount)), k),
                keyed_total(entries.push((key, amount)), k),
            ) by {
                lemma_total_insert(entries, i as int, (key, amount), k);
            }
        }
    }

    /// Adds `coefficient` to the linear term of `correlator` filed under `origin`.
    fn add_linear(&mut self, coefficient: Rational, correlator: CorrelatorKey, origin: TermOrigin)
        ensures
            same_totals(
                linear_entries(final(self).linear@),
                linear_entries(old(self).linear@).push(((correlator@, origin_key(origin)), coefficient@)),
            ),
            final(self).constants == old(self).constants,
            final(self).quadratic == old(self).quadratic,
            old(self).denominators_positive() ==> final(self).denominators_positive(),
            final(self).entry_count() <= old(self).entry_count() + 1,
    {
        let ghost entries = linear_entries(self.linear@);
        let ghost key = (correlator@, origin_key(origin));
        let ghost amount = coefficient@;
        proof {
            use_type_invariant(&coefficient);
        }
        if coefficient.is_zero() {
            proof {
                assert forall|k: (CorrelatorKeyView, (int, Seq<int>))| same_value(
                    #[trigger] keyed_total(entries, k),
                    keyed_total(entries.push((key, amount)), k),
                ) by {
                    lemma_total_push_zero(entries, (key, amount), k);
                }
            }
            return;
        }
        let mut i: usize = 0;
        while i < self.linear.len()
            invariant
                i <= self.linear@.len(),
                *self == *old(self),
                entries == linear_entries(self.linear@),
                key == (correlator@, origin_key(origin)),
                amount == coefficient@,
            decreases self.linear@.len() - i,
        {
            let order = then_order(
                self.linear[i].0.compare(&correlator),
                compare_origin(&self.linear[i].1, &origin),
            );
            match order {
                Order::Equal => {
                    let sum = self.linear[i].2.add(&coefficient);
                    proof {
                        use_type_invariant(&sum);
                        let e = self.linear@[i as int];
                        lemma_origin_order_zero(e.1, origin);
                        lemma_correlator_order_antisymmetric(e.0@, correlator@);
                        let exact = entries.update(i as int, (entries[i as int].0, rat_add(entries[i as int].1, amount)));
                        assert(exact.update(i as int, (exact[i as int].0, sum@)) =~= entries.update(
                            i as int,
                            (key, sum@),
                        ));
                        assert forall|k: (CorrelatorKeyView, (int, Seq<int>))| same_value(
                            #[trigger] keyed_total(entries.update(i as int, (key, sum@)), k),
                            keyed_total(entries.push((key, amount)), k),
                        ) by {
                            lemma_total_replace(exact, i as int, sum@, k);
                            lemma_total_accumulate(entries, i as int, amount, k);
                        }
                    }
                    self.linear.set(i, (correlator, origin, sum));
                    proof {
                        assert(linear_entries(self.linear@) =~= entries.update(i as int, (key, sum@)));
                    }
                    return;
                },
                Order::Greater => {
                    break;
                },
                Order::Less => {},
            }
            i = i + 1;
        }
        self.linear.insert(i, (correlator, origin, coefficient));
        proof {
            assert(linear_entries(self.linear@) =~= entries.insert(i as int, (key, amount)));
            assert forall|k: (CorrelatorKeyView, (int, Seq<int>))| same_value(
                #[trigger] keyed_total(entries.insert(i as int, (key, amount)), k),
                keyed_total(entries.push((key, amount)), k),
            ) by {
                lemma_total_insert(entries, i as int, (key, amount), k);
            }
        }
    }

    /// Adds `coefficient` to the product of `left` and `right` filed under
    /// `origin`; the pair is stored with its factors in canonical order.
    fn add_quadratic(&mut self, coefficient: Rational, left: CorrelatorKey, right: CorrelatorKey, origin: TermOrigin)
        ensures
            same_totals(
                quadratic_entries(final(self).quadratic@),
                quadratic_entries(old(self).quadratic@).push(
                    (
                        (ordered_pair(left@, right@).0, ordered_pair(left@, right@).1, origin_key(origin)),
                        coefficient@,
                    ),
                ),
            ),
            final(self).constants == old(self).constants,
            final(self).linear == old(self).linear,
            old(self).denominators_positive() ==> final(self).denominators_positive(),
            final(self).entry_count() <= old(self).entry_count() + 1,
    {
        let ghost entries = quadratic_entries(self.quadratic@);
        let ghost key = (ordered_pair(left@, right@).0, ordered_pair(left@, right@).1, origin_key(origin));
        let ghost amount = coefficient@;
        proof {
            use_type_invariant(&coefficient);
        }
        if coefficient.is_zero() {
            proof {
                assert forall|k: (CorrelatorKeyView, CorrelatorKeyView, (int, Seq<int>))| same_value(
                    #[trigger] keyed_total(entries, k),
                    keyed_total(entries.push((key, amount)), k),
                ) by {
                    lemma_total_push_zero(entries, (key, amount), k);
                }
            }
            return;
        }
        proof {
            lemma_ordered_pair_symmetric(left@, right@);
        }
        let (first, second) = match right.compare(&left) {
            Order::Less => (right, left),
            _ => (left, right),
        };
        let mut i: usize = 0;
        while i < self.quadratic.len()
            invariant
                i <= self.quadratic@.len(),
                *self == *old(self),
                entries == quadratic_entries(self.quadratic@),
                key == (ordered_pair(first@, second@).0, ordered_pair(first@, second@).1, origin_key(origin)),
                key == (ordered_pair(left@, right@).0, ordered_pair(left@, right@).1, origin_key(origin)),
                amount == coefficient@,
            decreases self.quadratic@.len() - i,
        {
            let order = then_order(
                then_order(self.quadratic[i].0.compare(&first), self.quadratic[i].1.compare(&second)),
                compare_origin(&self.quadratic[i].2, &origin),
            );
            match order {
                Order::Equal => {
                    let sum = self.quadratic[i].3.add(&coefficient);
                    proof {
                        use_type_invariant(&sum);
                        let e = self.quadratic@[i as int];
                        lemma_origin_order_zero(e.2, origin);
                        lemma_correlator_order_antisymmetric(e.0@, first@);
                        lemma_correlator_order_antisymmetric(e.1@, second@);
                        let exact = entries.update(i as int, (entries[i as int].0, rat_add(entries[i as int].1, amount)));
                        assert(exact.update(i as int, (exact[i as int].0, sum@)) =~= entries.update(
                            i as int,
                            (key, sum@),
                        ));
                        assert forall|k: (CorrelatorKeyView, CorrelatorKeyView, (int, Seq<int>))| same_value(
                            #[trigger] keyed_total(entries.update(i as int, (key, sum@)), k),
                            keyed_total(entries.push((key, amount)), k),
                        ) by {
                            lemma_total_replace(exact, i as int, sum@, k);
                            lemma_total_accumulate(entries, i as int, amount, k);
                        }
                    }
                    self.quadratic.set(i, (first, second, origin, sum));
                    proof {
                        assert(quadratic_entries(self.quadratic@) =~= entries.update(i as int, (key, sum@)));
                    }
                    return;
                },
                Order::Greater => {
                    break;
                },
                Order::Less => {},
            }
            i = i + 1;
        }
        self.quadratic.insert(i, (first, second, origin, coefficient));
        proof {
            assert(quadratic_entries(self.quadratic@) =~= entries.insert(i as int, (key, amount)));
            assert forall|k: (CorrelatorKeyView, CorrelatorKeyView, (int, Seq<int>))| same_value(
                #[trigger] keyed_total(entries.insert(i as int, (key, amount)), k),
                keyed_total(entries.push((key, amount)), k),
            ) by {
                lemma_total_insert(entries, i as int, (key, amount), k);
            }
        }
    }

    /// Constants, then linear, then quadratic terms, each in key order,
    /// without the coefficients that cancelled to zero.
    fn finish(self) -> (terms: Vec<ConstraintTerm<Rational>>)
        ensures
            terms@ == constant_terms(self.constants@) + linear_terms(self.linear@) + quadratic_terms(
                self.quadratic@,
            ),
            forall|i: int| 0 <= i < terms@.len() ==> term_coefficient(#[trigger] terms@[i]).0 != 0,
            terms@.len() <= self.entry_count(),
    {
        let mut terms: Vec<ConstraintTerm<Rational>> = Vec::new();
        let TermAccumulator { constants, linear, quadratic } = self;
        let ghost ic = constants@;
        let ghost il = linear@;
        let ghost iq = quadratic@;
        let mut constants = reversed(constants);
        let mut linear = reversed(linear);
        let mut quadratic = reversed(quadratic);
        proof {
            assert(ic.subrange(0, ic.len() as int) =~= ic);
            assert(ic.take(0) =~= Seq::<(TermOrigin, Rational)>::empty());
        }
        while constants.len() > 0
            invariant
                constants@.len() <= ic.len(),
                constants@ == ic.subrange(ic.len() - constants@.len(), ic.len() as int).reverse(),
                terms@ == constant_terms(ic.take(ic.len() - constants@.len())),
                terms@.len() <= ic.len() - constants@.len(),
                forall|i: int| 0 <= i < terms@.len() ==> term_coefficient(#[trigger] terms@[i]).0 != 0,
            decreases constants@.len(),
        {
            let ghost done = ic.len() - constants@.len();
            let (origin, coefficient) = constants.pop().unwrap();
            proof {
                assert(ic.take(done + 1).drop_last() =~= ic.take(done));
                assert(constants@ =~= ic.subrange(done + 1, ic.len() as int).reverse());
            }
            if !coefficient.is_zero() {
                terms.push(ConstraintTerm::Constant { coefficient, origin });
            }
        }
        proof {
            assert(ic.take(ic.len() as int) =~= ic);
            assert(il.subrange(0, il.len() as int) =~= il);
            assert(il.take(0) =~= Seq::<(CorrelatorKey, TermOrigin, Rational)>::empty());
            assert(terms@ =~= constant_terms(ic) + linear_terms(il.take(0)));
        }
        while linear.len() > 0
            invariant
                linear@.len() <= il.len(),
                linear@ == il.subrange(il.len() - linear@.len(), il.len() as int).reverse(),
                terms@ == constant_terms(ic) + linear_terms(il.take(il.len() - linear@.len())),
                terms@.len() <= ic.len() + (il.len() - linear@.len()),
                forall|i: int| 0 <= i < terms@.len() ==> term_coefficient(#[trigger] terms@[i]).0 != 0,
            decreases linear@.len(),
        {
            let ghost done = il.len() - linear@.len();
            let ghost before = terms@;
            let (correlator, origin, coefficient) = linear.pop().unwrap();
            proof {
                assert(il.take(done + 1).drop_last() =~= il.take(done));
                assert(linear@ =~= il.subrange(done + 1, il.len() as int).reverse());
            }
            if !coefficient.is_zero() {
                terms.push(ConstraintTerm::Linear(LinearTerm::new(coefficient, correlator, origin)));
                proof {
                    assert(terms@ =~= constant_terms(ic) + linear_terms(il.take(done + 1)));
                }
            }
        }
        proof {
            assert(il.take(il.len() as int) =~= il);
            assert(iq.subrange(0, iq.len() as int) =~= iq);
            assert(iq.take(0) =~= Seq::<(CorrelatorKey, CorrelatorKey, TermOrigin, Rational)>::empty());
            assert(terms@ =~= constant_terms(ic) + linear_terms(il) + quadratic_terms(iq.take(0)));
        }
        while quadratic.len() > 0
            invariant
                quadratic@.len() <= iq.len(),
                quadratic@ == iq.subrange(iq.len() - quadratic@.len(), iq.len() as int).reverse(),
                terms@ == constant_terms(ic) + linear_terms(il) + quadratic_terms(
                    iq.take(iq.len() - quadratic@.len()),
                ),
                terms@.len() <= ic.len() + il.len() + (iq.len() - quadratic@.len()),
                forall|i: int| 0 <= i < terms@.len() ==> term_coefficient(#[trigger] terms@[i]).0 != 0,
            decreases quadratic@.len(),
        {
            let ghost done = iq.len() - quadratic@.len();
            let (left, right, origin, coefficient) = quadratic.pop().unwrap();
            proof {
                assert(iq.take(done + 1).drop_last() =~= iq.take(done));
                assert(quadratic@ =~= iq.subrange(done + 1, iq.len() as int).reverse());
            }
            if !coefficient.is_zero() {
                let term = QuadraticTerm::new(coefficient, left, right, origin);
                terms.push(ConstraintTerm::Quadratic(term));
                proof {
                    assert(terms@ =~= constant_terms(ic) + linear_terms(il) + quadratic_terms(iq.take(done + 1)));
                }
            }
        }
        proof {
            assert(iq.take(iq.len() as int) =~= iq);
        }
        terms
    }
}

/// The items of `v` in reverse order.
fn reversed<T>(v: Vec<T>) -> (r: Vec<T>)
    ensures
        r@ == v@.reverse(),
{
    let mut source = v;
    let ghost initial = source@;
    let mut r: Vec<T> = Vec::new();
    while source.len() > 0
        invariant
            source@ == initial.take(source@.len() as int),
            r@ == initial.skip(source@.len() as int).reverse(),
            source@.len() <= initial.len(),
        decreases source@.len(),
    {
        let ghost before = source@.len();
        let item = source.pop().unwrap();
        proof {
            assert(item == initial[before - 1]);
        }
        r.push(item);
        proof {
            assert(initial.skip(before - 1).reverse() =~= initial.skip(before as int).reverse().push(initial[before - 1]));
            assert(source@ =~= initial.take(before - 1));
        }
    }
    proof {
        assert(initial.skip(0) =~= initial);
    }
    r
}

/// The coefficient of a term, as a fraction.
pub open spec fn term_coefficient(t: ConstraintTerm<Rational>) -> RationalView {
    match t {
        ConstraintTerm::Constant { coefficient, .. } => coefficient@,
        ConstraintTerm::Linear(term) => term.coefficient@,
        ConstraintTerm::Quadratic(term) => term.coefficient@,
    }
}

/// The geometric data the expansion reads, after validation: a pairing, an
/// inverse and a `c_1` action of the basis size, and a unit in the basis.
pub open spec fn expansion_data_ready(state: StateSpace) -> bool {
    let n = state.basis@.len();
    &&& state.pairing is Some
    &&& state.c1_action is Some
    &&& state.pairing->0.metric@.len() == n
    &&& state.pairing->0.inverse@.len() == n
    &&& state.c1_action->0@.len() == n
    &&& matrix_cells_fit(n)
    &&& state.unit.0 < n
}

/// Every insertion names a basis element of a state space of size `n`.
pub open spec fn insertions_in_basis(external: Seq<Descendant>, n: nat) -> bool {
    forall|i: int| 0 <= i < external.len() ==> (#[trigger] external[i]).class.0 < n
}

proof fn lemma_valid_data_ready(state: StateSpace, d: nat, anomaly: Option<RationalView>)
    requires
        compact_virasoro_data_valid(state, d, anomaly),
    ensures
        expansion_data_ready(state),
{
}

/// `external` with `extra` appended.
fn with_insertion(external: &Vec<Descendant>, extra: Descendant) -> (out: Vec<Descendant>)
    ensures
        out@ == external@.push(extra),
{
    let mut out = copy_descendants(external);
    out.push(extra);
    out
}

/// The linear entry `(key, 1)` of the correlator with insertion `count - 1`
/// lowered, for each of the first `count` insertions of positive psi power.
pub open spec fn lowered_additions(genus: usize, degree: Seq<i64>, external: Seq<Descendant>, count: nat) -> Seq<
    ((CorrelatorKeyView, (int, Seq<int>)), RationalView),
>
    decreases count,
{
    if count == 0 {
        Seq::empty()
    } else {
        let j = count - 1;
        let rest = lowered_additions(genus, degree, external, j as nat);
        let d = external[j];
        if d.psi_power > 0 {
            let lowered = external.update(j, Descendant { psi_power: (d.psi_power - 1) as usize, class: d.class });
            rest.push(((correlator_view(genus, degree, lowered), origin_key(TermOrigin::LinearOperator)), (1, 1)))
        } else {
            rest
        }
    }
}

/// The linear entries of the string operator: `-<tau_0(1) ...>`, then one
/// lowered correlator for each positive psi power, in insertion order.
pub open spec fn string_linear_additions(genus: usize, degree: Seq<i64>, external: Seq<Descendant>, unit: BasisId) -> Seq<
    ((CorrelatorKeyView, (int, Seq<int>)), RationalView),
> {
    seq![
        ((correlator_view(genus, degree, external.push(Descendant { psi_power: 0, class: unit })), origin_key(
            TermOrigin::LinearOperator,
        )), (-1, 1)),
    ] + lowered_additions(genus, degree, external, external.len())
}

/// The constant entry of the string operator: the pairing of the two
/// insertions of the unstable genus-zero, degree-zero two-point sector.
pub open spec fn string_constant_additions(state: StateSpace, genus: usize, degree: Seq<i64>, external: Seq<Descendant>) -> Seq<
    ((int, Seq<int>), RationalView),
> {
    if genus == 0 && (forall|i: int| 0 <= i < degree.len() ==> degree[i] == 0) && external.len() == 2
        && external[0].psi_power == 0 && external[1].psi_power == 0 {
        seq![
            (origin_key(TermOrigin::UnstableCorrection), state.pairing->0.metric@[external[0].class.0 as int][external[1].class.0 as int]),
        ]
    } else {
        Seq::empty()
    }
}

/// The string operator `L_{-1}`: `-<tau_0(1) ...>` plus one term lowering
/// each positive psi power, and the unstable degree-zero two-point pairing.
fn generate_string_terms(
    state: &StateSpace,
    genus: usize,
    degree: &CurveClass,
    external: &Vec<Descendant>,
    terms: &mut TermAccumulator,
)
    requires
        expansion_data_ready(*state),
        insertions_in_basis(external@, state.basis@.len()),
        old(terms).denominators_positive(),
    ensures
        final(terms).denominators_positive(),
        same_totals(
            linear_entries(final(terms).linear@),
            linear_entries(old(terms).linear@) + string_linear_additions(genus, degree@, external@, state.unit),
        ),
        same_totals(
            constant_entries(final(terms).constants@),
            constant_entries(old(terms).constants@) + string_constant_additions(*state, genus, degree@, external@),
        ),
        final(terms).quadratic == old(terms).quadratic,
        final(terms).entry_count() <= old(terms).entry_count() + external@.len() + 2,
{
    let ghost start_count = terms.entry_count();
    let ghost linear0 = linear_entries(terms.linear@);
    let ghost constants0 = constant_entries(terms.constants@);
    let minus_one = Rational::new(-1, 1);
    proof {
        use_type_invariant(&minus_one);
    }
    let ghost first_amount = minus_one@;
    let with_unit = with_insertion(external, Descendant::new(0, state.unit));
    let first_key = CorrelatorKey::new(genus, degree.clone(), with_unit);
    proof {
        lemma_sorted_view_unique(first_key@.2, external@.push(Descendant { psi_power: 0, class: state.unit }));
    }
    let ghost first_entry = ((first_key@, origin_key(TermOrigin::LinearOperator)), first_amount);
    terms.add_linear(minus_one, first_key, TermOrigin::LinearOperator);
    let ghost base = linear0 + seq![
        ((correlator_view(genus, degree@, external@.push(Descendant { psi_power: 0, class: state.unit })), origin_key(
            TermOrigin::LinearOperator,
        )), (-1, 1)),
    ];
    proof {
        lemma_same_totals_reflexive(linear0);
        lemma_same_totals_step(
            linear0,
            linear_entries(terms.linear@),
            linear0,
            first_entry,
            base[base.len() - 1],
        );
        assert(linear0.push(base[base.len() - 1]) =~= base);
        assert(base + lowered_additions(genus, degree@, external@, 0) =~= base);
    }
    let mut index: usize = 0;
    while index < external.len()
        invariant
            index <= external@.len(),
            expansion_data_ready(*state),
            insertions_in_basis(external@, state.basis@.len()),
            terms.denominators_positive(),
            same_totals(
                linear_entries(terms.linear@),
                base + lowered_additions(genus, degree@, external@, index as nat),
            ),
            terms.constants == old(terms).constants,
            terms.quadratic == old(terms).quadratic,
            terms.entry_count() <= start_count + 1 + index,
        decreases external@.len() - index,
    {
        let insertion = external[index];
        if insertion.psi_power > 0 {
            let mut replaced = copy_descendants(external);
            replaced.set(index, Descendant::new(insertion.psi_power - 1, insertion.class));
            let key = CorrelatorKey::new(genus, degree.clone(), replaced);
            let one = Rational::one();
            proof {
                use_type_invariant(&one);
                lemma_sorted_view_unique(key@.2, replaced@);
            }
            let ghost entry = ((key@, origin_key(TermOrigin::LinearOperator)), one@);
            let ghost current = linear_entries(terms.linear@);
            let ghost done = base + lowered_additions(genus, degree@, external@, index as nat);
            terms.add_linear(one, key, TermOrigin::LinearOperator);
            proof {
                let lowered = external@.update(
                    index as int,
                    Descendant { psi_power: (insertion.psi_power - 1) as usize, class: insertion.class },
                );
                assert(replaced@ =~= lowered);
                let spec_entry = ((correlator_view(genus, degree@, lowered), origin_key(TermOrigin::LinearOperator)), (1, 1));
                lemma_same_totals_step(current, linear_entries(terms.linear@), done, entry, spec_entry);
                assert(done.push(spec_entry) =~= base + lowered_additions(genus, degree@, external@, (index + 1) as nat));
            }
        } else {
            proof {
                assert(lowered_additions(genus, degree@, external@, (index + 1) as nat) == lowered_additions(
                    genus,
                    degree@,
                    external@,
                    index as nat,
                ));
            }
        }
        index = index + 1;
    }
    proof {
        assert(base + lowered_additions(genus, degree@, external@, external@.len()) =~= linear0
            + string_linear_additions(genus, degree@, external@, state.unit));
    }
    if genus == 0 && degree.is_zero() && external.len() == 2 && external[0].psi_power == 0
        && external[1].psi_power == 0 {
        let metric = match &state.pairing {
            Some(pairing) => &pairing.metric,
            None => {
                return;
            },
        };
        let _ = metric.size();
        let value = metric.entry(external[0].class.0, external[1].class.0).clone();
        proof {
            use_type_invariant(&value);
        }
        let ghost entry = (origin_key(TermOrigin::UnstableCorrection), value@);
        terms.add_constant(value, TermOrigin::UnstableCorrection);
        proof {
            lemma_same_totals_reflexive(constants0);
            lemma_same_totals_step(constants0, constant_entries(terms.constants@), constants0, entry, entry);
            assert(constants0.push(entry) =~= constants0 + string_constant_additions(*state, genus, degree@, external@));
        }
    } else {
        proof {
            lemma_same_totals_reflexive(constants0);
            assert(constants0 + string_constant_additions(*state, genus, degree@, external@) =~= constants0);
        }
    }
}

/// `sum_c eta^{ac} w_c (R^i)^b_c` for `a = left`, `b = right`.
fn weighted_raised_entry(
    power: &StateSpaceMatrix,
    inverse_metric: &StateSpaceMatrix,
    input_weights: &Vec<Rational>,
    left: usize,
    right: usize,
) -> (value: Rational)
    requires
        power@.len() == inverse_metric@.len(),
        input_weights@.len() == power@.len(),
        left < power@.len(),
        right < power@.len(),
    ensures
        same_value(value@, weighted_raised_sum(power@, inverse_metric@, rational_views(input_weights@), left as int, right as int, power@.len())),
{
    let size = power.size();
    let _ = inverse_metric.size();
    let mut value = Rational::zero();
    let mut middle: usize = 0;
    while middle < size
        invariant
            size == power@.len(),
            size == inverse_metric@.len(),
            input_weights@.len() == size,
            left < size,
            right < size,
            middle <= size,
            same_value(value@, weighted_raised_sum(power@, inverse_metric@, rational_views(input_weights@), left as int, right as int, middle as nat)),
        decreases size - middle,
    {
        let a = inverse_metric.entry(left, middle);
        let w = &input_weights[middle];
        let c = power.entry(right, middle);
        let aw = a.mul(w);
        let product = aw.mul(c);
        let next = value.add(&product);
        proof {
            let ws = rational_views(input_weights@);
            assert(ws[middle as int] == w@);
            let before = weighted_raised_sum(power@, inverse_metric@, ws, left as int, right as int, middle as nat);
            let term = rat_mul(rat_mul(a@, w@), c@);
            use_type_invariant(&value);
            use_type_invariant(&product);
            use_type_invariant(&aw);
            use_type_invariant(c);
            lemma_mul_congruent(aw@, rat_mul(a@, w@), c@, c@);
            lemma_denominator_product_positive(aw@, c@);
            lemma_same_value_transitive(product@, rat_mul(aw@, c@), term);
            lemma_add_congruent(value@, before, product@, term);
            lemma_denominator_product_positive(value@, product@);
            lemma_same_value_transitive(next@, rat_add(value@, product@), rat_add(before, term));
        }
        value = next;
        middle = middle + 1;
    }
    value
}

/// The values of a list of rationals.
pub open spec fn rational_views(v: Seq<Rational>) -> Seq<RationalView> {
    Seq::new(v.len(), |i: int| v[i]@)
}

/// `(R^i)_{ab} = sum_c (R^i)^c_a eta_{cb}`.
fn lowered_entry(power: &StateSpaceMatrix, metric: &StateSpaceMatrix, left: usize, right: usize) -> (value: Rational)
    requires
        power@.len() == metric@.len(),
        left < power@.len(),
        right < power@.len(),
    ensures
        same_value(value@, lowered_sum(power@, metric@, left as int, right as int, power@.len())),
{
    let size = power.size();
    let _ = metric.size();
    let mut value = Rational::zero();
    let mut middle: usize = 0;
    while middle < size
        invariant
            size == power@.len(),
            size == metric@.len(),
            left < size,
            right < size,
            middle <= size,
            same_value(value@, lowered_sum(power@, metric@, left as int, right as int, middle as nat)),
        decreases size - middle,
    {
        let a = power.entry(middle, left);
        let b = metric.entry(middle, right);
        let product = a.mul(b);
        let next = value.add(&product);
        proof {
            let term = rat_mul(a@, b@);
            let before = lowered_sum(power@, metric@, left as int, right as int, middle as nat);
            use_type_invariant(&value);
            use_type_invariant(&product);
            lemma_add_congruent(value@, before, product@, term);
            lemma_denominator_product_positive(value@, product@);
            lemma_same_value_transitive(next@, rat_add(value@, product@), rat_add(before, term));
        }
        value = next;
        middle = middle + 1;
    }
    value
}

/// `sum_{c < count} eta^{left c} w_c power[right][c]`.
pub open spec fn weighted_raised_sum(power: MatrixView, inverse_metric: MatrixView, weights: Seq<RationalView>, left: int, right: int, count: nat) -> RationalView
    decreases count,
{
    if count == 0 {
        rat_of_int(0)
    } else {
        rat_add(weighted_raised_sum(power, inverse_metric, weights, left, right, (count - 1) as nat),
            rat_mul(rat_mul(inverse_metric[left][count - 1], weights[count - 1]), power[right][count - 1]))
    }
}

/// `shifted` respects equality of fractions.
proof fn lemma_shifted_congruent(x: RationalView, y: RationalView, offset: nat)
    requires
        same_value(x, y),
    ensures
        same_value(shifted(x, offset), shifted(y, offset)),
{
    let c = rat_of_int(offset as int);
    lemma_add_congruent(x, y, c, c);
}

/// The elementary symmetric polynomials respect equality of fractions.
proof fn lemma_elementary_congruent(x: RationalView, y: RationalView, count: nat, j: nat)
    requires
        same_value(x, y),
    ensures
        same_value(elementary(x, count, j), elementary(y, count, j)),
    decreases count,
{
    if j > 0 && count > 0 {
        let c1 = (count - 1) as nat;
        let j1 = (j - 1) as nat;
        lemma_elementary_congruent(x, y, c1, j);
        lemma_elementary_congruent(x, y, c1, j1);
        lemma_shifted_congruent(x, y, c1);
        lemma_mul_congruent(elementary(x, c1, j1), elementary(y, c1, j1), shifted(x, c1), shifted(y, c1));
        lemma_add_congruent(
            elementary(x, c1, j),
            elementary(y, c1, j),
            rat_mul(elementary(x, c1, j1), shifted(x, c1)),
            rat_mul(elementary(y, c1, j1), shifted(y, c1)),
        );
    }
}

/// Getzler's bracket respects equality of fractions.
proof fn lemma_getzler_bracket_congruent(x: RationalView, y: RationalView, k: nat, i: nat)
    requires
        same_value(x, y),
    ensures
        same_value(getzler_bracket_value(x, k, i), getzler_bracket_value(y, k, i)),
{
    if i <= k + 1 {
        lemma_elementary_congruent(x, y, k + 1, (k + 1 - i) as nat);
    }
}

/// The shifted grading respects equality of fractions in the shift, and has
/// a positive denominator with the shift.
proof fn lemma_shifted_grading_congruent(p: int, d: int, s: RationalView, t: RationalView)
    requires
        same_value(s, t),
        s.1 > 0,
    ensures
        same_value(shifted_grading_value(p, d, s), shifted_grading_value(p, d, t)),
        shifted_grading_value(p, d, s).1 > 0,
{
    let a = rat_sub(rat_of_int(p), (d, 2int));
    lemma_add_congruent(a, a, s, t);
    lemma_add_congruent(rat_add(a, s), rat_add(a, t), (1int, 2int), (1int, 2int));
    assert(a.1 == 2);
    lemma_denominator_product_positive(a, s);
    lemma_denominator_product_positive(rat_add(a, s), (1int, 2int));
}

/// The raised sum respects equality of fractions in the weights.
proof fn lemma_weighted_sum_congruent(
    power: MatrixView,
    inverse_metric: MatrixView,
    w: Seq<RationalView>,
    v: Seq<RationalView>,
    left: int,
    right: int,
    count: nat,
)
    requires
        forall|t: int| 0 <= t < count ==> same_value(#[trigger] w[t], v[t]),
    ensures
        same_value(
            weighted_raised_sum(power, inverse_metric, w, left, right, count),
            weighted_raised_sum(power, inverse_metric, v, left, right, count),
        ),
    decreases count,
{
    if count > 0 {
        let c = count - 1;
        lemma_weighted_sum_congruent(power, inverse_metric, w, v, left, right, c as nat);
        let e = inverse_metric[left][c];
        let q = power[right][c];
        assert(same_value(w[c], v[c]));
        lemma_mul_congruent(e, e, w[c], v[c]);
        lemma_mul_congruent(rat_mul(e, w[c]), rat_mul(e, v[c]), q, q);
        lemma_add_congruent(
            weighted_raised_sum(power, inverse_metric, w, left, right, c as nat),
            weighted_raised_sum(power, inverse_metric, v, left, right, c as nat),
            rat_mul(rat_mul(e, w[c]), q),
            rat_mul(rat_mul(e, v[c]), q),
        );
    }
}

/// The raised sum of positive-denominator entries has a positive denominator.
proof fn lemma_weighted_sum_denominator(
    power: MatrixView,
    inverse_metric: MatrixView,
    w: Seq<RationalView>,
    left: int,
    right: int,
    count: nat,
)
    requires
        square(power),
        square(inverse_metric),
        positive_denominators(power),
        positive_denominators(inverse_metric),
        0 <= left < inverse_metric.len(),
        0 <= right < power.len(),
        count <= power.len(),
        count <= inverse_metric.len(),
        forall|t: int| 0 <= t < count ==> (#[trigger] w[t]).1 > 0,
    ensures
        weighted_raised_sum(power, inverse_metric, w, left, right, count).1 > 0,
    decreases count,
{
    if count > 0 {
        let c = count - 1;
        lemma_weighted_sum_denominator(power, inverse_metric, w, left, right, c as nat);
        let e = inverse_metric[left][c];
        let q = power[right][c];
        assert(inverse_metric[left].len() == inverse_metric.len());
        assert(power[right].len() == power.len());
        assert(e.1 > 0);
        assert(q.1 > 0);
        assert(w[c].1 > 0);
        lemma_denominator_product_positive(e, w[c]);
        lemma_denominator_product_positive(rat_mul(e, w[c]), q);
        lemma_denominator_product_positive(
            weighted_raised_sum(power, inverse_metric, w, left, right, c as nat),
            rat_mul(rat_mul(e, w[c]), q),
        );
    }
}

/// Fractions of the same value with nonzero denominators are zero together.
proof fn lemma_same_value_zero(a: RationalView, b: RationalView)
    requires
        same_value(a, b),
        a.1 != 0,
        b.1 != 0,
    ensures
        a.0 == 0 <==> b.0 == 0,
{
    if a.0 == 0 {
        assert(b.0 * a.1 == 0);
        assert(b.0 == 0) by (nonlinear_arith)
            requires
                b.0 * a.1 == 0,
                a.1 != 0,
        ;
    }
    if b.0 == 0 {
        assert(a.0 * b.1 == 0);
        assert(a.0 == 0) by (nonlinear_arith)
            requires
                a.0 * b.1 == 0,
                b.1 != 0,
        ;
    }
}

/// `mu + shift + 1/2` for the basis degree `p`: `p - d/2 + shift + 1/2`.
fn shifted_grading(hodge_p_degree: usize, dimension: usize, shift: &Rational) -> (value: Rational)
    ensures
        same_value(value@, shifted_grading_value(hodge_p_degree as int, dimension as int, shift@)),
{
    let half = Rational::new(1, 2);
    let half_dimension = Rational::new(dimension as i128, 2);
    let p = Rational::from_usize(hodge_p_degree);
    let lowered = p.sub(&half_dimension);
    let shifted = lowered.add(shift);
    let value = shifted.add(&half);
    proof {
        use_type_invariant(&half);
        use_type_invariant(&half_dimension);
        use_type_invariant(&p);
        use_type_invariant(&lowered);
        use_type_invariant(&shifted);
        use_type_invariant(shift);
        let pv = rat_of_int(hodge_p_degree as int);
        let hd = (dimension as int, 2int);
        let hv = (1int, 2int);
        let l = rat_sub(pv, hd);
        let sh = rat_add(l, shift@);
        lemma_sub_congruent(p@, pv, half_dimension@, hd);
        lemma_denominator_product_positive(p@, half_dimension@);
        lemma_same_value_transitive(lowered@, rat_sub(p@, half_dimension@), l);
        lemma_add_congruent(lowered@, l, shift@, shift@);
        lemma_denominator_product_positive(lowered@, shift@);
        lemma_same_value_transitive(shifted@, rat_add(lowered@, shift@), sh);
        lemma_add_congruent(shifted@, sh, half@, hv);
        lemma_denominator_product_positive(shifted@, half@);
        lemma_same_value_transitive(value@, rat_add(shifted@, half@), rat_add(sh, hv));
    }
    value
}

/// `p - d/2 + shift + 1/2`.
pub open spec fn shifted_grading_value(p: int, d: int, shift: RationalView) -> RationalView {
    rat_add(rat_add(rat_sub(rat_of_int(p), (d, 2int)), shift), (1int, 2int))
}

/// `theory <id> <message>`, the spelling of a theory-data validation failure.
fn theory_failure(theory_id: &String, before: &str, after: &String) -> (e: GwError)
    ensures
        e matches GwError::ValidationFailure(m) && m@ == "theory "@ + theory_id@ + before@ + after@,
{
    let mut message = string_from("theory ");
    push_string(&mut message, theory_id);
    push_str(&mut message, before);
    push_string(&mut message, after);
    GwError::ValidationFailure(message)
}

/// A split accepted by the check: both summands of the lattice's rank, and
/// their coordinates adding up to those of `degree`.
pub open spec fn split_checked(split: CurveClassSplit, rank: nat, degree: Seq<i64>) -> bool {
    &&& split.left@.len() == rank
    &&& split.right@.len() == rank
    &&& split.left@.len() == degree.len()
    &&& forall|i: int| 0 <= i < degree.len() ==> #[trigger] degree[i] == split.left@[i] + split.right@[i]
}

/// The theory's decompositions of `degree` pass the checks: `count` of them,
/// each of the lattice's rank and summing to `degree`, none repeated.
pub open spec fn splits_acceptable(splits: Seq<CurveClassSplit>, count: nat, rank: nat, degree: Seq<i64>) -> bool {
    &&& splits.len() == count
    &&& forall|j: int| 0 <= j < splits.len() ==> split_checked(#[trigger] splits[j], rank, degree)
    &&& forall|a: int, b: int| 0 <= a < b < splits.len()
        ==> !(#[trigger] splits[a].left@ == #[trigger] splits[b].left@ && splits[a].right@ == splits[b].right@)
}

/// No decomposition is asked for, or the theory's decompositions are acceptable.
pub open spec fn degree_splits_accepted<T: GwTheory>(theory: T, degree: CurveClass, count: usize) -> bool {
    count == 0 || (theory.spec_admissible_decompositions(degree@) matches Ok(s) && splits_acceptable(
        s,
        count as nat,
        theory.spec_curve_class_space().coordinate_names@.len(),
        degree@,
    ))
}

/// The decompositions used: none when none is asked for, else the theory's.
pub open spec fn accepted_degree_splits<T: GwTheory>(theory: T, degree: CurveClass, count: usize) -> Seq<CurveClassSplit> {
    if count == 0 {
        Seq::empty()
    } else {
        theory.spec_admissible_decompositions(degree@)->Ok_0
    }
}

/// The expansion of `L_k`, `k >= 0`, succeeds: the theory's decompositions
/// pass the checks, the labelled marking splits fit `term_limit` when they
/// are needed, and the genus-one anomaly of `L_0` has characteristic numbers.
pub open spec fn nonnegative_generation_succeeds<T: GwTheory>(
    theory: T,
    k: usize,
    genus: usize,
    degree: CurveClass,
    markings: nat,
    degree_split_count: usize,
    term_limit: usize,
) -> bool {
    &&& degree_splits_accepted(theory, degree, degree_split_count)
    &&& !(k > 0 && degree_split_count > 0 && pow(2, markings) > term_limit)
    &&& !(k == 0 && genus == 1 && (forall|t: int| 0 <= t < degree@.len() ==> degree@[t] == 0) && markings == 0
        && theory.spec_characteristic_numbers() is None)
}

/// The admissible decompositions of `degree`, checked against the count the
/// theory announced: each summand valid, the summands adding to `degree`, no
/// split repeated.
fn checked_degree_splits<T: GwTheory>(
    theory: &T,
    degree: &CurveClass,
    degree_split_count: usize,
) -> (result: Result<Vec<CurveClassSplit>, GwError>)
    ensures
        result is Ok <==> degree_splits_accepted(*theory, *degree, degree_split_count),
        result matches Ok(splits) ==> splits@ == accepted_degree_splits(*theory, *degree, degree_split_count),
        degree_split_count == 0 ==> (result matches Ok(splits) && splits@.len() == 0),
        result matches Ok(splits) ==> {
            &&& splits@.len() == degree_split_count
            &&& forall|j: int| 0 <= j < splits@.len()
                ==> split_checked(#[trigger] splits@[j], theory.spec_curve_class_space().coordinate_names@.len(), degree@)
            &&& forall|a: int, b: int| 0 <= a < b < splits@.len()
                ==> !(#[trigger] splits@[a].left@ == #[trigger] splits@[b].left@ && splits@[a].right@ == splits@[b].right@)
        },
{
    if degree_split_count == 0 {
        return Ok(Vec::new());
    }
    let splits = theory.admissible_decompositions(degree)?;
    if splits.len() != degree_split_count {
        let mut message = string_from("theory ");
        push_string(&mut message, &theory.theory_id());
        push_str(&mut message, " reported ");
        push_usize(&mut message, degree_split_count);
        push_str(&mut message, " admissible decompositions but produced ");
        push_usize(&mut message, splits.len());
        return Err(GwError::ValidationFailure(message));
    }
    let ghost rank = theory.spec_curve_class_space().coordinate_names@.len();
    let mut index: usize = 0;
    while index < splits.len()
        invariant
            index <= splits@.len(),
            degree_split_count > 0,
            splits@.len() == degree_split_count,
            rank == theory.spec_curve_class_space().coordinate_names@.len(),
            theory.spec_admissible_decompositions(degree@) == Ok::<Seq<CurveClassSplit>, GwError>(splits@),
            forall|j: int| 0 <= j < index ==> split_checked(#[trigger] splits@[j], rank, degree@),
            forall|a: int, b: int| 0 <= a < b < index
                ==> !(#[trigger] splits@[a].left@ == #[trigger] splits@[b].left@ && splits@[a].right@ == splits@[b].right@),
        decreases splits@.len() - index,
    {
        let split = &splits[index];
        match theory.curve_class_space().validate(&split.left) {
            Ok(()) => {},
            Err(e) => {
                proof {
                    assert(!split_checked(splits@[index as int], rank, degree@));
                }
                return Err(e);
            },
        }
        match theory.curve_class_space().validate(&split.right) {
            Ok(()) => {},
            Err(e) => {
                proof {
                    assert(!split_checked(splits@[index as int], rank, degree@));
                }
                return Err(e);
            },
        }
        let sums_to_degree = match split.left.checked_add(&split.right) {
            Some(sum) => match sum.compare(degree) {
                Order::Equal => {
                    proof {
                        crate::foundation::theory::lemma_curve_order_equal(sum@, degree@);
                        assert forall|i: int| 0 <= i < degree@.len() implies #[trigger] degree@[i] == split.left@[i] + split.right@[i] by {
                            assert(sum@[i] == split.left@[i] + split.right@[i]);
                        }
                    }
                    true
                },
                _ => {
                    proof {
                        crate::foundation::theory::lemma_curve_order_equal(sum@, degree@);
                        if split_checked(splits@[index as int], rank, degree@) {
                            assert(sum@ =~= degree@);
                        }
                    }
                    false
                },
            },
            None => {
                proof {
                    if split_checked(splits@[index as int], rank, degree@) {
                        assert forall|i: int| 0 <= i < split.left@.len()
                            implies i64::MIN <= #[trigger] split.left@[i] + split.right@[i] <= i64::MAX by {
                            assert(degree@[i] == split.left@[i] + split.right@[i]);
                        }
                    }
                }
                false
            },
        };
        if !sums_to_degree {
            return Err(theory_failure(
                &theory.theory_id(),
                " returned an admissible decomposition that does not sum to ",
                &degree.text(),
            ));
        }
        let mut earlier: usize = 0;
        while earlier < index
            invariant
                earlier <= index,
                index < splits@.len(),
                degree_split_count > 0,
                splits@.len() == degree_split_count,
                rank == theory.spec_curve_class_space().coordinate_names@.len(),
                theory.spec_admissible_decompositions(degree@) == Ok::<Seq<CurveClassSplit>, GwError>(splits@),
                *split == splits@[index as int],
                forall|a: int| 0 <= a < earlier
                    ==> !(#[trigger] splits@[a].left@ == splits@[index as int].left@ && splits@[a].right@ == splits@[index as int].right@),
            decreases index - earlier,
        {
            let previous = &splits[earlier];
            let same_left = match previous.left.compare(&split.left) {
                Order::Equal => true,
                _ => false,
            };
            let same_right = match previous.right.compare(&split.right) {
                Order::Equal => true,
                _ => false,
            };
            proof {
                crate::foundation::theory::lemma_curve_order_equal(previous.left@, split.left@);
                crate::foundation::theory::lemma_curve_order_equal(previous.right@, split.right@);
            }
            if same_left && same_right {
                proof {
                    assert(splits@[earlier as int].left@ == splits@[index as int].left@);
                }
                let mut message = string_from("theory ");
                push_string(&mut message, &theory.theory_id());
                push_str(&mut message, " returned a duplicate admissible decomposition");
                return Err(GwError::ValidationFailure(message));
            }
            earlier = earlier + 1;
        }
        index = index + 1;
    }
    Ok(splits)
}

/// The terms of `L_k`, `k >= 0`: the dilaton shift, the linear operator on
/// each marking, the genus reduction and the degree splittings, and the
/// unstable and genus-one constants.
fn generate_nonnegative_terms<T: GwTheory>(
    theory: &T,
    state: &StateSpace,
    k: usize,
    genus: usize,
    degree: &CurveClass,
    external: &Vec<Descendant>,
    terms: &mut TermAccumulator,
    degree_split_count: usize,
    term_limit: usize,
) -> (result: Result<(), GwError>)
    requires
        expansion_data_ready(*state),
        insertions_in_basis(external@, state.basis@.len()),
        k <= MAX_STANDARD_VIRASORO_OPERATOR_INDEX,
    ensures
        k == 0 && genus == 1 && (forall|t: int| 0 <= t < degree@.len() ==> degree@[t] == 0) && external@.len() == 0
            && theory.spec_characteristic_numbers() is None ==> result is Err,
        k > 0 && degree_split_count > 0 && pow(2, external@.len()) > term_limit ==> result is Err,
        result is Ok <==> nonnegative_generation_succeeds(*theory, k, genus, *degree, external@.len(), degree_split_count, term_limit),
        result is Ok ==> final(terms).entry_count() <= old(terms).entry_count() + term_estimate(
            k as nat,
            genus as nat,
            external@.len(),
            state.basis@.len(),
            degree_split_count as nat,
        ),
        result is Ok ==> exists|e: ExpansionInput|
            #[trigger] expansion_input_of(
                e,
                *state,
                state.c1_action->0@,
                theory.spec_target_dimension(),
                k,
                genus,
                degree@,
                external@,
                theory.spec_curve_class_space().coordinate_names@.len(),
                degree_split_count,
            ) && e.degree_splits == accepted_degree_splits(*theory, *degree, degree_split_count)
            && (old(terms).denominators_positive() ==> {
                &&& final(terms).denominators_positive()
                &&& same_totals(
                    linear_entries(final(terms).linear@),
                    linear_entries(old(terms).linear@) + expansion_linear(e, (k + 2) as nat),
                )
                &&& same_totals(
                    quadratic_entries(final(terms).quadratic@),
                    quadratic_entries(old(terms).quadratic@) + expansion_quadratic(e, (k + 2) as nat),
                )
                &&& same_totals(
                    constant_entries(final(terms).constants@),
                    constant_entries(old(terms).constants@) + expansion_constants(e, theory_anomaly(*theory)),
                )
            }),
{
    let ghost positive = terms.denominators_positive();
    let ghost start_count = terms.entry_count();
    let ghost linear0 = linear_entries(terms.linear@);
    let ghost quadratic0 = quadratic_entries(terms.quadratic@);
    let ghost constants0 = constant_entries(terms.constants@);
    let (pairing, c1) = match (&state.pairing, &state.c1_action) {
        (Some(p), Some(c)) => (p, c),
        _ => {
            return Ok(());
        },
    };
    let size = state.basis.len();
    let _ = pairing.metric.size();
    let _ = pairing.inverse.size();
    let _ = c1.size();
    let dimension = theory.target_dimension();
    let shift_x = Rational::new(3 - dimension as i128, 2);
    proof {
        use_type_invariant(&shift_x);
    }
    let degree_splits = checked_degree_splits(theory, degree, degree_split_count)?;
    let mut powers: Vec<StateSpaceMatrix> = Vec::new();
    let mut power_index: usize = 0;
    while power_index <= k + 1
        invariant
            k <= 64,
            power_index <= k + 2,
            powers@.len() == power_index,
            size == c1@.len(),
            matrix_cells_fit(size as nat),
            forall|j: int| 0 <= j < powers@.len() ==> (#[trigger] powers@[j])@.len() == size,
            forall|j: int|
                0 <= j < powers@.len() ==> same_matrix(
                    (#[trigger] powers@[j])@,
                    binary_power(identity_matrix(c1@.len()), c1@, j as nat),
                ),
        decreases k + 2 - power_index,
    {
        let power = c1.pow(power_index)?;
        powers.push(power);
        power_index = power_index + 1;
    }
    let marking_splits = if k > 0 && degree_splits.len() > 0 {
        labelled_marking_splits(external.as_slice(), term_limit)?
    } else {
        Vec::new()
    };
    let ghost powers_view = Seq::new((k + 2) as nat, |j: int| powers@[j]@);
    let ghost e = ExpansionInput {
        state: *state,
        powers: powers_view,
        dimension,
        k,
        genus,
        degree: degree@,
        external: external@,
        degree_splits: degree_splits@,
        marking_splits: marking_splits@,
    };
    proof {
        assert(split_views(marking_splits@) =~= if k > 0 && degree_split_count > 0 {
            all_marking_splits(external@)
        } else {
            Seq::<(Seq<Descendant>, Seq<Descendant>)>::empty()
        });
        assert(expansion_input_of(
            e,
            *state,
            state.c1_action->0@,
            theory.spec_target_dimension(),
            k,
            genus,
            degree@,
            external@,
            theory.spec_curve_class_space().coordinate_names@.len(),
            degree_split_count,
        ));
        lemma_same_totals_reflexive(linear0);
        lemma_same_totals_reflexive(quadratic0);
        assert(linear0 + expansion_linear(e, 0) =~= linear0);
        assert(quadratic0 + expansion_quadratic(e, 0) =~= quadratic0);
    }
    let unit = state.unit.0;
    let ghost per_pair = second_order_pair_entries(genus, degree_splits@.len(), marking_splits@.len());
    let ghost per_power: int = size + external@.len() * size;
    let mut i: usize = 0;
    while i <= k + 1
        invariant
            k <= 64,
            per_pair == second_order_pair_entries(genus, degree_splits@.len(), marking_splits@.len()),
            per_power == size + external@.len() * size,
            terms.entry_count() <= start_count + i * per_power + split_sum(k, i as nat) * (size * size * per_pair),
            i <= k + 2,
            expansion_data_ready(*state),
            insertions_in_basis(external@, state.basis@.len()),
            size == state.basis@.len(),
            unit == state.unit.0,
            powers@.len() == k + 2,
            forall|j: int| 0 <= j < powers@.len() ==> (#[trigger] powers@[j])@.len() == size,
            forall|j: int| 0 <= j < powers@.len() ==> #[trigger] powers_view[j] == powers@[j]@,
            state.pairing == Some(*pairing),
            pairing.metric@.len() == size,
            pairing.inverse@.len() == size,
            square(pairing.inverse@),
            positive_denominators(pairing.inverse@),
            same_value(shift_x@, (3 - dimension, 2int)),
            shift_x@.1 > 0,
            e == (ExpansionInput {
                state: *state,
                powers: powers_view,
                dimension,
                k,
                genus,
                degree: degree@,
                external: external@,
                degree_splits: degree_splits@,
                marking_splits: marking_splits@,
            }),
            positive ==> terms.denominators_positive(),
            positive ==> same_totals(linear_entries(terms.linear@), linear0 + expansion_linear(e, i as nat)),
            positive ==> same_totals(quadratic_entries(terms.quadratic@), quadratic0 + expansion_quadratic(e, i as nat)),
            terms.constants == old(terms).constants,
        decreases k + 2 - i,
    {
        let power = &powers[i];
        let _ = power.size();
        let pure_bracket = getzler_bracket(shift_x.clone(), k, i)?;
        let negated = pure_bracket.neg();
        proof {
            use_type_invariant(&pure_bracket);
            use_type_invariant(&negated);
            let spec_bracket = getzler_bracket_value((3 - dimension, 2int), k as nat, i as nat);
            lemma_getzler_bracket_congruent(shift_x@, (3 - dimension, 2int), k as nat, i as nat);
            lemma_getzler_bracket_denominator(shift_x@, k as nat, i as nat);
            lemma_same_value_transitive(pure_bracket@, getzler_bracket_value(shift_x@, k as nat, i as nat), spec_bracket);
            lemma_neg_congruent(pure_bracket@, spec_bracket);
            lemma_same_value_transitive(negated@, rat_neg(pure_bracket@), rat_neg(spec_bracket));
            lemma_getzler_bracket_denominator((3 - dimension, 2int), k as nat, i as nat);
        }
        let ghost linear_i = linear0 + expansion_linear(e, i as nat);
        let ghost quadratic_now = quadratic_entries(terms.quadratic@);
        proof {
            assert(linear_i + dilaton_entries(e, i as int, 0) =~= linear_i);
        }
        let ghost i_base = start_count + i * per_power + split_sum(k, i as nat) * (size * size * per_pair);
        let mut output: usize = 0;
        while output < size
            invariant
                output <= size,
                terms.entry_count() <= i_base + output,
                size == power@.len(),
                size == state.basis@.len(),
                square(power@),
                positive_denominators(power@),
                unit < size,
                unit == state.unit.0,
                k <= 64,
                i <= k + 1,
                power@ == e.powers[i as int],
                e.k == k,
                e.dimension == dimension,
                e.state == *state,
                e.genus == genus,
                e.degree == degree@,
                e.external == external@,
                same_value(negated@, rat_neg(getzler_bracket_value((3 - dimension, 2int), k as nat, i as nat))),
                negated@.1 > 0,
                getzler_bracket_value((3 - dimension, 2int), k as nat, i as nat).1 > 0,
                positive ==> terms.denominators_positive(),
                positive ==> same_totals(linear_entries(terms.linear@), linear_i + dilaton_entries(e, i as int, output as nat)),
                quadratic_entries(terms.quadratic@) == quadratic_now,
                terms.constants == old(terms).constants,
            decreases size - output,
        {
            let coefficient = negated.mul(power.entry(output, unit));
            proof {
                use_type_invariant(&coefficient);
                let entry = power@[output as int][unit as int];
                assert(power@[output as int].len() == size);
                lemma_scaled_entry(
                    coefficient@,
                    negated@,
                    rat_neg(getzler_bracket_value((3 - dimension, 2int), k as nat, i as nat)),
                    entry,
                );
                lemma_denominator_product_positive(
                    rat_neg(getzler_bracket_value((3 - dimension, 2int), k as nat, i as nat)),
                    entry,
                );
                lemma_same_value_zero(coefficient@, dilaton_coefficient(e, i as int, output as int));
            }
            let ghost done = linear_i + dilaton_entries(e, i as int, output as nat);
            if !coefficient.is_zero() {
                let insertions = with_insertion(external, Descendant::new(k + 1 - i, BasisId(output)));
                let key = CorrelatorKey::new(genus, degree.clone(), insertions);
                let ghost current = linear_entries(terms.linear@);
                let ghost entry = ((key@, origin_key(TermOrigin::DilatonShift)), coefficient@);
                proof {
                    lemma_sorted_view_unique(key@.2, insertions@);
                }
                terms.add_linear(coefficient, key, TermOrigin::DilatonShift);
                proof {
                    let insertions_spec = e.external.push(
                        Descendant { psi_power: (e.k + 1 - i) as usize, class: BasisId(output as usize) },
                    );
                    let spec_entry = (
                        (correlator_view(e.genus, e.degree, insertions_spec), origin_key(TermOrigin::DilatonShift)),
                        dilaton_coefficient(e, i as int, output as int),
                    );
                    if positive {
                        lemma_same_totals_step(current, linear_entries(terms.linear@), done, entry, spec_entry);
                    }
                    assert(done.push(spec_entry) =~= linear_i + dilaton_entries(e, i as int, (output + 1) as nat));
                }
            } else {
                proof {
                    assert(done =~= linear_i + dilaton_entries(e, i as int, (output + 1) as nat));
                }
            }
            output = output + 1;
        }
        let ghost linear_dilaton = linear_i + dilaton_entries(e, i as int, size as nat);
        proof {
            assert(linear_dilaton + marking_entries(e, i as int, 0) =~= linear_dilaton);
        }
        let mut marking: usize = 0;
        while marking < external.len()
            invariant
                marking <= external@.len(),
                terms.entry_count() <= i_base + size + marking * size,
                insertions_in_basis(external@, size as nat),
                size == power@.len(),
                size == state.basis@.len(),
                square(power@),
                positive_denominators(power@),
                k <= 64,
                i <= k + 1,
                power@ == e.powers[i as int],
                e.k == k,
                e.dimension == dimension,
                e.state == *state,
                e.genus == genus,
                e.degree == degree@,
                e.external == external@,
                positive ==> terms.denominators_positive(),
                positive ==> same_totals(
                    linear_entries(terms.linear@),
                    linear_dilaton + marking_entries(e, i as int, marking as nat),
                ),
                quadratic_entries(terms.quadratic@) == quadratic_now,
                terms.constants == old(terms).constants,
            decreases external@.len() - marking,
        {
            let insertion = external[marking];
            let ghost before_marking = linear_dilaton + marking_entries(e, i as int, marking as nat);
            if insertion.psi_power <= usize::MAX - k && insertion.psi_power + k >= i {
                let output_psi = insertion.psi_power + k - i;
                let basis = &state.basis[insertion.class.0];
                let psi_value = Rational::from_usize(insertion.psi_power);
                proof {
                    use_type_invariant(&psi_value);
                }
                let mu_plus = shifted_grading(basis.hodge_p_degree, dimension, &psi_value);
                proof {
                    use_type_invariant(&mu_plus);
                }
                let ghost mu = mu_plus@;
                let bracket = getzler_bracket(mu_plus, k, i)?;
                let ghost spec_bracket = marking_bracket(e, i as int, marking as int);
                proof {
                    use_type_invariant(&bracket);
                    let p = basis.hodge_p_degree as int;
                    let spec_mu = shifted_grading_value(p, dimension as int, rat_of_int(insertion.psi_power as int));
                    lemma_shifted_grading_congruent(p, dimension as int, psi_value@, rat_of_int(insertion.psi_power as int));
                    lemma_same_value_transitive(mu, shifted_grading_value(p, dimension as int, psi_value@), spec_mu);
                    lemma_getzler_bracket_congruent(mu, spec_mu, k as nat, i as nat);
                    lemma_getzler_bracket_denominator(mu, k as nat, i as nat);
                    lemma_same_value_transitive(bracket@, getzler_bracket_value(mu, k as nat, i as nat), spec_bracket);
                    lemma_shifted_grading_congruent(
                        p,
                        dimension as int,
                        rat_of_int(insertion.psi_power as int),
                        rat_of_int(insertion.psi_power as int),
                    );
                    lemma_getzler_bracket_denominator(spec_mu, k as nat, i as nat);
                    assert(state.basis@[insertion.class.0 as int] == *basis);
                    assert(marking_applies(e, i as int, marking as int));
                    assert(before_marking + marking_outputs(e, i as int, marking as int, 0) =~= before_marking);
                }
                let ghost mk_base = i_base + size + marking * size;
                let mut output: usize = 0;
                while output < size
                    invariant
                        output <= size,
                        terms.entry_count() <= mk_base + output,
                        size == power@.len(),
                        size == state.basis@.len(),
                        square(power@),
                        positive_denominators(power@),
                        insertions_in_basis(external@, size as nat),
                        marking < external@.len(),
                        insertion == external@[marking as int],
                        output_psi == insertion.psi_power + k - i,
                        power@ == e.powers[i as int],
                        e.k == k,
                        e.genus == genus,
                        e.degree == degree@,
                        e.external == external@,
                        spec_bracket == marking_bracket(e, i as int, marking as int),
                        same_value(bracket@, spec_bracket),
                        bracket@.1 > 0,
                        spec_bracket.1 > 0,
                        positive ==> terms.denominators_positive(),
                        positive ==> same_totals(
                            linear_entries(terms.linear@),
                            before_marking + marking_outputs(e, i as int, marking as int, output as nat),
                        ),
                        quadratic_entries(terms.quadratic@) == quadratic_now,
                        terms.constants == old(terms).constants,
                    decreases size - output,
                {
                    let coefficient = bracket.mul(power.entry(output, insertion.class.0));
                    proof {
                        use_type_invariant(&coefficient);
                        let entry = power@[output as int][insertion.class.0 as int];
                        assert(power@[output as int].len() == size);
                        assert(insertion.class.0 < size);
                        lemma_scaled_entry(coefficient@, bracket@, spec_bracket, entry);
                        lemma_denominator_product_positive(spec_bracket, entry);
                        lemma_same_value_zero(coefficient@, marking_coefficient(e, i as int, marking as int, output as int));
                    }
                    let ghost done = before_marking + marking_outputs(e, i as int, marking as int, output as nat);
                    if !coefficient.is_zero() {
                        let mut replaced = copy_descendants(external);
                        replaced.set(marking, Descendant::new(output_psi, BasisId(output)));
                        let key = CorrelatorKey::new(genus, degree.clone(), replaced);
                        let ghost current = linear_entries(terms.linear@);
                        let ghost entry = ((key@, origin_key(TermOrigin::LinearOperator)), coefficient@);
                        proof {
                            lemma_sorted_view_unique(key@.2, replaced@);
                            assert(replaced@ =~= e.external.update(
                                marking as int,
                                Descendant {
                                    psi_power: (e.external[marking as int].psi_power + e.k - i) as usize,
                                    class: BasisId(output as usize),
                                },
                            ));
                        }
                        terms.add_linear(coefficient, key, TermOrigin::LinearOperator);
                        proof {
                            let insertions_spec = e.external.update(
                                marking as int,
                                Descendant {
                                    psi_power: (e.external[marking as int].psi_power + e.k - i) as usize,
                                    class: BasisId(output as usize),
                                },
                            );
                            let spec_entry = (
                                (correlator_view(e.genus, e.degree, insertions_spec), origin_key(TermOrigin::LinearOperator)),
                                marking_coefficient(e, i as int, marking as int, output as int),
                            );
                            if positive {
                                lemma_same_totals_step(current, linear_entries(terms.linear@), done, entry, spec_entry);
                            }
                            assert(done.push(spec_entry) =~= before_marking + marking_outputs(
                                e,
                                i as int,
                                marking as int,
                                (output + 1) as nat,
                            ));
                        }
                    } else {
                        proof {
                            assert(done =~= before_marking + marking_outputs(e, i as int, marking as int, (output + 1) as nat));
                        }
                    }
                    output = output + 1;
                }
                proof {
                    assert(before_marking + marking_outputs(e, i as int, marking as int, size as nat) =~= linear_dilaton
                        + marking_entries(e, i as int, (marking + 1) as nat));
                }
            } else {
                proof {
                    assert(!marking_applies(e, i as int, marking as int));
                    assert(before_marking =~= linear_dilaton + marking_entries(e, i as int, (marking + 1) as nat));
                }
            }
            proof {
                assert(i_base + size + marking * size + size == i_base + size + (marking + 1) * size) by (nonlinear_arith);
            }
            marking = marking + 1;
        }
        let ghost linear_first = linear_dilaton + marking_entries(e, i as int, external@.len());
        proof {
            assert(terms.entry_count() <= i_base + per_power);
            assert(split_count(k, i) * (size * size * per_pair) >= 0) by (nonlinear_arith)
                requires
                    per_pair >= 0,
            ;
        }
        let ghost before_second = terms.entry_count();
        if genus > 0 || degree_splits.len() > 0 {
            let ghost current_linear = linear_entries(terms.linear@);
            let ghost current_quadratic = quadratic_entries(terms.quadratic@);
            let ghost d = power_input(e, i as int);
            add_second_order_terms(
                state,
                power,
                &pairing.inverse,
                dimension,
                k,
                i,
                genus,
                degree,
                external,
                &degree_splits,
                &marking_splits,
                terms,
            )?;
            proof {
                assert(d == SecondOrderInput {
                    state: *state,
                    power: power@,
                    inverse: pairing.inverse@,
                    dimension,
                    k,
                    i,
                    genus,
                    degree: degree@,
                    external: external@,
                    degree_splits: degree_splits@,
                    marking_splits: marking_splits@,
                });
                if positive {
                    lemma_reduction_all_positive(d, split_count(k, i));
                    lemma_split_all_positive(d, split_count(k, i));
                    lemma_same_totals_append(
                        current_linear,
                        linear_entries(terms.linear@),
                        linear_first,
                        reduction_all(d, split_count(k, i)),
                    );
                    lemma_same_totals_append(
                        current_quadratic,
                        quadratic_entries(terms.quadratic@),
                        quadratic0 + expansion_quadratic(e, i as nat),
                        split_all(d, split_count(k, i)),
                    );
                }
                assert(linear_first + reduction_all(d, split_count(k, i)) =~= linear0 + expansion_linear(
                    e,
                    (i + 1) as nat,
                ));
                assert(quadratic0 + expansion_quadratic(e, i as nat) + split_all(d, split_count(k, i))
                    =~= quadratic0 + expansion_quadratic(e, (i + 1) as nat));
            }
        } else {
            proof {
                assert(linear_first =~= linear0 + expansion_linear(e, (i + 1) as nat));
                assert(quadratic0 + expansion_quadratic(e, i as nat) =~= quadratic0 + expansion_quadratic(
                    e,
                    (i + 1) as nat,
                ));
            }
        }
        proof {
            assert(terms.entry_count() <= i_base + per_power + split_count(k, i) * (size * size * per_pair));
            assert(split_sum(k, (i + 1) as nat) == split_sum(k, i as nat) + split_count(k, i));
            assert(i_base + per_power + split_count(k, i) * (size * size * per_pair) == start_count + (i + 1) * per_power
                + split_sum(k, (i + 1) as nat) * (size * size * per_pair)) by (nonlinear_arith)
                requires
                    i_base == start_count + i * per_power + split_sum(k, i as nat) * (size * size * per_pair),
                    split_sum(k, (i + 1) as nat) == split_sum(k, i as nat) + split_count(k, i),
            ;
        }
        i = i + 1;
    }
    proof {
        vstd::arithmetic::power::lemma_pow_positive(2, external@.len());
        assert(marking_splits@.len() == split_views(marking_splits@).len());
        lemma_expansion_within_estimate(
            k,
            genus,
            external@.len(),
            size as nat,
            degree_split_count as nat,
            degree_splits@.len(),
            marking_splits@.len(),
        );
    }
    let ghost estimate = term_estimate(k as nat, genus as nat, external@.len(), size as nat, degree_split_count as nat);
    assert(terms.entry_count() + 2 <= start_count + estimate);
    let ghost unstable_applies = genus == 0 && (forall|t: int| 0 <= t < degree@.len() ==> degree@[t] == 0)
        && external@.len() == 2 && external@[0].psi_power == 0 && external@[1].psi_power == 0;
    let ghost unstable_part = if unstable_applies {
        seq![
            (
                origin_key(TermOrigin::UnstableCorrection),
                lowered_sum(
                    e.powers[e.k + 1],
                    e.state.pairing->0.metric@,
                    e.external[0].class.0 as int,
                    e.external[1].class.0 as int,
                    e.state.basis@.len(),
                ),
            ),
        ]
    } else {
        Seq::<((int, Seq<int>), RationalView)>::empty()
    };
    proof {
        lemma_same_totals_reflexive(constants0);
    }
    if genus == 0 && degree.is_zero() && external.len() == 2 && external[0].psi_power == 0
        && external[1].psi_power == 0 {
        let value = lowered_entry(&powers[k + 1], &pairing.metric, external[0].class.0, external[1].class.0);
        proof {
            use_type_invariant(&value);
        }
        let ghost entry = (origin_key(TermOrigin::UnstableCorrection), value@);
        terms.add_constant(value, TermOrigin::UnstableCorrection);
        proof {
            if positive {
                lemma_same_totals_step(constants0, constant_entries(terms.constants@), constants0, entry, unstable_part[0]);
            }
            assert(constants0.push(unstable_part[0]) =~= constants0 + unstable_part);
        }
    } else {
        proof {
            assert(constants0 =~= constants0 + unstable_part);
        }
    }
    if k == 0 && genus == 1 && degree.is_zero() && external.len() == 0 {
        let anomaly = match theory.virasoro_anomaly() {
            Some(a) => a,
            None => {
                return Err(
                    GwError::UnsupportedInvariant(
                        string_from(
                            "the L_0 genus-one constant requires the canonical theory's top Chern and c1*c_(r-1) characteristic numbers",
                        ),
                    ),
                );
            },
        };
        proof {
            use_type_invariant(&anomaly);
        }
        let label = string_from("genus-one anomaly");
        let ghost entry = (origin_key(TermOrigin::Other(label)), anomaly@);
        let ghost current = constant_entries(terms.constants@);
        terms.add_constant(anomaly, TermOrigin::Other(label));
        proof {
            let spec_entry = ((5int, char_ints("genus-one anomaly"@)), theory_anomaly(*theory));
            if positive {
                lemma_same_totals_step(current, constant_entries(terms.constants@), constants0 + unstable_part, entry, spec_entry);
            }
            assert((constants0 + unstable_part).push(spec_entry) =~= constants0 + expansion_constants(e, theory_anomaly(*theory)));
        }
    } else {
        proof {
            assert(constants0 + unstable_part =~= constants0 + expansion_constants(e, theory_anomaly(*theory)));
        }
    }
    Ok(())
}

/// What the quadratic part of `L_k` for one power of `c_1` reads.
pub struct SecondOrderInput {
    pub state: StateSpace,
    pub power: MatrixView,
    pub inverse: MatrixView,
    pub dimension: usize,
    pub k: usize,
    pub i: usize,
    pub genus: usize,
    pub degree: Seq<i64>,
    pub external: Seq<Descendant>,
    pub degree_splits: Seq<CurveClassSplit>,
    pub marking_splits: Seq<(Vec<Descendant>, Vec<Descendant>)>,
}

/// The sign `(-1)^m`.
pub open spec fn parity_sign(m: i64) -> RationalView {
    if m % 2 == 0 {
        (1, 1)
    } else {
        (-1, 1)
    }
}

/// Getzler's brackets of the shifted gradings `mu_b + m + 1/2` of the basis.
pub open spec fn middle_bracket_values(d: SecondOrderInput, m: i64) -> Seq<RationalView> {
    Seq::new(
        d.state.basis@.len(),
        |b: int|
            getzler_bracket_value(
                shifted_grading_value(d.state.basis@[b].hodge_p_degree as int, d.dimension as int, rat_of_int(m as int)),
                d.k as nat,
                d.i as nat,
            ),
    )
}

/// The coefficient `(-1)^m / 2 * sum_c eta^{ac} [mu_c + m + 1/2] (R^i)^b_c`
/// of the basis pair `(a, b) = (left, right)` at split index `m`.
pub open spec fn second_order_coefficient(d: SecondOrderInput, m: i64, left: int, right: int) -> RationalView {
    rat_mul(
        rat_mul((1, 2), parity_sign(m)),
        weighted_raised_sum(d.power, d.inverse, middle_bracket_values(d, m), left, right, d.state.basis@.len()),
    )
}

/// The psi power of the left factor at split index `m`.
pub open spec fn left_psi(m: i64) -> usize {
    (-m - 1) as usize
}

/// The psi power of the right factor at split index `m`.
pub open spec fn right_psi(d: SecondOrderInput, m: i64) -> usize {
    (m + d.k - d.i) as usize
}

/// The split index of the `count`-th pass.
pub open spec fn split_index(d: SecondOrderInput, count: int) -> i64 {
    (d.i - d.k + count) as i64
}

/// The genus-reduction entry of the basis pair `(left, right)`.
pub open spec fn reduction_entry(d: SecondOrderInput, m: i64, left: int, right: int) -> ((CorrelatorKeyView, (int, Seq<int>)), RationalView) {
    let insertions = d.external.push(Descendant { psi_power: left_psi(m), class: BasisId(left as usize) }).push(
        Descendant { psi_power: right_psi(d, m), class: BasisId(right as usize) },
    );
    (
        (correlator_view((d.genus - 1) as usize, d.degree, insertions), origin_key(TermOrigin::GenusReduction)),
        second_order_coefficient(d, m, left, right),
    )
}

/// The genus-reduction entries of `left` with the first `count` right basis elements.
pub open spec fn reduction_rights(d: SecondOrderInput, m: i64, left: int, count: nat) -> Seq<((CorrelatorKeyView, (int, Seq<int>)), RationalView)>
    decreases count,
{
    if count == 0 {
        Seq::empty()
    } else {
        let right = count - 1;
        let rest = reduction_rights(d, m, left, right as nat);
        if d.genus > 0 && second_order_coefficient(d, m, left, right).0 != 0 {
            rest.push(reduction_entry(d, m, left, right))
        } else {
            rest
        }
    }
}

/// The genus-reduction entries of the first `count` left basis elements.
pub open spec fn reduction_lefts(d: SecondOrderInput, m: i64, count: nat) -> Seq<((CorrelatorKeyView, (int, Seq<int>)), RationalView)>
    decreases count,
{
    if count == 0 {
        Seq::empty()
    } else {
        reduction_lefts(d, m, (count - 1) as nat) + reduction_rights(d, m, count - 1, d.state.basis@.len())
    }
}

/// The genus-reduction entries of the first `count` split indices.
pub open spec fn reduction_all(d: SecondOrderInput, count: nat) -> Seq<((CorrelatorKeyView, (int, Seq<int>)), RationalView)>
    decreases count,
{
    if count == 0 {
        Seq::empty()
    } else {
        reduction_all(d, (count - 1) as nat) + reduction_lefts(d, split_index(d, count - 1), d.state.basis@.len())
    }
}

/// The product entry of a basis pair for a genus, curve and marking split.
pub open spec fn split_entry(d: SecondOrderInput, m: i64, left: int, right: int, g: int, s: int, p: int) -> (
    (CorrelatorKeyView, CorrelatorKeyView, (int, Seq<int>)),
    RationalView,
) {
    let lk = correlator_view(
        g as usize,
        d.degree_splits[s].left@,
        d.marking_splits[p].0@.push(Descendant { psi_power: left_psi(m), class: BasisId(left as usize) }),
    );
    let rk = correlator_view(
        (d.genus - g) as usize,
        d.degree_splits[s].right@,
        d.marking_splits[p].1@.push(Descendant { psi_power: right_psi(d, m), class: BasisId(right as usize) }),
    );
    (
        (ordered_pair(lk, rk).0, ordered_pair(lk, rk).1, origin_key(TermOrigin::DegreeSplitting)),
        second_order_coefficient(d, m, left, right),
    )
}

/// The product entries of the first `count` marking splits.
pub open spec fn split_markings(d: SecondOrderInput, m: i64, left: int, right: int, g: int, s: int, count: nat) -> Seq<
    ((CorrelatorKeyView, CorrelatorKeyView, (int, Seq<int>)), RationalView),
>
    decreases count,
{
    if count == 0 {
        Seq::empty()
    } else {
        split_markings(d, m, left, right, g, s, (count - 1) as nat).push(split_entry(d, m, left, right, g, s, count - 1))
    }
}

/// The product entries of the first `count` curve splits.
pub open spec fn split_curves(d: SecondOrderInput, m: i64, left: int, right: int, g: int, count: nat) -> Seq<
    ((CorrelatorKeyView, CorrelatorKeyView, (int, Seq<int>)), RationalView),
>
    decreases count,
{
    if count == 0 {
        Seq::empty()
    } else {
        split_curves(d, m, left, right, g, (count - 1) as nat) + split_markings(
            d,
            m,
            left,
            right,
            g,
            count - 1,
            d.marking_splits.len(),
        )
    }
}

/// The product entries of the genus splits `0, ..., count - 1`.
pub open spec fn split_genera(d: SecondOrderInput, m: i64, left: int, right: int, count: nat) -> Seq<
    ((CorrelatorKeyView, CorrelatorKeyView, (int, Seq<int>)), RationalView),
>
    decreases count,
{
    if count == 0 {
        Seq::empty()
    } else {
        split_genera(d, m, left, right, (count - 1) as nat) + split_curves(d, m, left, right, count - 1, d.degree_splits.len())
    }
}

/// The product entries of `left` with the first `count` right basis elements
/// whose coefficient does not vanish.
pub open spec fn split_rights(d: SecondOrderInput, m: i64, left: int, count: nat) -> Seq<
    ((CorrelatorKeyView, CorrelatorKeyView, (int, Seq<int>)), RationalView),
>
    decreases count,
{
    if count == 0 {
        Seq::empty()
    } else {
        let right = count - 1;
        let rest = split_rights(d, m, left, right as nat);
        if second_order_coefficient(d, m, left, right).0 != 0 {
            rest + split_genera(d, m, left, right, (d.genus + 1) as nat)
        } else {
            rest
        }
    }
}

/// The product entries of the first `count` left basis elements.
pub open spec fn split_lefts(d: SecondOrderInput, m: i64, count: nat) -> Seq<
    ((CorrelatorKeyView, CorrelatorKeyView, (int, Seq<int>)), RationalView),
>
    decreases count,
{
    if count == 0 {
        Seq::empty()
    } else {
        split_lefts(d, m, (count - 1) as nat) + split_rights(d, m, count - 1, d.state.basis@.len())
    }
}

/// The product entries of the first `count` split indices.
pub open spec fn split_all(d: SecondOrderInput, count: nat) -> Seq<
    ((CorrelatorKeyView, CorrelatorKeyView, (int, Seq<int>)), RationalView),
>
    decreases count,
{
    if count == 0 {
        Seq::empty()
    } else {
        split_all(d, (count - 1) as nat) + split_lefts(d, split_index(d, count - 1), d.state.basis@.len())
    }
}

/// The number of split indices `m` with `i - k <= m <= -1`.
pub open spec fn split_count(k: usize, i: usize) -> nat {
    if i <= k {
        (k - i) as nat
    } else {
        0
    }
}

/// The matrices of the input are square tables of the basis size with
/// positive denominators.
pub open spec fn second_order_ready(d: SecondOrderInput) -> bool {
    &&& square(d.power)
    &&& square(d.inverse)
    &&& positive_denominators(d.power)
    &&& positive_denominators(d.inverse)
    &&& d.power.len() == d.state.basis@.len()
    &&& d.inverse.len() == d.state.basis@.len()
}

/// The coefficients of the quadratic part have positive denominators.
proof fn lemma_second_order_coefficient_positive(d: SecondOrderInput, m: i64, left: int, right: int)
    requires
        second_order_ready(d),
        0 <= left < d.state.basis@.len(),
        0 <= right < d.state.basis@.len(),
    ensures
        second_order_coefficient(d, m, left, right).1 > 0,
{
    let wanted = middle_bracket_values(d, m);
    let n = d.state.basis@.len();
    assert forall|t: int| 0 <= t < n implies (#[trigger] wanted[t]).1 > 0 by {
        let p = d.state.basis@[t].hodge_p_degree as int;
        lemma_shifted_grading_congruent(p, d.dimension as int, rat_of_int(m as int), rat_of_int(m as int));
        lemma_elementary_denominator(
            shifted_grading_value(p, d.dimension as int, rat_of_int(m as int)),
            (d.k + 1) as nat,
            (d.k + 1 - d.i) as nat,
        );
    }
    lemma_weighted_sum_denominator(d.power, d.inverse, wanted, left, right, n);
    lemma_denominator_product_positive(
        rat_mul((1, 2), parity_sign(m)),
        weighted_raised_sum(d.power, d.inverse, wanted, left, right, n),
    );
}

/// The genus-reduction entries have positive denominators.
proof fn lemma_reduction_rights_positive(d: SecondOrderInput, m: i64, left: int, count: nat)
    requires
        second_order_ready(d),
        0 <= left < d.state.basis@.len(),
        count <= d.state.basis@.len(),
    ensures
        positive_values(reduction_rights(d, m, left, count)),
    decreases count,
{
    if count > 0 {
        lemma_reduction_rights_positive(d, m, left, (count - 1) as nat);
        lemma_second_order_coefficient_positive(d, m, left, count - 1);
        let rest = reduction_rights(d, m, left, (count - 1) as nat);
        let e = reduction_entry(d, m, left, count - 1);
        assert forall|t: int| 0 <= t < rest.push(e).len() implies (#[trigger] rest.push(e)[t]).1.1 > 0 by {
            if t < rest.len() {
                assert(rest.push(e)[t] == rest[t]);
            }
        }
    }
}

proof fn lemma_reduction_lefts_positive(d: SecondOrderInput, m: i64, count: nat)
    requires
        second_order_ready(d),
        count <= d.state.basis@.len(),
    ensures
        positive_values(reduction_lefts(d, m, count)),
    decreases count,
{
    if count > 0 {
        lemma_reduction_lefts_positive(d, m, (count - 1) as nat);
        lemma_reduction_rights_positive(d, m, count - 1, d.state.basis@.len());
        lemma_positive_concat(
            reduction_lefts(d, m, (count - 1) as nat),
            reduction_rights(d, m, count - 1, d.state.basis@.len()),
        );
    }
}

proof fn lemma_reduction_all_positive(d: SecondOrderInput, count: nat)
    requires
        second_order_ready(d),
    ensures
        positive_values(reduction_all(d, count)),
    decreases count,
{
    if count > 0 {
        lemma_reduction_all_positive(d, (count - 1) as nat);
        lemma_reduction_lefts_positive(d, split_index(d, count - 1), d.state.basis@.len());
        lemma_positive_concat(
            reduction_all(d, (count - 1) as nat),
            reduction_lefts(d, split_index(d, count - 1), d.state.basis@.len()),
        );
    }
}

/// The product entries have positive denominators.
proof fn lemma_split_markings_positive(d: SecondOrderInput, m: i64, left: int, right: int, g: int, s: int, count: nat)
    requires
        second_order_ready(d),
        0 <= left < d.state.basis@.len(),
        0 <= right < d.state.basis@.len(),
    ensures
        positive_values(split_markings(d, m, left, right, g, s, count)),
    decreases count,
{
    if count > 0 {
        lemma_split_markings_positive(d, m, left, right, g, s, (count - 1) as nat);
        lemma_second_order_coefficient_positive(d, m, left, right);
        let rest = split_markings(d, m, left, right, g, s, (count - 1) as nat);
        let e = split_entry(d, m, left, right, g, s, count - 1);
        assert forall|t: int| 0 <= t < rest.push(e).len() implies (#[trigger] rest.push(e)[t]).1.1 > 0 by {
            if t < rest.len() {
                assert(rest.push(e)[t] == rest[t]);
            }
        }
    }
}

proof fn lemma_split_curves_positive(d: SecondOrderInput, m: i64, left: int, right: int, g: int, count: nat)
    requires
        second_order_ready(d),
        0 <= left < d.state.basis@.len(),
        0 <= right < d.state.basis@.len(),
    ensures
        positive_values(split_curves(d, m, left, right, g, count)),
    decreases count,
{
    if count > 0 {
        lemma_split_curves_positive(d, m, left, right, g, (count - 1) as nat);
        lemma_split_markings_positive(d, m, left, right, g, count - 1, d.marking_splits.len());
        lemma_positive_concat(
            split_curves(d, m, left, right, g, (count - 1) as nat),
            split_markings(d, m, left, right, g, count - 1, d.marking_splits.len()),
        );
    }
}

proof fn lemma_split_genera_positive(d: SecondOrderInput, m: i64, left: int, right: int, count: nat)
    requires
        second_order_ready(d),
        0 <= left < d.state.basis@.len(),
        0 <= right < d.state.basis@.len(),
    ensures
        positive_values(split_genera(d, m, left, right, count)),
    decreases count,
{
    if count > 0 {
        lemma_split_genera_positive(d, m, left, right, (count - 1) as nat);
        lemma_split_curves_positive(d, m, left, right, count - 1, d.degree_splits.len());
        lemma_positive_concat(
            split_genera(d, m, left, right, (count - 1) as nat),
            split_curves(d, m, left, right, count - 1, d.degree_splits.len()),
        );
    }
}

proof fn lemma_split_rights_positive(d: SecondOrderInput, m: i64, left: int, count: nat)
    requires
        second_order_ready(d),
        0 <= left < d.state.basis@.len(),
        count <= d.state.basis@.len(),
    ensures
        positive_values(split_rights(d, m, left, count)),
    decreases count,
{
    if count > 0 {
        lemma_split_rights_positive(d, m, left, (count - 1) as nat);
        lemma_split_genera_positive(d, m, left, count - 1, (d.genus + 1) as nat);
        lemma_positive_concat(
            split_rights(d, m, left, (count - 1) as nat),
            split_genera(d, m, left, count - 1, (d.genus + 1) as nat),
        );
    }
}

proof fn lemma_split_lefts_positive(d: SecondOrderInput, m: i64, count: nat)
    requires
        second_order_ready(d),
        count <= d.state.basis@.len(),
    ensures
        positive_values(split_lefts(d, m, count)),
    decreases count,
{
    if count > 0 {
        lemma_split_lefts_positive(d, m, (count - 1) as nat);
        lemma_split_rights_positive(d, m, count - 1, d.state.basis@.len());
        lemma_positive_concat(split_lefts(d, m, (count - 1) as nat), split_rights(d, m, count - 1, d.state.basis@.len()));
    }
}

proof fn lemma_split_all_positive(d: SecondOrderInput, count: nat)
    requires
        second_order_ready(d),
    ensures
        positive_values(split_all(d, count)),
    decreases count,
{
    if count > 0 {
        lemma_split_all_positive(d, (count - 1) as nat);
        lemma_split_lefts_positive(d, split_index(d, count - 1), d.state.basis@.len());
        lemma_positive_concat(
            split_all(d, (count - 1) as nat),
            split_lefts(d, split_index(d, count - 1), d.state.basis@.len()),
        );
    }
}

/// What the expansion of `L_k` for `k >= 0` reads: the state space, the
/// powers `R^0, ..., R^(k+1)` of `c_1`, and the splits of the degree and of
/// the markings.
pub struct ExpansionInput {
    pub state: StateSpace,
    pub powers: Seq<MatrixView>,
    pub dimension: usize,
    pub k: usize,
    pub genus: usize,
    pub degree: Seq<i64>,
    pub external: Seq<Descendant>,
    pub degree_splits: Seq<CurveClassSplit>,
    pub marking_splits: Seq<(Vec<Descendant>, Vec<Descendant>)>,
}

/// The input of the quadratic part for the power `R^i`.
pub open spec fn power_input(e: ExpansionInput, i: int) -> SecondOrderInput {
    SecondOrderInput {
        state: e.state,
        power: e.powers[i],
        inverse: e.state.pairing->0.inverse@,
        dimension: e.dimension,
        k: e.k,
        i: i as usize,
        genus: e.genus,
        degree: e.degree,
        external: e.external,
        degree_splits: e.degree_splits,
        marking_splits: e.marking_splits,
    }
}

/// `-[3/2 - d/2]^k_i (R^i)^output_unit`, the dilaton-shift coefficient.
pub open spec fn dilaton_coefficient(e: ExpansionInput, i: int, output: int) -> RationalView {
    rat_mul(
        rat_neg(getzler_bracket_value((3 - e.dimension, 2int), e.k as nat, i as nat)),
        e.powers[i][output][e.state.unit.0 as int],
    )
}

/// The dilaton-shift entries of the first `count` output basis elements.
pub open spec fn dilaton_entries(e: ExpansionInput, i: int, count: nat) -> Seq<((CorrelatorKeyView, (int, Seq<int>)), RationalView)>
    decreases count,
{
    if count == 0 {
        Seq::empty()
    } else {
        let output = count - 1;
        let rest = dilaton_entries(e, i, output as nat);
        if dilaton_coefficient(e, i, output).0 != 0 {
            let insertions = e.external.push(
                Descendant { psi_power: (e.k + 1 - i) as usize, class: BasisId(output as usize) },
            );
            rest.push(
                (
                    (correlator_view(e.genus, e.degree, insertions), origin_key(TermOrigin::DilatonShift)),
                    dilaton_coefficient(e, i, output),
                ),
            )
        } else {
            rest
        }
    }
}

/// `[mu_a + psi + 1/2]^k_i` for the insertion `j`.
pub open spec fn marking_bracket(e: ExpansionInput, i: int, j: int) -> RationalView {
    let insertion = e.external[j];
    getzler_bracket_value(
        shifted_grading_value(
            e.state.basis@[insertion.class.0 as int].hodge_p_degree as int,
            e.dimension as int,
            rat_of_int(insertion.psi_power as int),
        ),
        e.k as nat,
        i as nat,
    )
}

/// `[mu_a + psi + 1/2]^k_i (R^i)^output_a` for the insertion `j`.
pub open spec fn marking_coefficient(e: ExpansionInput, i: int, j: int, output: int) -> RationalView {
    rat_mul(marking_bracket(e, i, j), e.powers[i][output][e.external[j].class.0 as int])
}

/// The entries lowering insertion `j` to the first `count` output basis elements.
pub open spec fn marking_outputs(e: ExpansionInput, i: int, j: int, count: nat) -> Seq<((CorrelatorKeyView, (int, Seq<int>)), RationalView)>
    decreases count,
{
    if count == 0 {
        Seq::empty()
    } else {
        let output = count - 1;
        let rest = marking_outputs(e, i, j, output as nat);
        if marking_coefficient(e, i, j, output).0 != 0 {
            let insertions = e.external.update(
                j,
                Descendant { psi_power: (e.external[j].psi_power + e.k - i) as usize, class: BasisId(output as usize) },
            );
            rest.push(
                (
                    (correlator_view(e.genus, e.degree, insertions), origin_key(TermOrigin::LinearOperator)),
                    marking_coefficient(e, i, j, output),
                ),
            )
        } else {
            rest
        }
    }
}

/// The insertion `j` is lowered by `R^i`: its psi power plus `k` reaches `i`.
pub open spec fn marking_applies(e: ExpansionInput, i: int, j: int) -> bool {
    e.external[j].psi_power + e.k <= usize::MAX && e.external[j].psi_power + e.k >= i
}

/// The lowering entries of the first `count` insertions.
pub open spec fn marking_entries(e: ExpansionInput, i: int, count: nat) -> Seq<((CorrelatorKeyView, (int, Seq<int>)), RationalView)>
    decreases count,
{
    if count == 0 {
        Seq::empty()
    } else {
        let j = count - 1;
        let rest = marking_entries(e, i, j as nat);
        if marking_applies(e, i, j) {
            rest + marking_outputs(e, i, j, e.state.basis@.len())
        } else {
            rest
        }
    }
}

/// The quadratic part is expanded: positive genus or a split degree.
pub open spec fn second_order_applies(e: ExpansionInput) -> bool {
    e.genus > 0 || e.degree_splits.len() > 0
}

/// The linear entries contributed by the power `R^i`.
pub open spec fn power_linear(e: ExpansionInput, i: int) -> Seq<((CorrelatorKeyView, (int, Seq<int>)), RationalView)> {
    dilaton_entries(e, i, e.state.basis@.len()) + marking_entries(e, i, e.external.len()) + if second_order_applies(e) {
        reduction_all(power_input(e, i), split_count(e.k, i as usize))
    } else {
        Seq::empty()
    }
}

/// The quadratic entries contributed by the power `R^i`.
pub open spec fn power_quadratic(e: ExpansionInput, i: int) -> Seq<
    ((CorrelatorKeyView, CorrelatorKeyView, (int, Seq<int>)), RationalView),
> {
    if second_order_applies(e) {
        split_all(power_input(e, i), split_count(e.k, i as usize))
    } else {
        Seq::empty()
    }
}

/// The linear entries of the powers `R^0, ..., R^(count - 1)`.
pub open spec fn expansion_linear(e: ExpansionInput, count: nat) -> Seq<((CorrelatorKeyView, (int, Seq<int>)), RationalView)>
    decreases count,
{
    if count == 0 {
        Seq::empty()
    } else {
        expansion_linear(e, (count - 1) as nat) + power_linear(e, count - 1)
    }
}

/// The quadratic entries of the powers `R^0, ..., R^(count - 1)`.
pub open spec fn expansion_quadratic(e: ExpansionInput, count: nat) -> Seq<
    ((CorrelatorKeyView, CorrelatorKeyView, (int, Seq<int>)), RationalView),
>
    decreases count,
{
    if count == 0 {
        Seq::empty()
    } else {
        expansion_quadratic(e, (count - 1) as nat) + power_quadratic(e, count - 1)
    }
}

/// The constant entries: the unstable two-point pairing through `R^(k+1)`,
/// and the genus-one anomaly `anomaly` of `L_0`.
pub open spec fn expansion_constants(e: ExpansionInput, anomaly: RationalView) -> Seq<((int, Seq<int>), RationalView)> {
    let zero_degree = forall|t: int| 0 <= t < e.degree.len() ==> e.degree[t] == 0;
    let unstable = if e.genus == 0 && zero_degree && e.external.len() == 2 && e.external[0].psi_power == 0
        && e.external[1].psi_power == 0 {
        seq![
            (
                origin_key(TermOrigin::UnstableCorrection),
                lowered_sum(
                    e.powers[e.k + 1],
                    e.state.pairing->0.metric@,
                    e.external[0].class.0 as int,
                    e.external[1].class.0 as int,
                    e.state.basis@.len(),
                ),
            ),
        ]
    } else {
        Seq::empty()
    };
    let genus_one = if e.k == 0 && e.genus == 1 && zero_degree && e.external.len() == 0 {
        seq![((5int, char_ints("genus-one anomaly"@)), anomaly)]
    } else {
        Seq::empty()
    };
    unstable + genus_one
}

/// The genus-one anomaly the theory's characteristic numbers give.
pub open spec fn theory_anomaly<T: GwTheory>(theory: T) -> RationalView {
    anomaly_value(
        theory.spec_characteristic_numbers()->0.top_chern_integral@,
        theory.spec_characteristic_numbers()->0.c1_c_dim_minus_one_integral@,
        theory.spec_target_dimension() as int,
    )
}

/// `e` is what the expansion read: the powers of `c1` (in value), degree
/// splits as checked, and the labelled marking splits when they are needed.
pub open spec fn expansion_input_of(
    e: ExpansionInput,
    state: StateSpace,
    c1: MatrixView,
    dimension: nat,
    k: usize,
    genus: usize,
    degree: Seq<i64>,
    external: Seq<Descendant>,
    rank: nat,
    degree_split_count: usize,
) -> bool {
    &&& e.state == state
    &&& e.dimension as nat == dimension
    &&& e.k == k
    &&& e.genus == genus
    &&& e.degree == degree
    &&& e.external == external
    &&& e.powers.len() == k + 2
    &&& forall|j: int|
        0 <= j < k + 2 ==> same_matrix(#[trigger] e.powers[j], binary_power(identity_matrix(c1.len()), c1, j as nat))
    &&& e.degree_splits.len() == degree_split_count
    &&& forall|j: int| 0 <= j < e.degree_splits.len() ==> split_checked(#[trigger] e.degree_splits[j], rank, degree)
    &&& forall|a: int, b: int|
        0 <= a < b < e.degree_splits.len() ==> !(#[trigger] e.degree_splits[a].left@ == #[trigger] e.degree_splits[b].left@
            && e.degree_splits[a].right@ == e.degree_splits[b].right@)
    &&& split_views(e.marking_splits) == if k > 0 && degree_split_count > 0 {
        all_marking_splits(external)
    } else {
        Seq::<(Seq<Descendant>, Seq<Descendant>)>::empty()
    }
}

/// `value` is `scale * entry` in value, given `value` is `actual * entry` and
/// `actual` is `scale` in value.
proof fn lemma_scaled_entry(value: RationalView, actual: RationalView, scale: RationalView, entry: RationalView)
    requires
        same_value(value, rat_mul(actual, entry)),
        same_value(actual, scale),
        actual.1 > 0,
        entry.1 > 0,
    ensures
        same_value(value, rat_mul(scale, entry)),
{
    lemma_mul_congruent(actual, scale, entry, entry);
    lemma_denominator_product_positive(actual, entry);
    lemma_same_value_transitive(value, rat_mul(actual, entry), rat_mul(scale, entry));
}

/// Getzler's bracket of a fraction with positive denominator has one.
proof fn lemma_getzler_bracket_denominator(x: RationalView, k: nat, i: nat)
    requires
        x.1 > 0,
    ensures
        getzler_bracket_value(x, k, i).1 > 0,
{
    if i <= k + 1 {
        lemma_elementary_denominator(x, k + 1, (k + 1 - i) as nat);
    }
}

/// `split_count(k, 0) + ... + split_count(k, count - 1)`.
pub open spec fn split_sum(k: usize, count: nat) -> int
    decreases count,
{
    if count == 0 {
        0
    } else {
        split_sum(k, (count - 1) as nat) + split_count(k, (count - 1) as usize)
    }
}

/// The split indices over all powers number `k (k + 1) / 2`.
proof fn lemma_split_sum(k: usize, count: nat)
    requires
        count <= k + 2,
        k <= 64,
    ensures
        count <= k + 1 ==> 2 * split_sum(k, count) == 2 * count * k - count * (count - 1),
        count == k + 2 ==> split_sum(k, count) == second_index_pairs(k as nat),
    decreases count,
{
    if count > 0 {
        lemma_split_sum(k, (count - 1) as nat);
        let c = (count - 1) as int;
        assert(split_sum(k, count) == split_sum(k, c as nat) + split_count(k, c as usize));
        if count <= k + 1 {
            assert(split_count(k, c as usize) == k - c);
            assert(2 * split_sum(k, c as nat) == 2 * c * k - c * (c - 1));
            assert(2 * c * k - c * (c - 1) + 2 * (k - c) == 2 * count * k - count * (count - 1)) by (nonlinear_arith)
                requires
                    count == c + 1,
            ;
            assert(2 * split_sum(k, count) == 2 * count * k - count * (count - 1));
        } else {
            assert(split_count(k, c as usize) == 0);
            assert(2 * split_sum(k, (k + 1) as nat) == (k + 1) * k) by (nonlinear_arith)
                requires
                    2 * split_sum(k, (k + 1) as nat) == 2 * (k + 1) * k - (k + 1) * k,
            ;
            assert(second_index_pairs(k as nat) == (k * (k + 1)) / 2);
            assert((k * (k + 1)) / 2 * 2 == k * (k + 1)) by (nonlinear_arith)
                requires
                    2 * split_sum(k, (k + 1) as nat) == (k + 1) * k,
            ;
        }
    } else {
        assert(2 * count * k - count * (count - 1) == 0) by (nonlinear_arith)
            requires
                count == 0,
        ;
    }
}

/// The entry bound of the expansion loop is the term estimate.
proof fn lemma_expansion_within_estimate(
    k: usize,
    genus: usize,
    markings: nat,
    size: nat,
    splits: nat,
    curve_splits: nat,
    marking_splits: nat,
)
    requires
        k <= 64,
        curve_splits == splits,
        k > 0 && splits > 0 ==> marking_splits == pow(2, markings),
        !(k > 0 && splits > 0) ==> marking_splits == 0,
    ensures
        (k + 2) * (size + markings * size) + split_sum(k, (k + 2) as nat) * (size * size
            * second_order_pair_entries(genus, curve_splits, marking_splits)) + 2
            <= term_estimate(k as nat, genus as nat, markings, size, splits),
        term_estimate(k as nat, genus as nat, markings, size, splits) >= 0,
{
    lemma_split_sum(k, (k + 2) as nat);
    let pairs = second_index_pairs(k as nat);
    let g: int = if genus > 0 { 1 } else { 0 };
    let per_pair = second_order_pair_entries(genus, curve_splits, marking_splits);
    let dis = disconnected_slots(k as nat, genus as nat, markings, splits);
    vstd::arithmetic::power::lemma_pow_positive(2, markings);
    assert(dis >= 0) by (nonlinear_arith)
        requires
            dis == 0 || dis == (genus + 1) * (splits * pow(2, markings)),
            pow(2, markings) > 0,
    ;
    if pairs == 0 {
        assert(pairs * (size * size) * (g + dis) == 0) by (nonlinear_arith)
            requires
                pairs == 0,
        ;
        assert(split_sum(k, (k + 2) as nat) * (size * size * per_pair) == 0) by (nonlinear_arith)
            requires
                split_sum(k, (k + 2) as nat) == 0,
        ;
    } else if splits == 0 {
        assert((genus + 1) * (curve_splits * marking_splits) == 0) by (nonlinear_arith)
            requires
                curve_splits == 0,
        ;
        assert(per_pair == g);
        assert(dis == 0);
    } else {
        assert(k > 0) by {
            if k == 0 {
                assert(pairs == 0);
            }
        }
        assert(per_pair == g + dis);
    }
    assert(split_sum(k, (k + 2) as nat) * (size * size * per_pair) == pairs * (size * size) * (g + dis))
        by (nonlinear_arith)
        requires
            split_sum(k, (k + 2) as nat) == pairs,
            pairs == 0 || per_pair == g + dis,
    ;
    assert((k + 2) * (size + markings * size) == linear_slots(k as nat, markings, size)) by (nonlinear_arith);
    assert(pairs * (size * size) * (g + dis) >= 0) by (nonlinear_arith)
        requires
            g + dis >= 0,
    ;
}

/// The entries one basis pair of the quadratic part adds at most: the
/// genus reduction, and a product for each genus, curve and marking split.
pub open spec fn second_order_pair_entries(genus: usize, curve_splits: nat, marking_splits: nat) -> int {
    (if genus > 0 { 1int } else { 0 }) + (genus + 1) * (curve_splits * marking_splits)
}

/// The quadratic part of `L_k` for one power `R^i` of `c_1`: genus-reduction
/// terms and, for each genus split, curve split and labelled marking split,
/// the products of two correlators.
fn add_second_order_terms(
    state: &StateSpace,
    power: &StateSpaceMatrix,
    inverse: &StateSpaceMatrix,
    dimension: usize,
    k: usize,
    i: usize,
    genus: usize,
    degree: &CurveClass,
    external: &Vec<Descendant>,
    degree_splits: &Vec<CurveClassSplit>,
    marking_splits: &Vec<(Vec<Descendant>, Vec<Descendant>)>,
    terms: &mut TermAccumulator,
) -> (result: Result<(), GwError>)
    requires
        k <= 64,
        i <= k + 1,
        power@.len() == state.basis@.len(),
        inverse@.len() == state.basis@.len(),
    ensures
        result is Ok,
        old(terms).denominators_positive() ==> final(terms).denominators_positive(),
        old(terms).denominators_positive() ==> same_totals(
            linear_entries(final(terms).linear@),
            linear_entries(old(terms).linear@) + reduction_all(
                SecondOrderInput {
                    state: *state,
                    power: power@,
                    inverse: inverse@,
                    dimension,
                    k,
                    i,
                    genus,
                    degree: degree@,
                    external: external@,
                    degree_splits: degree_splits@,
                    marking_splits: marking_splits@,
                },
                split_count(k, i),
            ),
        ),
        old(terms).denominators_positive() ==> same_totals(
            quadratic_entries(final(terms).quadratic@),
            quadratic_entries(old(terms).quadratic@) + split_all(
                SecondOrderInput {
                    state: *state,
                    power: power@,
                    inverse: inverse@,
                    dimension,
                    k,
                    i,
                    genus,
                    degree: degree@,
                    external: external@,
                    degree_splits: degree_splits@,
                    marking_splits: marking_splits@,
                },
                split_count(k, i),
            ),
        ),
        final(terms).constants == old(terms).constants,
        final(terms).entry_count() <= old(terms).entry_count() + split_count(k, i) * (state.basis@.len()
            * state.basis@.len() * second_order_pair_entries(genus, degree_splits@.len(), marking_splits@.len())),
{
    let ghost d = SecondOrderInput {
        state: *state,
        power: power@,
        inverse: inverse@,
        dimension,
        k,
        i,
        genus,
        degree: degree@,
        external: external@,
        degree_splits: degree_splits@,
        marking_splits: marking_splits@,
    };
    let ghost positive = terms.denominators_positive();
    let ghost start_count = terms.entry_count();
    let ghost per_pair = second_order_pair_entries(genus, degree_splits@.len(), marking_splits@.len());
    let ghost ds_ms: int = (degree_splits@.len() * marking_splits@.len()) as int;
    let ghost g_flag: int = if genus > 0 { 1 } else { 0 };
    proof {
        assert(ds_ms >= 0) by (nonlinear_arith)
            requires
                ds_ms == degree_splits@.len() * marking_splits@.len(),
        ;
        assert(per_pair == g_flag + (genus + 1) * ds_ms);
    }
    let ghost linear0 = linear_entries(terms.linear@);
    let ghost quadratic0 = quadratic_entries(terms.quadratic@);
    let size = state.basis.len();
    let _ = power.size();
    let _ = inverse.size();
    let mut m: i64 = i as i64 - k as i64;
    proof {
        lemma_same_totals_reflexive(linear0);
        lemma_same_totals_reflexive(quadratic0);
        assert(linear0 + reduction_all(d, 0) =~= linear0);
        assert(quadratic0 + split_all(d, 0) =~= quadratic0);
    }
    while m <= -1
        invariant
            k <= 64,
            i <= k + 1,
            m >= i - k,
            m <= 0 || m == i - k,
            per_pair == g_flag + (genus + 1) * ds_ms,
            ds_ms == degree_splits@.len() * marking_splits@.len(),
            ds_ms >= 0,
            g_flag == (if genus > 0 { 1int } else { 0 }),
            terms.entry_count() <= start_count + (m - (i - k)) * (size * size * per_pair),
            size == state.basis@.len(),
            size == power@.len(),
            size == inverse@.len(),
            square(power@),
            square(inverse@),
            positive_denominators(power@),
            positive_denominators(inverse@),
            d == (SecondOrderInput {
                state: *state,
                power: power@,
                inverse: inverse@,
                dimension,
                k,
                i,
                genus,
                degree: degree@,
                external: external@,
                degree_splits: degree_splits@,
                marking_splits: marking_splits@,
            }),
            positive ==> terms.denominators_positive(),
            positive ==> same_totals(linear_entries(terms.linear@), linear0 + reduction_all(d, (m - (i - k)) as nat)),
            positive ==> same_totals(quadratic_entries(terms.quadratic@), quadratic0 + split_all(d, (m - (i - k)) as nat)),
            terms.constants == old(terms).constants,
        decreases 0 - m,
    {
        let ghost count = (m - (i - k)) as nat;
        assert(split_index(d, count as int) == m);
        let left_psi_value = (-m - 1) as usize;
        let right_psi_value = (m + k as i64 - i as i64) as usize;
        let sign = if m % 2 == 0 { Rational::one() } else { Rational::new(-1, 1) };
        let shift = Rational::from_i64(m);
        proof {
            use_type_invariant(&sign);
            use_type_invariant(&shift);
        }
        let mut middle_brackets: Vec<Rational> = Vec::new();
        let mut b: usize = 0;
        while b < size
            invariant
                b <= size,
                middle_brackets@.len() == b,
                size == state.basis@.len(),
                k <= 64,
                i <= k + 1,
                shift@.1 > 0,
                same_value(shift@, rat_of_int(m as int)),
                d.state == *state,
                d.dimension == dimension,
                d.k == k,
                d.i == i,
                forall|t: int|
                    0 <= t < b ==> same_value(
                        (#[trigger] middle_brackets@[t])@,
                        middle_bracket_values(d, m)[t],
                    ) && middle_brackets@[t]@.1 > 0,
            decreases size - b,
        {
            let mu_plus = shifted_grading(state.basis[b].hodge_p_degree, dimension, &shift);
            proof {
                use_type_invariant(&mu_plus);
            }
            let ghost mu = mu_plus@;
            let bracket = getzler_bracket(mu_plus, k, i)?;
            proof {
                use_type_invariant(&bracket);
                let p = state.basis@[b as int].hodge_p_degree as int;
                let spec_mu = shifted_grading_value(p, dimension as int, rat_of_int(m as int));
                lemma_shifted_grading_congruent(p, dimension as int, shift@, rat_of_int(m as int));
                lemma_same_value_transitive(
                    mu,
                    shifted_grading_value(p, dimension as int, shift@),
                    spec_mu,
                );
                lemma_getzler_bracket_congruent(mu, spec_mu, k as nat, i as nat);
                lemma_elementary_denominator(mu, (k + 1) as nat, (k + 1 - i) as nat);
                lemma_same_value_transitive(
                    bracket@,
                    getzler_bracket_value(mu, k as nat, i as nat),
                    getzler_bracket_value(spec_mu, k as nat, i as nat),
                );
                assert(middle_bracket_values(d, m)[b as int] == getzler_bracket_value(spec_mu, k as nat, i as nat));
            }
            middle_brackets.push(bracket);
            b = b + 1;
        }
        let half = Rational::new(1, 2);
        let half_sign = half.mul(&sign);
        proof {
            use_type_invariant(&half);
            use_type_invariant(&half_sign);
            if m % 2 == 0 {
                assert(sign@ == rat_of_int(1));
            }
            assert(same_value(sign@, parity_sign(m)));
            lemma_mul_congruent(half@, (1, 2), sign@, parity_sign(m));
            lemma_denominator_product_positive(half@, sign@);
            lemma_same_value_transitive(half_sign@, rat_mul(half@, sign@), rat_mul((1, 2), parity_sign(m)));
        }
        let ghost linear_before = linear0 + reduction_all(d, count);
        let ghost quadratic_before = quadratic0 + split_all(d, count);
        proof {
            assert(linear_before + reduction_lefts(d, m, 0) =~= linear_before);
            assert(quadratic_before + split_lefts(d, m, 0) =~= quadratic_before);
        }
        let ghost m_base = start_count + (m - (i - k)) * (size * size * per_pair);
        let mut left_basis: usize = 0;
        while left_basis < size
            invariant
                left_basis <= size,
                per_pair == g_flag + (genus + 1) * ds_ms,
                ds_ms == degree_splits@.len() * marking_splits@.len(),
                ds_ms >= 0,
                g_flag == (if genus > 0 { 1int } else { 0 }),
                terms.entry_count() <= m_base + left_basis * (size * per_pair),
                middle_brackets@.len() == size,
                size == power@.len(),
                size == inverse@.len(),
                size == state.basis@.len(),
                square(power@),
                square(inverse@),
                positive_denominators(power@),
                positive_denominators(inverse@),
                m <= -1,
                m >= i - k,
                k <= 64,
                i <= k + 1,
                left_psi_value == left_psi(m),
                right_psi_value == right_psi(d, m),
                d.state == *state,
                d.dimension == dimension,
                d.power == power@,
                d.inverse == inverse@,
                d.k == k,
                d.i == i,
                d.genus == genus,
                d.degree == degree@,
                d.external == external@,
                d.degree_splits == degree_splits@,
                d.marking_splits == marking_splits@,
                forall|t: int|
                    0 <= t < size ==> same_value(
                        (#[trigger] middle_brackets@[t])@,
                        middle_bracket_values(d, m)[t],
                    ) && middle_brackets@[t]@.1 > 0,
                half_sign@.1 > 0,
                same_value(half_sign@, rat_mul((1, 2), parity_sign(m))),
                positive ==> terms.denominators_positive(),
                positive ==> same_totals(linear_entries(terms.linear@), linear_before + reduction_lefts(d, m, left_basis as nat)),
                positive ==> same_totals(quadratic_entries(terms.quadratic@), quadratic_before + split_lefts(d, m, left_basis as nat)),
                terms.constants == old(terms).constants,
            decreases size - left_basis,
        {
            let ghost linear_left = linear_before + reduction_lefts(d, m, left_basis as nat);
            let ghost quadratic_left = quadratic_before + split_lefts(d, m, left_basis as nat);
            proof {
                assert(linear_left + reduction_rights(d, m, left_basis as int, 0) =~= linear_left);
                assert(quadratic_left + split_rights(d, m, left_basis as int, 0) =~= quadratic_left);
            }
            let ghost l_base = m_base + left_basis * (size * per_pair);
            let mut right_basis: usize = 0;
            while right_basis < size
                invariant
                    right_basis <= size,
                    left_basis < size,
                    per_pair == g_flag + (genus + 1) * ds_ms,
                    ds_ms == degree_splits@.len() * marking_splits@.len(),
                    ds_ms >= 0,
                    g_flag == (if genus > 0 { 1int } else { 0 }),
                    terms.entry_count() <= l_base + right_basis * per_pair,
                    middle_brackets@.len() == size,
                    size == power@.len(),
                    size == inverse@.len(),
                    size == state.basis@.len(),
                    square(power@),
                    square(inverse@),
                    positive_denominators(power@),
                    positive_denominators(inverse@),
                    m <= -1,
                    m >= i - k,
                    k <= 64,
                    i <= k + 1,
                    left_psi_value == left_psi(m),
                    right_psi_value == right_psi(d, m),
                    d.state == *state,
                    d.dimension == dimension,
                    d.power == power@,
                    d.inverse == inverse@,
                    d.k == k,
                    d.i == i,
                    d.genus == genus,
                    d.degree == degree@,
                    d.external == external@,
                    d.degree_splits == degree_splits@,
                    d.marking_splits == marking_splits@,
                    forall|t: int|
                        0 <= t < size ==> same_value(
                            (#[trigger] middle_brackets@[t])@,
                            middle_bracket_values(d, m)[t],
                        ) && middle_brackets@[t]@.1 > 0,
                    half_sign@.1 > 0,
                    same_value(half_sign@, rat_mul((1, 2), parity_sign(m))),
                    positive ==> terms.denominators_positive(),
                    positive ==> same_totals(
                        linear_entries(terms.linear@),
                        linear_left + reduction_rights(d, m, left_basis as int, right_basis as nat),
                    ),
                    positive ==> same_totals(
                        quadratic_entries(terms.quadratic@),
                        quadratic_left + split_rights(d, m, left_basis as int, right_basis as nat),
                    ),
                    terms.constants == old(terms).constants,
                decreases size - right_basis,
            {
                let raised = weighted_raised_entry(power, inverse, &middle_brackets, left_basis, right_basis);
                let coefficient = half_sign.mul(&raised);
                let ghost spec_coefficient = second_order_coefficient(d, m, left_basis as int, right_basis as int);
                proof {
                    use_type_invariant(&raised);
                    use_type_invariant(&coefficient);
                    let actual = rational_views(middle_brackets@);
                    let wanted = middle_bracket_values(d, m);
                    assert forall|t: int| 0 <= t < size implies same_value(#[trigger] actual[t], wanted[t]) && actual[t].1 > 0 by {
                        assert(actual[t] == middle_brackets@[t]@);
                    }
                    assert forall|t: int| 0 <= t < size implies (#[trigger] wanted[t]).1 > 0 by {
                        let p = state.basis@[t].hodge_p_degree as int;
                        assert(wanted[t] == getzler_bracket_value(
                            shifted_grading_value(p, dimension as int, rat_of_int(m as int)),
                            k as nat,
                            i as nat,
                        ));
                        lemma_shifted_grading_congruent(p, dimension as int, rat_of_int(m as int), rat_of_int(m as int));
                        lemma_elementary_denominator(
                            shifted_grading_value(p, dimension as int, rat_of_int(m as int)),
                            (k + 1) as nat,
                            (k + 1 - i) as nat,
                        );
                    }
                    let w_actual = weighted_raised_sum(power@, inverse@, actual, left_basis as int, right_basis as int, size as nat);
                    let w_wanted = weighted_raised_sum(power@, inverse@, wanted, left_basis as int, right_basis as int, size as nat);
                    lemma_weighted_sum_congruent(power@, inverse@, actual, wanted, left_basis as int, right_basis as int, size as nat);
                    lemma_weighted_sum_denominator(power@, inverse@, actual, left_basis as int, right_basis as int, size as nat);
                    lemma_weighted_sum_denominator(power@, inverse@, wanted, left_basis as int, right_basis as int, size as nat);
                    lemma_same_value_transitive(raised@, w_actual, w_wanted);
                    lemma_mul_congruent(half_sign@, rat_mul((1, 2), parity_sign(m)), raised@, w_wanted);
                    lemma_denominator_product_positive(half_sign@, raised@);
                    lemma_same_value_transitive(coefficient@, rat_mul(half_sign@, raised@), spec_coefficient);
                    assert(rat_mul((1, 2), parity_sign(m)).1 == 2);
                    lemma_denominator_product_positive(rat_mul((1, 2), parity_sign(m)), w_wanted);
                    lemma_same_value_zero(coefficient@, spec_coefficient);
                }
                let ghost r_base = l_base + right_basis * per_pair;
                let ghost linear_right = linear_left + reduction_rights(d, m, left_basis as int, right_basis as nat);
                let ghost quadratic_right = quadratic_left + split_rights(d, m, left_basis as int, right_basis as nat);
                if !coefficient.is_zero() {
                    if genus > 0 {
                        let mut insertions = with_insertion(external, Descendant::new(left_psi_value, BasisId(left_basis)));
                        insertions.push(Descendant::new(right_psi_value, BasisId(right_basis)));
                        let key = CorrelatorKey::new(genus - 1, degree.clone(), insertions);
                        let ghost entry = ((key@, origin_key(TermOrigin::GenusReduction)), coefficient@);
                        let ghost current = linear_entries(terms.linear@);
                        proof {
                            lemma_sorted_view_unique(key@.2, insertions@);
                            assert(insertions@ =~= d.external.push(
                                Descendant { psi_power: left_psi(m), class: BasisId(left_basis) },
                            ).push(Descendant { psi_power: right_psi(d, m), class: BasisId(right_basis) }));
                        }
                        terms.add_linear(coefficient.clone(), key, TermOrigin::GenusReduction);
                        proof {
                            if positive {
                                lemma_same_totals_step(
                                    current,
                                    linear_entries(terms.linear@),
                                    linear_right,
                                    entry,
                                    reduction_entry(d, m, left_basis as int, right_basis as int),
                                );
                            }
                        }
                    }
                    let ghost linear_after = linear_entries(terms.linear@);
                    proof {
                        assert(terms.entry_count() <= r_base + g_flag);
                    }
                    proof {
                        assert(quadratic_right + split_genera(d, m, left_basis as int, right_basis as int, 0) =~= quadratic_right);
                    }
                    let mut split_genus: usize = 0;
                    loop
                        invariant_except_break
                            terms.entry_count() <= r_base + g_flag + split_genus * ds_ms,
                            positive ==> same_totals(
                                quadratic_entries(terms.quadratic@),
                                quadratic_right + split_genera(d, m, left_basis as int, right_basis as int, split_genus as nat),
                            ),
                        invariant
                            split_genus <= genus,
                            left_basis < size,
                            right_basis < size,
                            left_psi_value == left_psi(m),
                            right_psi_value == right_psi(d, m),
                            d.genus == genus,
                            d.degree_splits == degree_splits@,
                            d.marking_splits == marking_splits@,
                            spec_coefficient == second_order_coefficient(d, m, left_basis as int, right_basis as int),
                            same_value(coefficient@, spec_coefficient),
                            coefficient@.1 > 0,
                            positive ==> terms.denominators_positive(),
                            linear_entries(terms.linear@) == linear_after,
                            terms.constants == old(terms).constants,
                            ds_ms == degree_splits@.len() * marking_splits@.len(),
                            ds_ms >= 0,
                        ensures
                            terms.entry_count() <= r_base + g_flag + (genus + 1) * ds_ms,
                            positive ==> same_totals(
                                quadratic_entries(terms.quadratic@),
                                quadratic_right + split_genera(d, m, left_basis as int, right_basis as int, (genus + 1) as nat),
                            ),
                        decreases genus - split_genus,
                    {
                        let ghost quadratic_genus = quadratic_right + split_genera(
                            d,
                            m,
                            left_basis as int,
                            right_basis as int,
                            split_genus as nat,
                        );
                        proof {
                            assert(quadratic_genus + split_curves(d, m, left_basis as int, right_basis as int, split_genus as int, 0) =~= quadratic_genus);
                        }
                        let ghost g_base = r_base + g_flag + split_genus * ds_ms;
                        let mut s: usize = 0;
                        while s < degree_splits.len()
                            invariant
                                terms.entry_count() <= g_base + s * marking_splits@.len(),
                                s <= degree_splits@.len(),
                                split_genus <= genus,
                                left_psi_value == left_psi(m),
                                right_psi_value == right_psi(d, m),
                                d.genus == genus,
                                d.degree_splits == degree_splits@,
                                d.marking_splits == marking_splits@,
                                spec_coefficient == second_order_coefficient(d, m, left_basis as int, right_basis as int),
                                same_value(coefficient@, spec_coefficient),
                                coefficient@.1 > 0,
                                positive ==> terms.denominators_positive(),
                                linear_entries(terms.linear@) == linear_after,
                                terms.constants == old(terms).constants,
                                positive ==> same_totals(
                                    quadratic_entries(terms.quadratic@),
                                    quadratic_genus + split_curves(
                                        d,
                                        m,
                                        left_basis as int,
                                        right_basis as int,
                                        split_genus as int,
                                        s as nat,
                                    ),
                                ),
                            decreases degree_splits@.len() - s,
                        {
                            let curve_split = &degree_splits[s];
                            let ghost quadratic_curve = quadratic_genus + split_curves(
                                d,
                                m,
                                left_basis as int,
                                right_basis as int,
                                split_genus as int,
                                s as nat,
                            );
                            proof {
                                assert(quadratic_curve + split_markings(
                                    d,
                                    m,
                                    left_basis as int,
                                    right_basis as int,
                                    split_genus as int,
                                    s as int,
                                    0,
                                ) =~= quadratic_curve);
                            }
                            let ghost s_base = g_base + s * marking_splits@.len();
                            let mut p: usize = 0;
                            while p < marking_splits.len()
                                invariant
                                    terms.entry_count() <= s_base + p,
                                    p <= marking_splits@.len(),
                                    split_genus <= genus,
                                    s < degree_splits@.len(),
                                    *curve_split == degree_splits@[s as int],
                                    left_psi_value == left_psi(m),
                                    right_psi_value == right_psi(d, m),
                                    d.genus == genus,
                                    d.degree_splits == degree_splits@,
                                    d.marking_splits == marking_splits@,
                                    spec_coefficient == second_order_coefficient(d, m, left_basis as int, right_basis as int),
                                    same_value(coefficient@, spec_coefficient),
                                    coefficient@.1 > 0,
                                    positive ==> terms.denominators_positive(),
                                    linear_entries(terms.linear@) == linear_after,
                                    terms.constants == old(terms).constants,
                                    positive ==> same_totals(
                                        quadratic_entries(terms.quadratic@),
                                        quadratic_curve + split_markings(
                                            d,
                                            m,
                                            left_basis as int,
                                            right_basis as int,
                                            split_genus as int,
                                            s as int,
                                            p as nat,
                                        ),
                                    ),
                                decreases marking_splits@.len() - p,
                            {
                                let left_insertions = with_insertion(
                                    &marking_splits[p].0,
                                    Descendant::new(left_psi_value, BasisId(left_basis)),
                                );
                                let right_insertions = with_insertion(
                                    &marking_splits[p].1,
                                    Descendant::new(right_psi_value, BasisId(right_basis)),
                                );
                                let left_key = CorrelatorKey::new(split_genus, curve_split.left.clone(), left_insertions);
                                let right_key = CorrelatorKey::new(genus - split_genus, curve_split.right.clone(), right_insertions);
                                let ghost entry = (
                                    (
                                        ordered_pair(left_key@, right_key@).0,
                                        ordered_pair(left_key@, right_key@).1,
                                        origin_key(TermOrigin::DegreeSplitting),
                                    ),
                                    coefficient@,
                                );
                                let ghost current = quadratic_entries(terms.quadratic@);
                                let ghost done = quadratic_curve + split_markings(
                                    d,
                                    m,
                                    left_basis as int,
                                    right_basis as int,
                                    split_genus as int,
                                    s as int,
                                    p as nat,
                                );
                                proof {
                                    lemma_sorted_view_unique(left_key@.2, left_insertions@);
                                    lemma_sorted_view_unique(right_key@.2, right_insertions@);
                                }
                                terms.add_quadratic(coefficient.clone(), left_key, right_key, TermOrigin::DegreeSplitting);
                                proof {
                                    let spec_entry = split_entry(
                                        d,
                                        m,
                                        left_basis as int,
                                        right_basis as int,
                                        split_genus as int,
                                        s as int,
                                        p as int,
                                    );
                                    if positive {
                                        lemma_same_totals_step(current, quadratic_entries(terms.quadratic@), done, entry, spec_entry);
                                    }
                                    assert(done.push(spec_entry) =~= quadratic_curve + split_markings(
                                        d,
                                        m,
                                        left_basis as int,
                                        right_basis as int,
                                        split_genus as int,
                                        s as int,
                                        (p + 1) as nat,
                                    ));
                                }
                                p = p + 1;
                            }
                            proof {
                                assert(s_base + marking_splits@.len() == g_base + (s + 1) * marking_splits@.len()) by (nonlinear_arith)
                                    requires
                                        s_base == g_base + s * marking_splits@.len(),
                                ;
                            }
                            proof {
                                assert(quadratic_curve + split_markings(
                                    d,
                                    m,
                                    left_basis as int,
                                    right_basis as int,
                                    split_genus as int,
                                    s as int,
                                    marking_splits@.len(),
                                ) =~= quadratic_genus + split_curves(
                                    d,
                                    m,
                                    left_basis as int,
                                    right_basis as int,
                                    split_genus as int,
                                    (s + 1) as nat,
                                ));
                            }
                            s = s + 1;
                        }
                        proof {
                            assert(g_base + degree_splits@.len() * marking_splits@.len() == r_base + g_flag + (split_genus + 1) * ds_ms)
                                by (nonlinear_arith)
                                requires
                                    g_base == r_base + g_flag + split_genus * ds_ms,
                                    ds_ms == degree_splits@.len() * marking_splits@.len(),
                            ;
                        }
                        proof {
                            assert(quadratic_genus + split_curves(
                                d,
                                m,
                                left_basis as int,
                                right_basis as int,
                                split_genus as int,
                                degree_splits@.len(),
                            ) =~= quadratic_right + split_genera(
                                d,
                                m,
                                left_basis as int,
                                right_basis as int,
                                (split_genus + 1) as nat,
                            ));
                        }
                        if split_genus == genus {
                            break;
                        }
                        split_genus = split_genus + 1;
                    }
                    proof {
                        assert(quadratic_right + split_genera(d, m, left_basis as int, right_basis as int, (genus + 1) as nat)
                            =~= quadratic_left + split_rights(d, m, left_basis as int, (right_basis + 1) as nat));
                        if genus > 0 {
                            assert(linear_right.push(reduction_entry(d, m, left_basis as int, right_basis as int))
                                =~= linear_left + reduction_rights(d, m, left_basis as int, (right_basis + 1) as nat));
                        } else {
                            assert(linear_right =~= linear_left + reduction_rights(d, m, left_basis as int, (right_basis + 1) as nat));
                        }
                    }
                } else {
                    proof {
                        assert(linear_right =~= linear_left + reduction_rights(d, m, left_basis as int, (right_basis + 1) as nat));
                        assert(quadratic_right =~= quadratic_left + split_rights(d, m, left_basis as int, (right_basis + 1) as nat));
                    }
                }
                proof {
                    assert(r_base + per_pair == l_base + (right_basis + 1) * per_pair) by (nonlinear_arith)
                        requires
                            r_base == l_base + right_basis * per_pair,
                    ;
                    assert(per_pair >= 0) by (nonlinear_arith)
                        requires
                            per_pair == g_flag + (genus + 1) * ds_ms,
                            ds_ms >= 0,
                            g_flag >= 0,
                    ;
                }
                right_basis = right_basis + 1;
            }
            proof {
                assert(linear_left + reduction_rights(d, m, left_basis as int, size as nat) =~= linear_before
                    + reduction_lefts(d, m, (left_basis + 1) as nat));
                assert(quadratic_left + split_rights(d, m, left_basis as int, size as nat) =~= quadratic_before
                    + split_lefts(d, m, (left_basis + 1) as nat));
            }
            proof {
                assert(l_base + size * per_pair == m_base + (left_basis + 1) * (size * per_pair)) by (nonlinear_arith)
                    requires
                        l_base == m_base + left_basis * (size * per_pair),
                ;
            }
            left_basis = left_basis + 1;
        }
        proof {
            assert(linear_before + reduction_lefts(d, m, size as nat) =~= linear0 + reduction_all(d, count + 1));
            assert(quadratic_before + split_lefts(d, m, size as nat) =~= quadratic0 + split_all(d, count + 1));
        }
        proof {
            assert(m_base + size * (size * per_pair) == start_count + (m + 1 - (i - k)) * (size * size * per_pair))
                by (nonlinear_arith)
                requires
                    m_base == start_count + (m - (i - k)) * (size * size * per_pair),
            ;
        }
        m = m + 1;
    }
    proof {
        assert((m - (i - k)) as nat == split_count(k, i));
    }
    Ok(())
}

/// Generate one exact coefficient of Getzler's Virasoro equation, with the
/// default bound on the unaggregated expansion.
pub fn generate_constraint<T: GwTheory>(
    theory: &T,
    operator_index: i32,
    genus: usize,
    degree: CurveClass,
    time_coefficient: TimeMonomial,
) -> (result: Result<VirasoroConstraint<Rational>, GwError>)
    ensures
        operator_index < -1 ==> (result matches Err(GwError::ConventionMismatch(m))
            && m@ == "Virasoro operator index must be at least -1"@),
        operator_index > MAX_STANDARD_VIRASORO_OPERATOR_INDEX ==> (result matches Err(
            GwError::ResourceLimit { operation, requested, limit },
        ) && operation@ == "standard Virasoro operator index"@ && requested == operator_index
            && limit == MAX_STANDARD_VIRASORO_OPERATOR_INDEX),
        -1 <= operator_index <= MAX_STANDARD_VIRASORO_OPERATOR_INDEX && theory.spec_virasoro_operator_kind()
            != VirasoroOperatorKind::StandardCompactGetzler ==> (result matches Err(
            GwError::UnsupportedFeature { target, feature, witness },
        ) && target@ == theory.spec_theory_id() && feature@ == "Virasoro operator generation"@),
        result is Ok <==> generation_succeeds(
            *theory,
            operator_index,
            genus,
            degree,
            time_coefficient,
            DEFAULT_GENERATED_TERM_LIMIT,
        ),
        result matches Ok(c) ==> generated_metadata(c, operator_index, genus, degree, time_coefficient),
        result matches Ok(c) ==> generated_terms(*theory, c.terms@, operator_index, genus, degree, time_coefficient),
        result matches Ok(c) ==> c.theory_fingerprint@ == theory.spec_theory_fingerprint(),
        result matches Ok(c) ==> c.terms@.len() <= DEFAULT_GENERATED_TERM_LIMIT,
{
    generate_constraint_with_term_limit(
        theory,
        operator_index,
        genus,
        degree,
        time_coefficient,
        DEFAULT_GENERATED_TERM_LIMIT,
    )
}

/// What a generated equation records of its request: the operator, the
/// sector and time coefficient, Getzler's conventions and source, and only
/// terms whose coefficients did not cancel.
pub open spec fn generated_metadata(
    c: VirasoroConstraint<Rational>,
    operator_index: i32,
    genus: usize,
    degree: CurveClass,
    time_coefficient: TimeMonomial,
) -> bool {
    &&& -1 <= operator_index <= MAX_STANDARD_VIRASORO_OPERATOR_INDEX
    &&& c.operator.index == operator_index
    &&& c.sector.genus == genus
    &&& c.sector.degree == degree
    &&& c.time_coefficient == time_coefficient
    &&& c.conventions.potential == PotentialConvention::LogarithmicPartitionFunctionEquation
    &&& c.conventions.time_normalization == TimeNormalization::Exponential
    &&& c.conventions.grading == CohomologicalGrading::Complex
    &&& c.conventions.unstable == UnstableConvention::Excluded
    &&& c.conventions.state_space == StateSpaceConvention::EvenOnly
    &&& c.source.title@ == "Getzler's corrected Eguchi--Hori--Xiong Virasoro operators"@
    &&& forall|i: int| 0 <= i < c.terms@.len() ==> term_coefficient(#[trigger] c.terms@[i]).0 != 0
}

/// The genus-one anomaly the theory's characteristic numbers give, if any.
pub open spec fn theory_anomaly_view<T: GwTheory>(theory: T) -> Option<RationalView> {
    match theory.spec_characteristic_numbers() {
        Some(n) => Some(anomaly_value(n.top_chern_integral@, n.c1_c_dim_minus_one_integral@, theory.spec_target_dimension() as int)),
        None => None,
    }
}

/// The number of degree splits the expansion uses: none for `L_{-1}`, `L_0`
/// or an ineffective class, otherwise the theory's count.
pub open spec fn generation_split_count<T: GwTheory>(theory: T, operator_index: i32, degree: CurveClass) -> usize {
    if operator_index <= 0 || theory.spec_effectivity(degree@) == Ok::<CurveEffectivity, GwError>(CurveEffectivity::Ineffective) {
        0
    } else {
        theory.spec_admissible_decomposition_count(degree@)->Ok_0
    }
}

/// The checks made before the canonical-theory data are validated pass: the
/// operator index, the operator model, the class's rank and effectivity, the
/// marking count and the size of the expansion.
pub open spec fn generation_request_ok<T: GwTheory>(
    theory: T,
    operator_index: i32,
    genus: usize,
    degree: CurveClass,
    time_coefficient: TimeMonomial,
    term_limit: usize,
) -> bool {
    let m = total_multiplicity(time_coefficient@);
    &&& -1 <= operator_index <= MAX_STANDARD_VIRASORO_OPERATOR_INDEX
    &&& theory.spec_virasoro_operator_kind() == VirasoroOperatorKind::StandardCompactGetzler
    &&& degree@.len() == theory.spec_curve_class_space().coordinate_names@.len()
    &&& theory.spec_effectivity(degree@) is Ok
    &&& m <= usize::MAX
    &&& (operator_index == -1 ==> m + 2 <= term_limit)
    &&& m <= MAX_VIRASORO_MARKINGS
    &&& (operator_index <= 0 || theory.spec_effectivity(degree@) == Ok::<CurveEffectivity, GwError>(CurveEffectivity::Ineffective)
        || theory.spec_admissible_decomposition_count(degree@) is Ok)
    &&& (operator_index >= 0 ==> {
        let k = operator_index as nat;
        let n = theory.spec_state_space().basis@.len();
        let splits = generation_split_count(theory, operator_index, degree) as nat;
        &&& term_estimate_fits(k, genus as nat, m as nat, n, splits)
        &&& term_estimate(k, genus as nat, m as nat, n, splits) <= term_limit
    })
}

/// Generation succeeds: the request passes its checks, the canonical-theory
/// data are valid, every insertion names a basis element, and the expansion
/// of `L_k` for `k >= 0` succeeds.
pub open spec fn generation_succeeds<T: GwTheory>(
    theory: T,
    operator_index: i32,
    genus: usize,
    degree: CurveClass,
    time_coefficient: TimeMonomial,
    term_limit: usize,
) -> bool {
    let state = theory.spec_state_space();
    &&& generation_request_ok(theory, operator_index, genus, degree, time_coefficient, term_limit)
    &&& compact_virasoro_data_valid(state, theory.spec_target_dimension(), theory_anomaly_view(theory))
    &&& insertions_in_basis(expanded(time_coefficient@), state.basis@.len())
    &&& (operator_index >= 0 ==> nonnegative_generation_succeeds(
        theory,
        operator_index as usize,
        genus,
        degree,
        expanded(time_coefficient@).len(),
        generation_split_count(theory, operator_index, degree),
        term_limit,
    ))
}

/// Whether generation succeeds depends on the class and the time
/// coefficient only through their views.
pub proof fn lemma_generation_depends_on_views<T: GwTheory>(
    theory: T,
    operator_index: i32,
    genus: usize,
    degree: CurveClass,
    other_degree: CurveClass,
    time_coefficient: TimeMonomial,
    other_time: TimeMonomial,
    term_limit: usize,
)
    requires
        degree@ == other_degree@,
        time_coefficient@ == other_time@,
    ensures
        generation_succeeds(theory, operator_index, genus, degree, time_coefficient, term_limit) == generation_succeeds(
            theory,
            operator_index,
            genus,
            other_degree,
            other_time,
            term_limit,
        ),
{
}

/// The terms of a generated equation, as sums per key, are those of its
/// expansion: for `L_{-1}` the string operator's entries; for `L_k`, `k >= 0`,
/// the entries of the input the expansion read.
pub open spec fn generated_terms<T: GwTheory>(
    theory: T,
    terms: Seq<ConstraintTerm<Rational>>,
    operator_index: i32,
    genus: usize,
    degree: CurveClass,
    time_coefficient: TimeMonomial,
) -> bool {
    let state = theory.spec_state_space();
    let external = expanded(time_coefficient@);
    if operator_index == -1 {
        &&& same_totals(linear_term_entries(terms), string_linear_additions(genus, degree@, external, state.unit))
        &&& same_totals(constant_term_entries(terms), string_constant_additions(state, genus, degree@, external))
        &&& quadratic_term_entries(terms).len() == 0
    } else {
        exists|e: ExpansionInput| {
            &&& #[trigger] expansion_input_of(
                e,
                state,
                state.c1_action->0@,
                theory.spec_target_dimension(),
                operator_index as usize,
                genus,
                degree@,
                external,
                theory.spec_curve_class_space().coordinate_names@.len(),
                generation_split_count(theory, operator_index, degree),
            )
            &&& e.degree_splits == accepted_degree_splits(theory, degree, generation_split_count(theory, operator_index, degree))
            &&& same_totals(linear_term_entries(terms), expansion_linear(e, (operator_index + 2) as nat))
            &&& same_totals(quadratic_term_entries(terms), expansion_quadratic(e, (operator_index + 2) as nat))
            &&& same_totals(constant_term_entries(terms), expansion_constants(e, theory_anomaly(theory)))
        }
    }
}

/// The validity of the canonical-theory data does not depend on which of two
/// equal fractions stands for the anomaly.
proof fn lemma_anomaly_choice(state: StateSpace, d: nat, a: Option<RationalView>, b: Option<RationalView>)
    requires
        a is Some <==> b is Some,
        a matches Some(x) ==> (b matches Some(y) && same_value(x, y) && x.1 > 0 && y.1 > 0),
    ensures
        compact_virasoro_data_valid(state, d, a) <==> compact_virasoro_data_valid(state, d, b),
{
    if a is Some {
        let x = a->0;
        let y = b->0;
        let g = grading_anomaly(state.basis@, d);
        lemma_supertrace_denominator(state.basis@, d);
        lemma_denominator_product_positive((-1, 4), grading_supertrace(state.basis@, d));
        if same_value(x, g) {
            lemma_same_value_transitive(y, x, g);
        }
        if same_value(y, g) {
            lemma_same_value_transitive(x, y, g);
        }
    }
}

/// The anomaly formula has a positive denominator for positive ones.
proof fn lemma_anomaly_denominator(top: RationalView, c1c: RationalView, d: int)
    requires
        top.1 > 0,
        c1c.1 > 0,
    ensures
        anomaly_value(top, c1c, d).1 > 0,
{
    lemma_denominator_product_positive(rat_of_int(3 - d), top);
    lemma_denominator_product_positive(rat_of_int(2), c1c);
    let a = rat_mul(rat_of_int(3 - d), top);
    let b = rat_neg(rat_mul(rat_of_int(2), c1c));
    lemma_denominator_product_positive(a, b);
    lemma_denominator_product_positive(rat_add(a, b), (48, 1));
}

/// Generate one coefficient of `Z^{-1} L_k Z` with an explicit upper bound
/// on the unaggregated term expansion.  The operator index, the theory's
/// operator model, the curve class, the marking count and the term budget
/// are checked before any labelled partition or matrix power is built; the
/// canonical-theory data are validated before the expansion.
pub fn generate_constraint_with_term_limit<T: GwTheory>(
    theory: &T,
    operator_index: i32,
    genus: usize,
    degree: CurveClass,
    time_coefficient: TimeMonomial,
    term_limit: usize,
) -> (result: Result<VirasoroConstraint<Rational>, GwError>)
    ensures
        operator_index < -1 ==> (result matches Err(GwError::ConventionMismatch(m))
            && m@ == "Virasoro operator index must be at least -1"@),
        operator_index > MAX_STANDARD_VIRASORO_OPERATOR_INDEX ==> (result matches Err(
            GwError::ResourceLimit { operation, requested, limit },
        ) && operation@ == "standard Virasoro operator index"@ && requested == operator_index
            && limit == MAX_STANDARD_VIRASORO_OPERATOR_INDEX),
        -1 <= operator_index <= MAX_STANDARD_VIRASORO_OPERATOR_INDEX && theory.spec_virasoro_operator_kind()
            != VirasoroOperatorKind::StandardCompactGetzler ==> (result matches Err(
            GwError::UnsupportedFeature { target, feature, witness },
        ) && target@ == theory.spec_theory_id() && feature@ == "Virasoro operator generation"@),
        -1 <= operator_index <= MAX_STANDARD_VIRASORO_OPERATOR_INDEX && theory.spec_virasoro_operator_kind()
            == VirasoroOperatorKind::StandardCompactGetzler && degree@.len() != theory.spec_curve_class_space().coordinate_names@.len()
            ==> (result matches Err(GwError::ConventionMismatch(_))),
        -1 <= operator_index <= MAX_STANDARD_VIRASORO_OPERATOR_INDEX && theory.spec_virasoro_operator_kind()
            == VirasoroOperatorKind::StandardCompactGetzler && degree@.len() == theory.spec_curve_class_space().coordinate_names@.len()
            ==> match theory.spec_effectivity(degree@) {
                Err(e) => result == Err::<VirasoroConstraint<Rational>, GwError>(e),
                Ok(_) => {
                    let m = total_multiplicity(time_coefficient@);
                    &&& m > usize::MAX ==> (result matches Err(GwError::AlgebraFailure(_)))
                    &&& (m <= usize::MAX && operator_index == -1 && m > usize::MAX - 2) ==> (result matches Err(
                        GwError::UnsupportedInvariant(_),
                    ))
                    &&& (m <= usize::MAX - 2 && operator_index == -1 && m + 2 > term_limit) ==> (result matches Err(
                        GwError::ResourceLimit { operation, requested, limit },
                    ) && operation@ == "string Virasoro coefficient expansion"@ && requested == m + 2
                        && limit == term_limit)
                    &&& (m <= usize::MAX && (operator_index == -1 ==> m + 2 <= term_limit) && m > MAX_VIRASORO_MARKINGS)
                        ==> (result matches Err(GwError::ResourceLimit { operation, requested, limit })
                        && operation@ == "Virasoro markings in one equation"@ && requested == m
                        && limit == MAX_VIRASORO_MARKINGS)
                },
            },
        result is Ok <==> generation_succeeds(*theory, operator_index, genus, degree, time_coefficient, term_limit),
        result matches Ok(c) ==> generated_metadata(c, operator_index, genus, degree, time_coefficient),
        result matches Ok(c) ==> generated_terms(*theory, c.terms@, operator_index, genus, degree, time_coefficient),
        result matches Ok(c) ==> c.theory_fingerprint@ == theory.spec_theory_fingerprint(),
        result matches Ok(c) ==> c.terms@.len() <= term_limit,
{
    if operator_index < -1 {
        return Err(GwError::ConventionMismatch(string_from("Virasoro operator index must be at least -1")));
    }
    if operator_index >= 0 && operator_index as usize > MAX_STANDARD_VIRASORO_OPERATOR_INDEX {
        return Err(GwError::ResourceLimit {
            operation: string_from("standard Virasoro operator index"),
            requested: operator_index as usize,
            limit: MAX_STANDARD_VIRASORO_OPERATOR_INDEX,
        });
    }
    match theory.virasoro_operator_kind() {
        VirasoroOperatorKind::StandardCompactGetzler => {},
        VirasoroOperatorKind::QrrConjugatedRequired => {
            return Err(GwError::UnsupportedFeature {
                target: theory.theory_id(),
                feature: string_from("Virasoro operator generation"),
                witness: string_from(
                    "the theory requires a QRR-conjugated operator; the standard compact Getzler operator is not valid",
                ),
            });
        },
        VirasoroOperatorKind::Unsupported => {
            return Err(GwError::UnsupportedFeature {
                target: theory.theory_id(),
                feature: string_from("Virasoro operator generation"),
                witness: string_from("the canonical theory does not declare an operator model"),
            });
        },
    }
    theory.curve_class_space().validate(&degree)?;
    let effectivity = theory.effectivity(&degree)?;
    let marking_count = match time_coefficient.total_degree() {
        Some(count) => count,
        None => {
            return Err(GwError::AlgebraFailure(string_from("time-coefficient marking count overflow")));
        },
    };
    if operator_index == -1 {
        if marking_count > usize::MAX - 2 {
            return Err(GwError::UnsupportedInvariant(string_from("string coefficient expansion size overflow")));
        }
        let estimate = marking_count + 2;
        if estimate > term_limit {
            return Err(GwError::ResourceLimit {
                operation: string_from("string Virasoro coefficient expansion"),
                requested: estimate,
                limit: term_limit,
            });
        }
    }
    if marking_count > MAX_VIRASORO_MARKINGS {
        return Err(GwError::ResourceLimit {
            operation: string_from("Virasoro markings in one equation"),
            requested: marking_count,
            limit: MAX_VIRASORO_MARKINGS,
        });
    }
    let ineffective = match effectivity {
        CurveEffectivity::Ineffective => true,
        _ => false,
    };
    let degree_split_count = if operator_index <= 0 || ineffective {
        0
    } else {
        theory.admissible_decomposition_count(&degree)?
    };
    if operator_index >= 0 {
        enforce_term_budget(
            operator_index as usize,
            genus,
            marking_count,
            theory.state_space().basis.len(),
            degree_split_count,
            term_limit,
        )?;
    }
    // The allocation and expansion guards above run before the thorough
    // validation of the theory data, so a tiny budget stays a cheap refusal.
    let state = theory.state_space();
    let dimension = theory.target_dimension();
    let anomaly = theory.virasoro_anomaly();
    match &anomaly {
        Some(v) => {
            proof {
                use_type_invariant(v);
            }
        },
        None => {},
    }
    match theory.characteristic_numbers() {
        Some(numbers) => {
            proof {
                use_type_invariant(&numbers.top_chern_integral);
                use_type_invariant(&numbers.c1_c_dim_minus_one_integral);
                lemma_anomaly_denominator(
                    numbers.top_chern_integral@,
                    numbers.c1_c_dim_minus_one_integral@,
                    dimension as int,
                );
                lemma_anomaly_choice(*state, dimension as nat, anomaly_view(anomaly), theory_anomaly_view(*theory));
            }
        },
        None => {
            proof {
                lemma_anomaly_choice(*state, dimension as nat, anomaly_view(anomaly), theory_anomaly_view(*theory));
            }
        },
    }
    validate_compact_virasoro_data(state, dimension, anomaly)?;
    proof {
        assert(expansion_data_ready(*state));
    }
    let external = expand_time_coefficient(&time_coefficient)?;
    proof {
        assert(generation_request_ok(*theory, operator_index, genus, degree, time_coefficient, term_limit));
    }
    let mut index: usize = 0;
    while index < external.len()
        invariant
            -1 <= operator_index <= MAX_STANDARD_VIRASORO_OPERATOR_INDEX,
            generation_request_ok(*theory, operator_index, genus, degree, time_coefficient, term_limit),
            !generation_succeeds(*theory, operator_index, genus, degree, time_coefficient, term_limit) ==> (
                !insertions_in_basis(external@, state.basis@.len()) || (operator_index >= 0
                    && !nonnegative_generation_succeeds(
                        *theory,
                        operator_index as usize,
                        genus,
                        degree,
                        external@.len(),
                        generation_split_count(*theory, operator_index, degree),
                        term_limit,
                    ))),
            external@ == expanded(time_coefficient@),
            *state == theory.spec_state_space(),
            index <= external@.len(),
            forall|j: int| 0 <= j < index ==> (#[trigger] external@[j]).class.0 < state.basis@.len(),
        decreases external@.len() - index,
    {
        if state.element(external[index].class).is_none() {
            let mut message = string_from("time coefficient contains unknown basis id ");
            push_usize(&mut message, external[index].class.0);
            return Err(GwError::ConventionMismatch(message));
        }
        index = index + 1;
    }
    proof {
        assert(degree_split_count == generation_split_count(*theory, operator_index, degree));
    }
    let mut terms = TermAccumulator::new();
    proof {
        assert(constant_entries(terms.constants@) =~= Seq::<((int, Seq<int>), RationalView)>::empty());
        assert(linear_entries(terms.linear@) =~= Seq::<((CorrelatorKeyView, (int, Seq<int>)), RationalView)>::empty());
        assert(quadratic_entries(terms.quadratic@) =~= Seq::<((CorrelatorKeyView, CorrelatorKeyView, (int, Seq<int>)), RationalView)>::empty());
    }
    let ghost empty_constants = constant_entries(terms.constants@);
    let ghost empty_linear = linear_entries(terms.linear@);
    let ghost empty_quadratic = quadratic_entries(terms.quadratic@);
    if operator_index == -1 {
        generate_string_terms(state, genus, &degree, &external, &mut terms);
    } else {
        generate_nonnegative_terms(
            theory,
            state,
            operator_index as usize,
            genus,
            &degree,
            &external,
            &mut terms,
            degree_split_count,
            term_limit,
        )?;
    }
    let ghost acc = terms;
    let finished = terms.finish();
    proof {
        lemma_expanded_len(time_coefficient@);
        assert(finished@.len() <= term_limit);
    }
    proof {
        let ct = constant_terms(acc.constants@);
        let lt = linear_terms(acc.linear@);
        let qt = quadratic_terms(acc.quadratic@);
        lemma_term_entries_concat(ct + lt, qt);
        lemma_term_entries_concat(ct, lt);
        lemma_term_kinds_apart(acc.constants@, acc.linear@, acc.quadratic@);
        assert(constant_term_entries(finished@) =~= constant_term_entries(ct));
        assert(linear_term_entries(finished@) =~= linear_term_entries(lt));
        assert(quadratic_term_entries(finished@) =~= quadratic_term_entries(qt));
        let ghost_e = if operator_index == -1 {
            arbitrary()
        } else {
            choose|e: ExpansionInput| #[trigger] expansion_input_of(
                e,
                *state,
                state.c1_action->0@,
                theory.spec_target_dimension(),
                operator_index as usize,
                genus,
                degree@,
                external@,
                theory.spec_curve_class_space().coordinate_names@.len(),
                degree_split_count,
            ) && e.degree_splits == accepted_degree_splits(*theory, degree, degree_split_count) && (empty_linear.len() == 0 ==> {
                &&& acc.denominators_positive()
                &&& same_totals(linear_entries(acc.linear@), empty_linear + expansion_linear(e, (operator_index + 2) as nat))
                &&& same_totals(quadratic_entries(acc.quadratic@), empty_quadratic + expansion_quadratic(e, (operator_index + 2) as nat))
                &&& same_totals(constant_entries(acc.constants@), empty_constants + expansion_constants(e, theory_anomaly(*theory)))
            })
        };
        let want_linear = if operator_index == -1 {
            string_linear_additions(genus, degree@, external@, state.unit)
        } else {
            expansion_linear(ghost_e, (operator_index + 2) as nat)
        };
        let want_constants = if operator_index == -1 {
            string_constant_additions(*state, genus, degree@, external@)
        } else {
            expansion_constants(ghost_e, theory_anomaly(*theory))
        };
        let want_quadratic = if operator_index == -1 {
            Seq::<((CorrelatorKeyView, CorrelatorKeyView, (int, Seq<int>)), RationalView)>::empty()
        } else {
            expansion_quadratic(ghost_e, (operator_index + 2) as nat)
        };
        assert(acc.denominators_positive());
        assert(empty_linear + want_linear =~= want_linear);
        assert(empty_constants + want_constants =~= want_constants);
        assert(empty_quadratic + want_quadratic =~= want_quadratic);
        assert(same_totals(linear_entries(acc.linear@), want_linear));
        assert(same_totals(constant_entries(acc.constants@), want_constants));
        lemma_linear_terms_totals(acc.linear@);
        lemma_constant_terms_totals(acc.constants@);
        lemma_quadratic_terms_totals(acc.quadratic@);
        lemma_same_totals_symmetric(linear_entries(acc.linear@), linear_term_entries(lt));
        lemma_same_totals_transitive(linear_term_entries(lt), linear_entries(acc.linear@), want_linear);
        lemma_same_totals_symmetric(constant_entries(acc.constants@), constant_term_entries(ct));
        lemma_same_totals_transitive(constant_term_entries(ct), constant_entries(acc.constants@), want_constants);
        if operator_index == -1 {
            assert(acc.quadratic@.len() == 0);
            assert(qt =~= Seq::<ConstraintTerm<Rational>>::empty());
        } else {
            assert(same_totals(quadratic_entries(acc.quadratic@), want_quadratic));
            lemma_same_totals_symmetric(quadratic_entries(acc.quadratic@), quadratic_term_entries(qt));
            lemma_same_totals_transitive(quadratic_term_entries(qt), quadratic_entries(acc.quadratic@), want_quadratic);
        }
        assert(generated_terms(*theory, finished@, operator_index, genus, degree, time_coefficient));
    }
    let mut notes: Vec<String> = Vec::new();
    notes.push(string_from("coefficient extracted by labelled time derivatives of Z^{-1} L_k Z at t=0"));
    notes.push(
        string_from(
            "negative-genus terms are absent; degree-zero unstable correlators are excluded and supplied only by explicit operator corrections",
        ),
    );
    match effectivity {
        CurveEffectivity::Ineffective => {
            notes.push(
                string_from(
                    "the requested curve class is canonical-theory-certified ineffective, so every correlator dependency is a forced zero",
                ),
            );
        },
        CurveEffectivity::Unknown => {
            notes.push(
                string_from(
                    "the class lies in the canonical theory's admissible support cone, but effectivity is not certified; dependencies will be queried rather than forced to zero",
                ),
            );
        },
        CurveEffectivity::Effective => {},
    }
    let conventions = VirasoroConventions {
        potential: PotentialConvention::LogarithmicPartitionFunctionEquation,
        time_normalization: TimeNormalization::Exponential,
        dilaton_shift: DilatonShift::Explicit(
            string_from("unshifted t-coordinates; the standard unit dilaton shift is expanded explicitly"),
        ),
        grading: CohomologicalGrading::Complex,
        unstable: UnstableConvention::Excluded,
        state_space: StateSpaceConvention::EvenOnly,
        novikov_variables: theory.curve_class_space().coordinate_names.clone(),
        equivariant_parameters: Vec::new(),
        notes,
    };
    let mut source = FormulaSource::new("Getzler's corrected Eguchi--Hori--Xiong Virasoro operators");
    source.citation = Some(string_from("https://arxiv.org/abs/math/9812026"));
    source.locator = Some(string_from("equations (Lk), (L-1), and (zkg)"));
    source.derivation = Some(
        string_from(
            "connected coefficient expansion of Z^{-1} L_k Z, including genus and canonical-theory-admissible curve-class splittings",
        ),
    );
    let label = theory.theory_id();
    let tex = theory.theory_tex();
    Ok(VirasoroConstraint {
        theory: TheoryLabel::new(label.as_str(), tex.as_str()),
        theory_fingerprint: theory.theory_fingerprint(),
        operator: VirasoroOperator::new(operator_index),
        sector: ConstraintSector::new(genus, degree),
        time_coefficient,
        terms: finished,
        conventions,
        source,
    })
}

} // verus!
