//! Bounds on the correlator dependencies that an evaluation backend is asked
//! for when a generated coefficient equation is audited.

use vstd::prelude::*;
use crate::constraints::virasoro::ast::{
    correlator_order, lemma_correlator_order_antisymmetric, lemma_correlator_order_transitive,
    ConstraintTerm, CorrelatorKey, CorrelatorKeyView, Descendant, VirasoroConstraint,
};
use crate::constraints::virasoro::report::{
    accounting_note, complete_term_accounting, truncation_note, EvaluatedTerm, IncompleteReason,
    MissingCorrelator, ResidualOutcome, ResidualReport,
};
use crate::foundation::error::GwError;
use crate::foundation::gw_theory::{virtual_dimension_value, GwTheory};
use crate::foundation::rational::{
    lemma_add_congruent, lemma_denominator_product_positive, lemma_mul_congruent, lemma_same_value_transitive, rat_add, rat_mul, rat_of_int,
    same_value, Rational, RationalView,
};
use crate::foundation::state_space::StateSpace;
use crate::foundation::theory::{BasisElement, CurveClassSpace, CurveEffectivity};
use crate::order::Order;
use crate::text::{decimal, push_str, push_usize, string_from};

verus! {

/// Limits on which correlators of an equation may be requested from a backend.
#[derive(Debug, Clone, Copy, PartialEq, Eq)]
pub struct CorrelatorEvaluationBounds {
    pub max_genus: Option<usize>,
    pub max_markings: Option<usize>,
    /// Maximum individual psi power in a dependency.
    pub max_descendant_power: Option<usize>,
    /// Maximum number of canonical unique dependencies considered.  Use
    /// `usize::MAX` for no finite dependency cap.
    pub dependency_limit: usize,
}

/// Whether a correlator lies inside the bounds: its genus, number of
/// insertions and every psi power are within the respective caps.
pub open spec fn within_bounds(bounds: CorrelatorEvaluationBounds, key: CorrelatorKeyView) -> bool {
    &&& (bounds.max_genus matches Some(g) ==> key.0 <= g)
    &&& (bounds.max_markings matches Some(m) ==> key.2.len() <= m)
    &&& (bounds.max_descendant_power matches Some(p) ==> forall|i: int|
        0 <= i < key.2.len() ==> #[trigger] key.2[i].psi_power <= p)
}

impl CorrelatorEvaluationBounds {
    /// No cap on genus, markings, psi powers or the number of dependencies.
    pub fn unbounded() -> (b: Self)
        ensures
            b.max_genus is None,
            b.max_markings is None,
            b.max_descendant_power is None,
            b.dependency_limit == usize::MAX,
    {
        Self {
            max_genus: None,
            max_markings: None,
            max_descendant_power: None,
            dependency_limit: usize::MAX,
        }
    }

    /// Whether `correlator` may be requested under these bounds.
    pub fn contains(&self, correlator: &CorrelatorKey) -> (inside: bool)
        ensures
            inside == within_bounds(*self, correlator@),
    {
        if let Some(max_genus) = self.max_genus {
            if correlator.genus() > max_genus {
                return false;
            }
        }
        let insertions: &[Descendant] = correlator.insertions();
        if let Some(max_markings) = self.max_markings {
            if insertions.len() > max_markings {
                return false;
            }
        }
        if let Some(maximum) = self.max_descendant_power {
            let mut i: usize = 0;
            while i < insertions.len()
                invariant
                    0 <= i <= insertions@.len(),
                    insertions@ == correlator@.2,
                    self.max_descendant_power == Some(maximum),
                    forall|j: int| 0 <= j < i ==> #[trigger] insertions@[j].psi_power <= maximum,
                decreases insertions@.len() - i,
            {
                if insertions[i].psi_power > maximum {
                    assert(correlator@.2[i as int].psi_power > maximum);
                    return false;
                }
                i = i + 1;
            }
        }
        true
    }
}

impl Default for CorrelatorEvaluationBounds {
    fn default() -> (b: Self)
        ensures
            b == CorrelatorEvaluationBounds::unbounded_spec(),
    {
        Self::unbounded()
    }
}

impl CorrelatorEvaluationBounds {
    /// The bounds that `unbounded` returns.
    pub open spec fn unbounded_spec() -> Self {
        CorrelatorEvaluationBounds {
            max_genus: None,
            max_markings: None,
            max_descendant_power: None,
            dependency_limit: usize::MAX,
        }
    }
}

/// The correlators a term depends on: none for a constant or a cancelled
/// coefficient, the correlator of a linear term, both factors of a product.
pub open spec fn term_dependencies(t: ConstraintTerm<Rational>) -> Seq<CorrelatorKeyView> {
    match t {
        ConstraintTerm::Constant { .. } => Seq::empty(),
        ConstraintTerm::Linear(l) => if l.coefficient@.0 == 0 {
            Seq::empty()
        } else {
            seq![l.correlator@]
        },
        ConstraintTerm::Quadratic(q) => if q.coefficient@.0 == 0 {
            Seq::empty()
        } else {
            seq![q.left@, q.right@]
        },
    }
}

/// The dependencies of an equation, term by term, with repetitions.
pub open spec fn dependencies(terms: Seq<ConstraintTerm<Rational>>) -> Seq<CorrelatorKeyView>
    decreases terms.len(),
{
    if terms.len() == 0 {
        Seq::empty()
    } else {
        dependencies(terms.drop_last()) + term_dependencies(terms.last())
    }
}

pub open spec fn key_views(v: Seq<CorrelatorKey>) -> Seq<CorrelatorKeyView> {
    Seq::new(v.len(), |i: int| v[i]@)
}

/// Some key of `r` is the same canonical key as `d`.
#[verifier::opaque]
pub open spec fn holds_key(r: Seq<CorrelatorKeyView>, d: CorrelatorKeyView) -> bool {
    exists|i: int| 0 <= i < r.len() && #[trigger] correlator_order(r[i], d) == 0
}

proof fn lemma_holds_witness(r: Seq<CorrelatorKeyView>, i: int, d: CorrelatorKeyView)
    requires
        0 <= i < r.len(),
        correlator_order(r[i], d) == 0,
    ensures
        holds_key(r, d),
{
    reveal(holds_key);
}

proof fn lemma_holds_choose(r: Seq<CorrelatorKeyView>, d: CorrelatorKeyView) -> (i: int)
    requires
        holds_key(r, d),
    ensures
        0 <= i < r.len(),
        correlator_order(r[i], d) == 0,
{
    reveal(holds_key);
    choose|i: int| 0 <= i < r.len() && #[trigger] correlator_order(r[i], d) == 0
}

/// Every key of `r` lies below `x`.
pub open spec fn all_below(r: Seq<CorrelatorKeyView>, x: CorrelatorKeyView) -> bool {
    forall|i: int| 0 <= i < r.len() ==> correlator_order(#[trigger] r[i], x) < 0
}

pub open spec fn strictly_sorted(r: Seq<CorrelatorKeyView>) -> bool {
    forall|i: int, j: int| 0 <= i < j < r.len() ==> correlator_order(#[trigger] r[i], #[trigger] r[j]) < 0
}

/// `r` holds, in increasing order, the `limit` smallest distinct keys of
/// `seen` (all of them when there are at most `limit`).
pub open spec fn smallest_keys(r: Seq<CorrelatorKeyView>, seen: Seq<CorrelatorKeyView>, limit: nat) -> bool {
    &&& strictly_sorted(r)
    &&& r.len() <= limit
    &&& forall|i: int| 0 <= i < r.len() ==> holds_key(seen, #[trigger] r[i])
    &&& forall|k: int| 0 <= k < seen.len() ==> holds_key(r, #[trigger] seen[k]) || (r.len() == limit && all_below(r, seen[k]))
}

/// Keys that compare equal are interchangeable on either side of the order.
proof fn lemma_order_respects_equal(x: CorrelatorKeyView, a: CorrelatorKeyView, b: CorrelatorKeyView)
    requires
        correlator_order(a, b) == 0,
    ensures
        correlator_order(x, a) == correlator_order(x, b),
        correlator_order(a, x) == correlator_order(b, x),
{
    lemma_correlator_order_antisymmetric(a, b);
    crate::order::lemma_lex_order_antisymmetric(crate::order::i64_ints(a.1), crate::order::i64_ints(b.1));
    assert(crate::order::i64_ints(a.1) == crate::order::i64_ints(b.1));
}

proof fn lemma_holds_after_insert(r: Seq<CorrelatorKeyView>, p: int, d: CorrelatorKeyView, x: CorrelatorKeyView)
    requires
        0 <= p <= r.len(),
        holds_key(r, x),
    ensures
        holds_key(r.insert(p, d), x),
{
    reveal(holds_key);
    let i = choose|i: int| 0 <= i < r.len() && #[trigger] correlator_order(r[i], x) == 0;
    let j = if i < p { i } else { i + 1 };
    assert(r.insert(p, d)[j] == r[i]);
    assert(correlator_order(r.insert(p, d)[j], x) == 0);
}

proof fn lemma_holds_in_longer(seen: Seq<CorrelatorKeyView>, d: CorrelatorKeyView, x: CorrelatorKeyView)
    requires
        holds_key(seen, x),
    ensures
        holds_key(seen.push(d), x),
{
    reveal(holds_key);
    let i = choose|i: int| 0 <= i < seen.len() && #[trigger] correlator_order(seen[i], x) == 0;
    assert(seen.push(d)[i] == seen[i]);
    assert(correlator_order(seen.push(d)[i], x) == 0);
}

/// The position at which `d` keeps `r` sorted, when no key of `r` equals it.
fn insertion_point(r: &Vec<CorrelatorKey>, d: &CorrelatorKey) -> (p: usize)
    requires
        strictly_sorted(key_views(r@)),
        !holds_key(key_views(r@), d@),
    ensures
        p <= r@.len(),
        forall|i: int| 0 <= i < p ==> correlator_order(#[trigger] key_views(r@)[i], d@) < 0,
        forall|i: int| p <= i < r@.len() ==> correlator_order(d@, #[trigger] key_views(r@)[i]) < 0,
{
    let mut p: usize = 0;
    while p < r.len()
        invariant
            p <= r@.len(),
            strictly_sorted(key_views(r@)),
            !holds_key(key_views(r@), d@),
            forall|i: int| 0 <= i < p ==> correlator_order(#[trigger] key_views(r@)[i], d@) < 0,
        decreases r@.len() - p,
    {
        let o = r[p].compare(d);
        proof {
            lemma_correlator_order_antisymmetric(r@[p as int]@, d@);
            assert(key_views(r@)[p as int] == r@[p as int]@);
            if correlator_order(r@[p as int]@, d@) == 0 {
                lemma_holds_witness(key_views(r@), p as int, d@);
            }
        }
        match o {
            Order::Less => {},
            _ => {
                proof {
                    assert forall|i: int| p <= i < r@.len() implies correlator_order(d@, #[trigger] key_views(r@)[i]) < 0 by {
                        if i > p {
                            lemma_correlator_order_transitive(d@, key_views(r@)[p as int], key_views(r@)[i]);
                        }
                    }
                }
                return p;
            },
        }
        p = p + 1;
    }
    p
}

/// Insert `d` where it keeps `r` strictly sorted.
fn insert_sorted(r: &mut Vec<CorrelatorKey>, d: CorrelatorKey)
    requires
        strictly_sorted(key_views(old(r)@)),
        !holds_key(key_views(old(r)@), d@),
    ensures
        exists|p: int| 0 <= p <= old(r)@.len() && key_views(final(r)@) == key_views(old(r)@).insert(p, d@)
            && (forall|i: int| 0 <= i < p ==> correlator_order(#[trigger] key_views(old(r)@)[i], d@) < 0)
            && (forall|i: int| p <= i < old(r)@.len() ==> correlator_order(d@, #[trigger] key_views(old(r)@)[i]) < 0),
        strictly_sorted(key_views(final(r)@)),
{
    let p = insertion_point(r, &d);
    let ghost before = key_views(r@);
    let ghost dv = d@;
    r.insert(p, d);
    proof {
        let after = key_views(r@);
        assert(after =~= before.insert(p as int, dv));
        assert forall|i: int, j: int| 0 <= i < j < after.len() implies correlator_order(#[trigger] after[i], #[trigger] after[j]) < 0 by {
            if j < p {
                assert(after[i] == before[i] && after[j] == before[j]);
            } else if j == p {
                assert(after[i] == before[i]);
            } else if i < p {
                assert(after[i] == before[i] && after[j] == before[j - 1]);
                lemma_correlator_order_transitive(before[i], dv, before[j - 1]);
            } else if i == p {
                assert(after[j] == before[j - 1]);
            } else {
                assert(after[i] == before[i - 1] && after[j] == before[j - 1]);
            }
        }
    }
}

/// Whether some key of `r` compares equal to `d`.
fn holds(r: &Vec<CorrelatorKey>, d: &CorrelatorKey) -> (found: bool)
    ensures
        found == holds_key(key_views(r@), d@),
{
    let mut i: usize = 0;
    while i < r.len()
        invariant
            i <= r@.len(),
            forall|j: int| 0 <= j < i ==> correlator_order(#[trigger] key_views(r@)[j], d@) != 0,
        decreases r@.len() - i,
    {
        let o = r[i].compare(d);
        proof {
            assert(key_views(r@)[i as int] == r@[i as int]@);
        }
        match o {
            Order::Equal => {
                proof {
                    lemma_holds_witness(key_views(r@), i as int, d@);
                }
                return true;
            },
            _ => {},
        }
        i = i + 1;
    }
    proof {
        reveal(holds_key);
    }
    false
}

proof fn lemma_retain_held(old_r: Seq<CorrelatorKeyView>, seen: Seq<CorrelatorKeyView>, d: CorrelatorKeyView, limit: nat)
    requires
        smallest_keys(old_r, seen, limit),
        holds_key(old_r, d),
    ensures
        smallest_keys(old_r, seen.push(d), limit),
{
    let new_seen = seen.push(d);
    assert forall|i: int| 0 <= i < old_r.len() implies holds_key(new_seen, #[trigger] old_r[i]) by {
        lemma_holds_in_longer(seen, d, old_r[i]);
    }
    assert forall|k: int| 0 <= k < new_seen.len() implies holds_key(old_r, #[trigger] new_seen[k]) || (old_r.len() == limit && all_below(old_r, new_seen[k])) by {
        if k < seen.len() {
            assert(new_seen[k] == seen[k]);
        }
    }
}

proof fn lemma_retain_grow(
    old_r: Seq<CorrelatorKeyView>,
    new_r: Seq<CorrelatorKeyView>,
    p: int,
    copy: CorrelatorKeyView,
    seen: Seq<CorrelatorKeyView>,
    d: CorrelatorKeyView,
    limit: nat,
)
    requires
        smallest_keys(old_r, seen, limit),
        old_r.len() < limit,
        correlator_order(copy, d) == 0,
        0 <= p <= old_r.len(),
        new_r == old_r.insert(p, copy),
        strictly_sorted(new_r),
    ensures
        smallest_keys(new_r, seen.push(d), limit),
{
    let new_seen = seen.push(d);
    lemma_correlator_order_antisymmetric(copy, d);
    assert forall|i: int| 0 <= i < new_r.len() implies holds_key(new_seen, #[trigger] new_r[i]) by {
        if i < p {
            assert(new_r[i] == old_r[i]);
            lemma_holds_in_longer(seen, d, old_r[i]);
        } else if i == p {
            assert(new_seen[seen.len() as int] == d);
            assert(correlator_order(new_seen[seen.len() as int], new_r[i]) == 0);
            lemma_holds_witness(new_seen, seen.len() as int, new_r[i]);
        } else {
            assert(new_r[i] == old_r[i - 1]);
            lemma_holds_in_longer(seen, d, old_r[i - 1]);
        }
    }
    assert forall|k: int| 0 <= k < new_seen.len() implies holds_key(new_r, #[trigger] new_seen[k]) || (new_r.len() == limit && all_below(new_r, new_seen[k])) by {
        if k < seen.len() {
            assert(new_seen[k] == seen[k]);
            assert(holds_key(old_r, seen[k]));
            lemma_holds_after_insert(old_r, p, copy, seen[k]);
        } else {
            assert(new_r[p] == copy);
            assert(correlator_order(new_r[p], new_seen[k]) == 0);
            lemma_holds_witness(new_r, p, new_seen[k]);
        }
    }
}

proof fn lemma_retain_replace(
    old_r: Seq<CorrelatorKeyView>,
    new_r: Seq<CorrelatorKeyView>,
    p: int,
    copy: CorrelatorKeyView,
    seen: Seq<CorrelatorKeyView>,
    d: CorrelatorKeyView,
    limit: nat,
)
    requires
        smallest_keys(old_r, seen, limit),
        old_r.len() == limit,
        old_r.len() > 0,
        correlator_order(copy, d) == 0,
        correlator_order(d, old_r.last()) < 0,
        0 <= p <= old_r.len() - 1,
        new_r == old_r.drop_last().insert(p, copy),
        strictly_sorted(new_r),
    ensures
        smallest_keys(new_r, seen.push(d), limit),
{
    let new_seen = seen.push(d);
    let last = old_r.last();
    let shortened = old_r.drop_last();
    let last_index = old_r.len() - 1;
    lemma_correlator_order_antisymmetric(copy, d);
    lemma_order_respects_equal(last, copy, d);
    assert forall|i: int| 0 <= i < new_r.len() implies correlator_order(#[trigger] new_r[i], last) < 0 by {
        if i < p {
            assert(new_r[i] == old_r[i]);
        } else if i > p {
            assert(new_r[i] == old_r[i - 1]);
        }
    }
    assert forall|i: int| 0 <= i < new_r.len() implies holds_key(new_seen, #[trigger] new_r[i]) by {
        if i < p {
            assert(new_r[i] == old_r[i]);
            lemma_holds_in_longer(seen, d, old_r[i]);
        } else if i == p {
            assert(correlator_order(new_seen[seen.len() as int], new_r[i]) == 0);
            lemma_holds_witness(new_seen, seen.len() as int, new_r[i]);
        } else {
            assert(new_r[i] == old_r[i - 1]);
            lemma_holds_in_longer(seen, d, old_r[i - 1]);
        }
    }
    assert forall|k: int| 0 <= k < new_seen.len() implies holds_key(new_r, #[trigger] new_seen[k]) || (new_r.len() == limit && all_below(new_r, new_seen[k])) by {
        if k < seen.len() {
            let x = seen[k];
            assert(new_seen[k] == x);
            if holds_key(old_r, x) {
                let i = lemma_holds_choose(old_r, x);
                if i < last_index {
                    assert(shortened[i] == old_r[i]);
                    assert(correlator_order(shortened[i], x) == 0);
                    lemma_holds_witness(shortened, i, x);
                    lemma_holds_after_insert(shortened, p, copy, x);
                } else {
                    assert forall|j: int| 0 <= j < new_r.len() implies correlator_order(new_r[j], x) < 0 by {
                        lemma_order_respects_equal(new_r[j], last, x);
                    }
                }
            } else {
                assert forall|j: int| 0 <= j < new_r.len() implies correlator_order(new_r[j], x) < 0 by {
                    assert(correlator_order(old_r[last_index], x) < 0);
                    lemma_correlator_order_transitive(new_r[j], last, x);
                }
            }
        } else {
            assert(new_r[p] == copy);
            assert(correlator_order(new_r[p], new_seen[k]) == 0);
            lemma_holds_witness(new_r, p, new_seen[k]);
        }
    }
}

proof fn lemma_retain_skip(old_r: Seq<CorrelatorKeyView>, seen: Seq<CorrelatorKeyView>, d: CorrelatorKeyView, limit: nat)
    requires
        smallest_keys(old_r, seen, limit),
        old_r.len() == limit,
        !holds_key(old_r, d),
        old_r.len() > 0 ==> correlator_order(d, old_r.last()) >= 0,
    ensures
        smallest_keys(old_r, seen.push(d), limit),
{
    let new_seen = seen.push(d);
    assert forall|i: int| 0 <= i < old_r.len() implies correlator_order(old_r[i], d) < 0 by {
        let last = old_r[old_r.len() - 1];
        lemma_correlator_order_antisymmetric(d, last);
        lemma_correlator_order_antisymmetric(last, d);
        if correlator_order(last, d) == 0 {
            lemma_holds_witness(old_r, old_r.len() - 1, d);
        }
        if i < old_r.len() - 1 {
            lemma_correlator_order_transitive(old_r[i], last, d);
        }
    }
    assert forall|i: int| 0 <= i < old_r.len() implies holds_key(new_seen, #[trigger] old_r[i]) by {
        lemma_holds_in_longer(seen, d, old_r[i]);
    }
    assert forall|k: int| 0 <= k < new_seen.len() implies holds_key(old_r, #[trigger] new_seen[k]) || (old_r.len() == limit && all_below(old_r, new_seen[k])) by {
        if k < seen.len() {
            assert(new_seen[k] == seen[k]);
        }
    }
}

/// Take one more dependency into the `limit` smallest distinct keys seen.
fn retain_dependency(r: &mut Vec<CorrelatorKey>, d: &CorrelatorKey, limit: usize, Ghost(seen): Ghost<Seq<CorrelatorKeyView>>)
    requires
        smallest_keys(key_views(old(r)@), seen, limit as nat),
    ensures
        smallest_keys(key_views(final(r)@), seen.push(d@), limit as nat),
{
    let ghost old_r = key_views(r@);
    if holds(r, d) {
        proof {
            lemma_retain_held(old_r, seen, d@, limit as nat);
        }
        return;
    }
    let copy = d.clone();
    proof {
        lemma_correlator_order_antisymmetric(copy@, d@);
        if holds_key(old_r, copy@) {
            let i = lemma_holds_choose(old_r, copy@);
            lemma_order_respects_equal(old_r[i], copy@, d@);
            lemma_holds_witness(old_r, i, d@);
        }
    }
    if r.len() < limit {
        let ghost copy_view = copy@;
        insert_sorted(r, copy);
        proof {
            let new_r = key_views(r@);
            let p = choose|p: int| 0 <= p <= old_r.len() && new_r == old_r.insert(p, copy_view)
                && (forall|i: int| 0 <= i < p ==> correlator_order(#[trigger] old_r[i], copy_view) < 0)
                && (forall|i: int| p <= i < old_r.len() ==> correlator_order(copy_view, #[trigger] old_r[i]) < 0);
            lemma_retain_grow(old_r, new_r, p, copy_view, seen, d@, limit as nat);
        }
        return;
    }
    if r.len() > 0 {
        let last_index = r.len() - 1;
        let o = d.compare(&r[last_index]);
        proof {
            assert(key_views(r@)[last_index as int] == r@[last_index as int]@);
        }
        match o {
            Order::Less => {
                let ghost copy_view = copy@;
                let _ = r.pop();
                let ghost shortened = key_views(r@);
                proof {
                    assert(shortened =~= old_r.drop_last());
                    assert forall|i: int, j: int| 0 <= i < j < shortened.len() implies correlator_order(#[trigger] shortened[i], #[trigger] shortened[j]) < 0 by {
                        assert(shortened[i] == old_r[i] && shortened[j] == old_r[j]);
                    }
                    if holds_key(shortened, copy_view) {
                        let i = lemma_holds_choose(shortened, copy_view);
                        assert(shortened[i] == old_r[i]);
                        assert(correlator_order(old_r[i], copy_view) == 0);
                        lemma_holds_witness(old_r, i, copy_view);
                    }
                }
                insert_sorted(r, copy);
                proof {
                    let new_r = key_views(r@);
                    let p = choose|p: int| 0 <= p <= shortened.len() && new_r == shortened.insert(p, copy_view)
                        && (forall|i: int| 0 <= i < p ==> correlator_order(#[trigger] shortened[i], copy_view) < 0)
                        && (forall|i: int| p <= i < shortened.len() ==> correlator_order(copy_view, #[trigger] shortened[i]) < 0);
                    lemma_retain_replace(old_r, new_r, p, copy_view, seen, d@, limit as nat);
                }
                return;
            },
            _ => {},
        }
    }
    proof {
        lemma_retain_skip(old_r, seen, d@, limit as nat);
    }
}

proof fn lemma_holds_equal(r: Seq<CorrelatorKeyView>, a: CorrelatorKeyView, b: CorrelatorKeyView)
    requires
        correlator_order(a, b) == 0,
    ensures
        holds_key(r, a) == holds_key(r, b),
{
    if holds_key(r, a) {
        let i = lemma_holds_choose(r, a);
        lemma_order_respects_equal(r[i], a, b);
        lemma_holds_witness(r, i, b);
    }
    if holds_key(r, b) {
        let i = lemma_holds_choose(r, b);
        lemma_correlator_order_antisymmetric(a, b);
        lemma_correlator_order_antisymmetric(b, a);
        lemma_order_respects_equal(r[i], b, a);
        lemma_holds_witness(r, i, a);
    }
}

/// The smallest key of `seen` that `r` does not hold, if any.
pub open spec fn omitted_witness(r: Seq<CorrelatorKeyView>, seen: Seq<CorrelatorKeyView>, w: Option<CorrelatorKeyView>) -> bool {
    &&& (w is None <==> forall|k: int| 0 <= k < seen.len() ==> holds_key(r, #[trigger] seen[k]))
    &&& (w matches Some(x) ==> {
        &&& !holds_key(r, x)
        &&& holds_key(seen, x)
        &&& forall|k: int| 0 <= k < seen.len() && !holds_key(r, #[trigger] seen[k]) ==> correlator_order(x, seen[k]) <= 0
    })
}

pub open spec fn option_view(w: Option<CorrelatorKey>) -> Option<CorrelatorKeyView> {
    match w {
        Some(k) => Some(k@),
        None => None,
    }
}

/// Consider one more dependency as the witness of an omitted key.
fn consider_witness(
    r: &Vec<CorrelatorKey>,
    d: &CorrelatorKey,
    candidate: &mut Option<CorrelatorKey>,
    Ghost(seen): Ghost<Seq<CorrelatorKeyView>>,
)
    requires
        omitted_witness(key_views(r@), seen, option_view(*old(candidate))),
    ensures
        omitted_witness(key_views(r@), seen.push(d@), option_view(*final(candidate))),
{
    let ghost rv = key_views(r@);
    let ghost new_seen = seen.push(d@);
    let ghost old_candidate = option_view(*candidate);
    proof {
        assert forall|k: int| 0 <= k < seen.len() implies new_seen[k] == seen[k] by {}
    }
    if holds(r, d) {
        proof {
            if let Some(x) = old_candidate {
                lemma_holds_in_longer(seen, d@, x);
            }
        }
        return;
    }
    let replace = match candidate {
        None => true,
        Some(w) => match d.compare(w) {
            Order::Less => true,
            _ => false,
        },
    };
    if replace {
        let copy = d.clone();
        proof {
            lemma_correlator_order_antisymmetric(copy@, d@);
            lemma_holds_equal(rv, copy@, d@);
            lemma_holds_witness(new_seen, seen.len() as int, copy@);
            assert forall|k: int| 0 <= k < new_seen.len() && !holds_key(rv, #[trigger] new_seen[k]) implies correlator_order(copy@, new_seen[k]) <= 0 by {
                let y = new_seen[k];
                lemma_order_respects_equal(y, copy@, d@);
                if k < seen.len() {
                    assert(y == seen[k]);
                    if let Some(x) = old_candidate {
                        assert(correlator_order(x, y) <= 0);
                        if correlator_order(x, y) < 0 {
                            lemma_correlator_order_transitive(d@, x, y);
                        } else {
                            lemma_order_respects_equal(d@, x, y);
                        }
                    }
                }
            }
        }
        *candidate = Some(copy);
    } else {
        proof {
            let x = old_candidate->0;
            lemma_holds_in_longer(seen, d@, x);
            lemma_correlator_order_antisymmetric(d@, x);
        }
    }
}

/// The `limit` smallest distinct keys of `deps`, in increasing order, and
/// the smallest key that did not fit, if any.  At most `limit + 1` keys are
/// kept whatever the size of the full list.
pub fn bounded_dependencies(
    deps: &Vec<CorrelatorKey>,
    limit: usize,
) -> (result: (Vec<CorrelatorKey>, Option<CorrelatorKey>))
    ensures
        smallest_keys(key_views(result.0@), key_views(deps@), limit as nat),
        omitted_witness(key_views(result.0@), key_views(deps@), option_view(result.1)),
{
    let ghost all = key_views(deps@);
    let mut retained: Vec<CorrelatorKey> = Vec::new();
    let mut t: usize = 0;
    proof {
        assert(all.take(0) =~= Seq::<CorrelatorKeyView>::empty());
    }
    while t < deps.len()
        invariant
            t <= deps@.len(),
            all == key_views(deps@),
            smallest_keys(key_views(retained@), all.take(t as int), limit as nat),
        decreases deps@.len() - t,
    {
        proof {
            assert(all.take(t + 1) =~= all.take(t as int).push(deps@[t as int]@));
        }
        retain_dependency(&mut retained, &deps[t], limit, Ghost(all.take(t as int)));
        t = t + 1;
    }
    proof {
        assert(all.take(all.len() as int) =~= all);
    }
    let mut candidate: Option<CorrelatorKey> = None;
    t = 0;
    while t < deps.len()
        invariant
            t <= deps@.len(),
            all == key_views(deps@),
            smallest_keys(key_views(retained@), all, limit as nat),
            omitted_witness(key_views(retained@), all.take(t as int), option_view(candidate)),
        decreases deps@.len() - t,
    {
        proof {
            assert(all.take(t + 1) =~= all.take(t as int).push(deps@[t as int]@));
        }
        consider_witness(&retained, &deps[t], &mut candidate, Ghost(all.take(t as int)));
        t = t + 1;
    }
    proof {
        assert(all.take(all.len() as int) =~= all);
    }
    (retained, candidate)
}

/// A source of exact correlator values for one canonical theory.
/// Each required method's answer is named by a specification function, which
/// an implementation refines.
pub trait CanonicalCorrelatorEvaluator {
    type Theory: GwTheory;

    /// The theory `theory` returns.
    closed spec fn spec_theory(&self) -> Self::Theory {
        arbitrary()
    }

    /// The backend's answer for a correlator, by its key.
    closed spec fn spec_evaluate_backend(&self, correlator: CorrelatorKeyView) -> Result<Rational, GwError> {
        arbitrary()
    }

    fn theory(&self) -> (theory: &Self::Theory)
        ensures
            *theory == self.spec_theory(),
    ;

    /// Evaluate a correlator that has already passed the canonical structural
    /// zero checks.  Unsupported coefficients must return
    /// `GwError::UnsupportedInvariant`, never a placeholder zero.
    fn evaluate_backend(&self, correlator: &CorrelatorKey) -> (r: Result<Rational, GwError>)
        ensures
            r == self.spec_evaluate_backend(correlator@),
    ;
}

/// How a dependency received its value.
#[derive(Debug, Clone, PartialEq, Eq)]
pub enum CorrelatorResolution {
    /// The value computed by the evaluator backend.
    Backend(Rational),
    /// A zero certified from effectivity, stability or virtual dimension.
    StructuralZero(Rational),
}

impl CorrelatorResolution {
    pub open spec fn spec_value(&self) -> Rational {
        match self {
            CorrelatorResolution::Backend(v) => *v,
            CorrelatorResolution::StructuralZero(v) => *v,
        }
    }

    pub fn value(&self) -> (v: &Rational)
        ensures
            *v == self.spec_value(),
    {
        match self {
            CorrelatorResolution::Backend(v) => v,
            CorrelatorResolution::StructuralZero(v) => v,
        }
    }
}

/// Sum of the psi powers and codimensions of the insertions, added one
/// insertion at a time in `usize`; the message for the first unknown basis
/// id or the first overflow.
pub open spec fn insertion_degree_value(basis: Seq<BasisElement>, insertions: Seq<Descendant>) -> Result<nat, Seq<char>>
    decreases insertions.len(),
{
    if insertions.len() == 0 {
        Ok(0)
    } else {
        match insertion_degree_value(basis, insertions.drop_last()) {
            Err(m) => Err(m),
            Ok(d) => {
                let x = insertions.last();
                if x.class.0 >= basis.len() {
                    Err("unknown basis id "@ + decimal(x.class.0 as nat) + " in correlator"@)
                } else if d + x.psi_power + basis[x.class.0 as int].complex_codimension > usize::MAX {
                    Err("insertion degree overflow"@)
                } else {
                    Ok((d + x.psi_power + basis[x.class.0 as int].complex_codimension) as nat)
                }
            },
        }
    }
}

proof fn lemma_insertion_degree_error_persists(basis: Seq<BasisElement>, s: Seq<Descendant>, k: int, j: int)
    requires
        0 <= k <= j <= s.len(),
        insertion_degree_value(basis, s.take(k)) is Err,
    ensures
        insertion_degree_value(basis, s.take(j)) == insertion_degree_value(basis, s.take(k)),
    decreases j - k,
{
    if j > k {
        lemma_insertion_degree_error_persists(basis, s, k, j - 1);
        assert(s.take(j).drop_last() =~= s.take(j - 1));
    }
}

/// The total cohomological degree of the insertions, validating every
/// basis id against the state space.
pub fn insertion_degree(state: &StateSpace, insertions: &[Descendant]) -> (r: Result<usize, IncompleteReason>)
    ensures
        match insertion_degree_value(state.basis@, insertions@) {
            Ok(d) => r == Ok::<usize, IncompleteReason>(d as usize),
            Err(m) => r matches Err(IncompleteReason::EvaluationError(s)) && s@ == m,
        },
{
    let mut degree: usize = 0;
    let mut i: usize = 0;
    proof {
        assert(insertions@.take(0) =~= Seq::<Descendant>::empty());
    }
    while i < insertions.len()
        invariant
            i <= insertions@.len(),
            insertion_degree_value(state.basis@, insertions@.take(i as int)) == Ok::<nat, Seq<char>>(degree as nat),
        decreases insertions@.len() - i,
    {
        proof {
            assert(insertions@.take(i + 1).drop_last() =~= insertions@.take(i as int));
            assert(insertions@.take(i + 1).last() == insertions@[i as int]);
            assert(insertions@.take(insertions@.len() as int) =~= insertions@);
        }
        let insertion = insertions[i];
        let codimension = match state.element(insertion.class) {
            Some(basis) => basis.complex_codimension,
            None => {
                let mut message = string_from("unknown basis id ");
                push_usize(&mut message, insertion.class.0);
                push_str(&mut message, " in correlator");
                proof {
                    lemma_insertion_degree_error_persists(state.basis@, insertions@, i + 1, insertions@.len() as int);
                }
                return Err(IncompleteReason::EvaluationError(message));
            },
        };
        let next = match degree.checked_add(insertion.psi_power) {
            Some(partial) => partial.checked_add(codimension),
            None => None,
        };
        match next {
            Some(total) => {
                degree = total;
            },
            None => {
                proof {
                    lemma_insertion_degree_error_persists(state.basis@, insertions@, i + 1, insertions@.len() as int);
                }
                return Err(IncompleteReason::EvaluationError(string_from("insertion degree overflow")));
            },
        }
        i = i + 1;
    }
    proof {
        assert(insertions@.take(insertions@.len() as int) =~= insertions@);
    }
    Ok(degree)
}

/// A degree-zero sector with `2g + n <= 2`: unstable constant maps, which
/// the connected potential excludes.
pub open spec fn unstable_constant_sector(key: CorrelatorKeyView) -> bool {
    &&& forall|i: int| 0 <= i < key.1.len() ==> key.1[i] == 0
    &&& 2 * key.0 + key.2.len() <= 2
}

pub fn is_unstable_constant_sector(correlator: &CorrelatorKey) -> (unstable: bool)
    ensures
        unstable == unstable_constant_sector(correlator@),
{
    if !correlator.degree().is_zero() {
        return false;
    }
    let stability = match correlator.genus().checked_mul(2) {
        Some(twice_genus) => twice_genus.checked_add(correlator.insertions().len()),
        None => None,
    };
    match stability {
        Some(value) => value <= 2,
        None => false,
    }
}

/// The virtual dimension differs from the total insertion degree, so the
/// correlator vanishes for dimension reasons.
pub fn dimension_mismatch(virtual_dimension: isize, insertion_degree: usize) -> (mismatch: bool)
    ensures
        mismatch == (virtual_dimension as int != insertion_degree as int),
{
    virtual_dimension < 0 || virtual_dimension as usize != insertion_degree
}

/// What a backend answer becomes: its value, or the reason it is missing
/// (`Unsupported` for an unsupported invariant, otherwise the error's
/// message as an evaluation error).
pub fn backend_resolution(answer: Result<Rational, GwError>) -> (r: Result<CorrelatorResolution, IncompleteReason>)
    ensures
        answer matches Ok(v) ==> r == Ok::<CorrelatorResolution, IncompleteReason>(CorrelatorResolution::Backend(v)),
        answer matches Err(GwError::UnsupportedInvariant(m)) ==> r == Err::<CorrelatorResolution, IncompleteReason>(
            IncompleteReason::Unsupported(m)),
        answer matches Err(e) ==> (!(e is UnsupportedInvariant) ==> (r matches Err(IncompleteReason::EvaluationError(s)) && s@ == e.spec_message())),
{
    match answer {
        Ok(value) => Ok(CorrelatorResolution::Backend(value)),
        Err(GwError::UnsupportedInvariant(message)) => Err(IncompleteReason::Unsupported(message)),
        Err(other) => Err(IncompleteReason::EvaluationError(other.message())),
    }
}

/// Whether `r` is the outcome of the structural checks of a dependency with
/// view `key`, given the theory's lattice, state space, and answers for the
/// effectivity and `c_1` pairing of its class: a class of the wrong rank or
/// an insertion outside the basis is an evaluation error; an ineffective
/// class and an unstable constant sector are structural zeros; otherwise
/// the virtual dimension is compared with the insertion degree.
pub open spec fn structural_outcome(
    r: Result<bool, IncompleteReason>,
    lattice: CurveClassSpace,
    state: StateSpace,
    effectivity: Result<CurveEffectivity, GwError>,
    c1: Result<i64, GwError>,
    dimension: nat,
    key: CorrelatorKeyView,
) -> bool {
    if key.1.len() != lattice.coordinate_names@.len() {
        r matches Err(IncompleteReason::EvaluationError(s)) && s@ == "convention mismatch: "@
            + ("curve class has rank "@ + decimal(key.1.len()) + ", but theory expects rank "@
            + decimal(lattice.coordinate_names@.len()))
    } else {
        match insertion_degree_value(state.basis@, key.2) {
            Err(m) => r matches Err(IncompleteReason::EvaluationError(s)) && s@ == m,
            Ok(degree) => match effectivity {
                Err(e) => r matches Err(IncompleteReason::EvaluationError(s)) && s@ == e.spec_message(),
                Ok(CurveEffectivity::Ineffective) => r == Ok::<bool, IncompleteReason>(true),
                Ok(_) => if unstable_constant_sector(key) {
                    r == Ok::<bool, IncompleteReason>(true)
                } else {
                    match c1 {
                        Err(e) => r matches Err(IncompleteReason::EvaluationError(s)) && s@ == e.spec_message(),
                        Ok(c) => match virtual_dimension_value(dimension as int, key.0 as int, c as int, key.2.len() as int) {
                            Ok(v) => r == Ok::<bool, IncompleteReason>(v != degree as int),
                            Err(m) => r matches Err(IncompleteReason::EvaluationError(s)) && s@ == "algebra failure: "@ + m,
                        },
                    }
                },
            },
        }
    }
}

/// The structural checks of one dependency: validate its class and
/// insertions, then certify it as a structural zero (ineffective class,
/// unstable constant maps, virtual dimension mismatch), or report that it
/// needs a backend value (`false`).
pub fn structural_check<T: GwTheory>(theory: &T, correlator: &CorrelatorKey) -> (r: Result<bool, IncompleteReason>)
    ensures
        structural_outcome(
            r,
            theory.spec_curve_class_space(),
            theory.spec_state_space(),
            theory.spec_effectivity(correlator@.1),
            theory.spec_c1_pairing(correlator@.1),
            theory.spec_target_dimension(),
            correlator@,
        ),
        r matches Err(reason) ==> reason is EvaluationError,
{
    match theory.curve_class_space().validate(correlator.degree()) {
        Ok(()) => {},
        Err(error) => {
            return Err(IncompleteReason::EvaluationError(error.message()));
        },
    }
    let degree = match insertion_degree(theory.state_space(), correlator.insertions()) {
        Ok(degree) => degree,
        Err(reason) => {
            return Err(reason);
        },
    };
    match theory.effectivity(correlator.degree()) {
        Ok(CurveEffectivity::Ineffective) => {
            return Ok(true);
        },
        Ok(_) => {},
        Err(error) => {
            return Err(IncompleteReason::EvaluationError(error.message()));
        },
    }
    if is_unstable_constant_sector(correlator) {
        return Ok(true);
    }
    let virtual_dimension = match theory.virtual_dimension(
        correlator.genus(),
        correlator.degree(),
        correlator.insertions().len(),
    ) {
        Ok(value) => value,
        Err(error) => {
            return Err(IncompleteReason::EvaluationError(error.message()));
        },
    };
    Ok(dimension_mismatch(virtual_dimension, degree))
}

/// What a backend answer becomes: its value; for an unsupported invariant
/// the reason `Unsupported`; otherwise the error's message.
pub open spec fn backend_outcome(answer: Result<Rational, GwError>, r: ResolvedValue) -> bool {
    match answer {
        Ok(v) => r == Ok::<CorrelatorResolution, IncompleteReason>(CorrelatorResolution::Backend(v)),
        Err(GwError::UnsupportedInvariant(m)) => r == Err::<CorrelatorResolution, IncompleteReason>(
            IncompleteReason::Unsupported(m),
        ),
        Err(e) => r matches Err(IncompleteReason::EvaluationError(s)) && s@ == e.spec_message(),
    }
}

/// The structural checks of the key, under the theory's answers.
pub open spec fn structural_answer<T: GwTheory>(theory: T, key: CorrelatorKeyView, s: Result<bool, IncompleteReason>) -> bool {
    structural_outcome(
        s,
        theory.spec_curve_class_space(),
        theory.spec_state_space(),
        theory.spec_effectivity(key.1),
        theory.spec_c1_pairing(key.1),
        theory.spec_target_dimension(),
        key,
    )
}

/// The resolution of a dependency inside the bounds: the structural checks'
/// error, a structural zero, or -- when the checks ask for it -- what the
/// backend answers.
pub open spec fn checked_resolution<E: CanonicalCorrelatorEvaluator>(evaluator: E, key: CorrelatorKeyView, r: ResolvedValue) -> bool {
    exists|s: Result<bool, IncompleteReason>| #[trigger] structural_answer(evaluator.spec_theory(), key, s) && match s {
        Err(reason) => r == Err::<CorrelatorResolution, IncompleteReason>(reason),
        Ok(true) => r matches Ok(CorrelatorResolution::StructuralZero(v)) && v@ == rat_of_int(0),
        Ok(false) => backend_outcome(evaluator.spec_evaluate_backend(key), r),
    }
}

/// The resolution of a retained dependency: outside the bounds it is missing,
/// inside them it is checked and, if needed, asked of the backend.
pub open spec fn expected_resolution<E: CanonicalCorrelatorEvaluator>(
    evaluator: E,
    bounds: CorrelatorEvaluationBounds,
    key: CorrelatorKeyView,
    r: ResolvedValue,
) -> bool {
    if within_bounds(bounds, key) {
        checked_resolution(evaluator, key, r)
    } else {
        r == Err::<CorrelatorResolution, IncompleteReason>(IncompleteReason::OutsideBounds)
    }
}

/// Resolve one dependency: a structural zero is the number zero; otherwise
/// the backend is asked for its value.
pub fn resolve_correlator<E: CanonicalCorrelatorEvaluator>(
    evaluator: &E,
    correlator: &CorrelatorKey,
) -> (r: Result<CorrelatorResolution, IncompleteReason>)
    ensures
        r matches Ok(CorrelatorResolution::StructuralZero(v)) ==> v@ == rat_of_int(0),
        r matches Err(reason) ==> reason is EvaluationError || reason is Unsupported,
        checked_resolution(*evaluator, correlator@, r),
{
    let s = structural_check(evaluator.theory(), correlator);
    proof {
        assert(structural_answer(evaluator.spec_theory(), correlator@, s));
    }
    match s {
        Err(reason) => Err(reason),
        Ok(true) => Ok(CorrelatorResolution::StructuralZero(Rational::zero())),
        Ok(false) => backend_resolution(evaluator.evaluate_backend(correlator)),
    }
}

/// The dependencies of the terms, in order: the correlator of every linear
/// term and both factors of every product with a nonzero coefficient.
fn dependency_list(terms: &Vec<ConstraintTerm<Rational>>) -> (deps: Vec<CorrelatorKey>)
    ensures
        key_views(deps@) == dependencies(terms@),
{
    let mut deps: Vec<CorrelatorKey> = Vec::new();
    let mut t: usize = 0;
    proof {
        assert(terms@.take(0) =~= Seq::<ConstraintTerm<Rational>>::empty());
    }
    while t < terms.len()
        invariant
            t <= terms@.len(),
            key_views(deps@) == dependencies(terms@.take(t as int)),
        decreases terms@.len() - t,
    {
        let ghost before = deps@;
        match &terms[t] {
            ConstraintTerm::Constant { .. } => {},
            ConstraintTerm::Linear(term) => {
                if !term.coefficient.is_zero() {
                    deps.push(term.correlator.clone());
                }
            },
            ConstraintTerm::Quadratic(term) => {
                if !term.coefficient.is_zero() {
                    deps.push(term.left.clone());
                    deps.push(term.right.clone());
                }
            },
        }
        proof {
            let next = terms@.take(t + 1);
            assert(next.drop_last() =~= terms@.take(t as int));
            assert(next.last() == terms@[t as int]);
            assert(key_views(deps@) =~= key_views(before) + term_dependencies(terms@[t as int]));
        }
        t = t + 1;
    }
    proof {
        assert(terms@.take(terms@.len() as int) =~= terms@);
    }
    deps
}

/// The value recorded for a dependency, in the order of the retained keys.
pub type ResolvedValue = Result<CorrelatorResolution, IncompleteReason>;

/// The resolution recorded for the retained key equal to `k`, if `k` was
/// retained.
pub open spec fn resolved_entry(keys: Seq<CorrelatorKeyView>, res: Seq<ResolvedValue>, k: CorrelatorKeyView) -> Option<ResolvedValue> {
    if exists|i: int| 0 <= i < keys.len() && #[trigger] correlator_order(keys[i], k) == 0 {
        let i = choose|i: int| 0 <= i < keys.len() && #[trigger] correlator_order(keys[i], k) == 0;
        Some(res[i])
    } else {
        None
    }
}

/// The value of a recorded resolution, if it has one.
pub open spec fn entry_value(e: Option<ResolvedValue>) -> Option<RationalView> {
    match e {
        Some(Ok(v)) => Some(v.spec_value()@),
        _ => None,
    }
}

/// The exact contribution of one term, when every correlator it needs has a
/// value: the constant itself, zero for a cancelled coefficient, otherwise
/// the coefficient times the correlator values (a structural zero counting
/// as the number zero).
pub open spec fn term_contribution(t: ConstraintTerm<Rational>, keys: Seq<CorrelatorKeyView>, res: Seq<ResolvedValue>) -> Option<RationalView> {
    match t {
        ConstraintTerm::Constant { coefficient, .. } => Some(coefficient@),
        ConstraintTerm::Linear(l) => if l.coefficient@.0 == 0 {
            Some(rat_of_int(0))
        } else {
            match entry_value(resolved_entry(keys, res, l.correlator@)) {
                Some(v) => Some(rat_mul(l.coefficient@, v)),
                None => None,
            }
        },
        ConstraintTerm::Quadratic(q) => {
            let a = resolved_entry(keys, res, q.left@);
            let b = resolved_entry(keys, res, q.right@);
            if q.coefficient@.0 == 0 {
                Some(rat_of_int(0))
            } else {
                match (entry_value(a), entry_value(b)) {
                    (Some(x), Some(y)) => Some(rat_mul(q.coefficient@, rat_mul(x, y))),
                    _ => None,
                }
            }
        },
    }
}

/// The evaluated terms, as (term index, contribution), in term order.
pub open spec fn contributions(terms: Seq<ConstraintTerm<Rational>>, keys: Seq<CorrelatorKeyView>, res: Seq<ResolvedValue>) -> Seq<(int, RationalView)>
    decreases terms.len(),
{
    if terms.len() == 0 {
        Seq::empty()
    } else {
        let prev = contributions(terms.drop_last(), keys, res);
        match term_contribution(terms.last(), keys, res) {
            Some(c) => prev.push((terms.len() - 1, c)),
            None => prev,
        }
    }
}

/// The sum of the contributions that could be evaluated.
pub open spec fn residual_value(terms: Seq<ConstraintTerm<Rational>>, keys: Seq<CorrelatorKeyView>, res: Seq<ResolvedValue>) -> RationalView
    decreases terms.len(),
{
    if terms.len() == 0 {
        rat_of_int(0)
    } else {
        let prev = residual_value(terms.drop_last(), keys, res);
        match term_contribution(terms.last(), keys, res) {
            Some(c) => rat_add(prev, c),
            None => prev,
        }
    }
}

/// The evaluated terms of a report carry exactly these indices and values.
pub open spec fn evaluated_terms_match(ev: Seq<EvaluatedTerm<Rational>>, cs: Seq<(int, RationalView)>) -> bool {
    &&& ev.len() == cs.len()
    &&& forall|i: int| 0 <= i < ev.len() ==> {
        &&& #[trigger] ev[i].term_index == cs[i].0
        &&& same_value(ev[i].exact_contribution@, cs[i].1)
    }
}

/// The first `n` retained keys that the backend resolved.
pub open spec fn backend_keys(keys: Seq<CorrelatorKeyView>, res: Seq<ResolvedValue>, n: nat) -> Seq<CorrelatorKeyView>
    decreases n,
{
    if n == 0 {
        Seq::empty()
    } else {
        let prev = backend_keys(keys, res, (n - 1) as nat);
        if res[n - 1] matches Ok(CorrelatorResolution::Backend(_)) {
            prev.push(keys[n - 1])
        } else {
            prev
        }
    }
}

/// The first `n` retained keys certified as structural zeros.
pub open spec fn structural_keys(keys: Seq<CorrelatorKeyView>, res: Seq<ResolvedValue>, n: nat) -> Seq<CorrelatorKeyView>
    decreases n,
{
    if n == 0 {
        Seq::empty()
    } else {
        let prev = structural_keys(keys, res, (n - 1) as nat);
        if res[n - 1] matches Ok(CorrelatorResolution::StructuralZero(_)) {
            prev.push(keys[n - 1])
        } else {
            prev
        }
    }
}

/// The first `n` retained keys without a value, with their reasons.
pub open spec fn missing_entries(keys: Seq<CorrelatorKeyView>, res: Seq<ResolvedValue>, n: nat) -> Seq<(CorrelatorKeyView, IncompleteReason)>
    decreases n,
{
    if n == 0 {
        Seq::empty()
    } else {
        let prev = missing_entries(keys, res, (n - 1) as nat);
        match res[n - 1] {
            Err(reason) => prev.push((keys[n - 1], reason)),
            Ok(_) => prev,
        }
    }
}

/// The omitted witness, if any, recorded as outside the bounds.
pub open spec fn witness_entry(w: Option<CorrelatorKeyView>) -> Seq<(CorrelatorKeyView, IncompleteReason)> {
    match w {
        Some(x) => seq![(x, IncompleteReason::OutsideBounds)],
        None => Seq::empty(),
    }
}

pub open spec fn missing_views(s: Seq<MissingCorrelator>) -> Seq<(CorrelatorKeyView, IncompleteReason)> {
    Seq::new(s.len(), |i: int| (s[i].correlator@, s[i].reason))
}

/// The report that substituting the resolved values into `terms` yields:
/// coverage lists in key order, missing dependencies followed by the
/// omitted witness, the evaluated contributions, and a decisive outcome only
/// when nothing is missing and every term is accounted for.
pub open spec fn evaluated_report(
    r: ResidualReport<Rational>,
    terms: Seq<ConstraintTerm<Rational>>,
    keys: Seq<CorrelatorKeyView>,
    res: Seq<ResolvedValue>,
    w: Option<CorrelatorKeyView>,
    limit: nat,
) -> bool {
    let n = keys.len();
    let missing = missing_entries(keys, res, n) + witness_entry(w);
    let residual = residual_value(terms, keys, res);
    let accounted = complete_term_accounting(r.spec_evaluated_terms(), terms.len());
    &&& r.spec_total_terms() == terms.len()
    &&& evaluated_terms_match(r.spec_evaluated_terms(), contributions(terms, keys, res))
    &&& missing_views(r.spec_missing_correlators()) == missing
    &&& key_views(r.spec_backend_correlators()) == backend_keys(keys, res, n)
    &&& key_views(r.spec_structural_zero_correlators()) == structural_keys(keys, res, n)
    &&& r.spec_dependency_closure_truncated() == (w is Some)
    &&& missing.len() > 0 ==> {
        &&& r.spec_outcome() matches ResidualOutcome::Incomplete { exact_partial_sum: Some(x) } && same_value(x@, residual)
        &&& r.spec_notes() == (if w is Some { seq![truncation_note(limit)] } else { Seq::<Seq<char>>::empty() })
    }
    &&& (missing.len() == 0 && accounted) ==> {
        &&& r.spec_notes().len() == 0
        &&& residual.0 == 0 ==> (r.spec_outcome() matches ResidualOutcome::VerifiedZero { exact_residual: x } && same_value(x@, residual))
        &&& residual.0 != 0 ==> (r.spec_outcome() matches ResidualOutcome::Nonzero { exact_residual: x } && same_value(x@, residual))
    }
    &&& (missing.len() == 0 && !accounted) ==> {
        &&& r.spec_outcome() matches ResidualOutcome::Incomplete { exact_partial_sum: Some(x) } && same_value(x@, residual)
        &&& r.spec_notes() == seq![accounting_note()]
    }
}

/// Sort the retained keys by how they were resolved.
fn dependency_coverage(keys: &Vec<CorrelatorKey>, res: &Vec<ResolvedValue>) -> (out: (Vec<CorrelatorKey>, Vec<CorrelatorKey>, Vec<MissingCorrelator>))
    requires
        keys@.len() == res@.len(),
    ensures
        key_views(out.0@) == backend_keys(key_views(keys@), res@, keys@.len() as nat),
        key_views(out.1@) == structural_keys(key_views(keys@), res@, keys@.len() as nat),
        missing_views(out.2@) == missing_entries(key_views(keys@), res@, keys@.len() as nat),
{
    let ghost kv = key_views(keys@);
    let mut backend: Vec<CorrelatorKey> = Vec::new();
    let mut structural: Vec<CorrelatorKey> = Vec::new();
    let mut missing: Vec<MissingCorrelator> = Vec::new();
    let mut i: usize = 0;
    while i < keys.len()
        invariant
            i <= keys@.len(),
            keys@.len() == res@.len(),
            kv == key_views(keys@),
            key_views(backend@) == backend_keys(kv, res@, i as nat),
            key_views(structural@) == structural_keys(kv, res@, i as nat),
            missing_views(missing@) == missing_entries(kv, res@, i as nat),
        decreases keys@.len() - i,
    {
        let key = keys[i].clone();
        proof {
            assert(kv[i as int] == keys@[i as int]@);
        }
        match &res[i] {
            Ok(CorrelatorResolution::Backend(_)) => {
                let ghost before = backend@;
                backend.push(key);
                proof {
                    assert(key_views(backend@) =~= key_views(before).push(kv[i as int]));
                }
            },
            Ok(CorrelatorResolution::StructuralZero(_)) => {
                let ghost before = structural@;
                structural.push(key);
                proof {
                    assert(key_views(structural@) =~= key_views(before).push(kv[i as int]));
                }
            },
            Err(reason) => {
                let ghost before = missing@;
                missing.push(MissingCorrelator { correlator: key, reason: reason.clone() });
                proof {
                    assert(missing_views(missing@) =~= missing_views(before).push((kv[i as int], res@[i as int]->Err_0)));
                }
            },
        }
        i = i + 1;
    }
    (backend, structural, missing)
}

/// The resolution recorded for the retained key equal to `k`, if any.
fn lookup_resolution<'a>(keys: &Vec<CorrelatorKey>, res: &'a Vec<ResolvedValue>, k: &CorrelatorKey) -> (v: Option<&'a ResolvedValue>)
    requires
        keys@.len() == res@.len(),
        strictly_sorted(key_views(keys@)),
    ensures
        v is Some <==> resolved_entry(key_views(keys@), res@, k@) is Some,
        v matches Some(x) ==> resolved_entry(key_views(keys@), res@, k@) == Some(*x),
{
    let ghost kv = key_views(keys@);
    let mut i: usize = 0;
    while i < keys.len()
        invariant
            i <= keys@.len(),
            keys@.len() == res@.len(),
            kv == key_views(keys@),
            strictly_sorted(kv),
            forall|j: int| 0 <= j < i ==> correlator_order(#[trigger] kv[j], k@) != 0,
        decreases keys@.len() - i,
    {
        let o = keys[i].compare(k);
        proof {
            assert(kv[i as int] == keys@[i as int]@);
        }
        match o {
            Order::Equal => {
                proof {
                    let j = choose|j: int| 0 <= j < kv.len() && #[trigger] correlator_order(kv[j], k@) == 0;
                    lemma_correlator_order_antisymmetric(kv[j], k@);
                    lemma_order_respects_equal(kv[i as int], kv[j], k@);
                    lemma_correlator_order_antisymmetric(kv[i as int], kv[j]);
                    if j < i {
                        assert(correlator_order(kv[j], kv[i as int]) < 0);
                    }
                    if j > i {
                        assert(correlator_order(kv[i as int], kv[j]) < 0);
                    }
                }
                return Some(&res[i]);
            },
            _ => {},
        }
        i = i + 1;
    }
    None
}

/// The contribution of one term, or `None` when a correlator it needs has
/// no value.
fn term_value(term: &ConstraintTerm<Rational>, keys: &Vec<CorrelatorKey>, res: &Vec<ResolvedValue>) -> (v: Option<Rational>)
    requires
        keys@.len() == res@.len(),
        strictly_sorted(key_views(keys@)),
    ensures
        v is Some <==> term_contribution(*term, key_views(keys@), res@) is Some,
        v matches Some(x) ==> same_value(x@, term_contribution(*term, key_views(keys@), res@)->0),
        term_contribution(*term, key_views(keys@), res@) matches Some(c) ==> c.1 > 0,
{
    match term {
        ConstraintTerm::Constant { coefficient, .. } => {
            proof {
                use_type_invariant(coefficient);
            }
            Some(coefficient.clone())
        },
        ConstraintTerm::Linear(l) => {
            if l.coefficient.is_zero() {
                return Some(Rational::zero());
            }
            match lookup_resolution(keys, res, &l.correlator) {
                Some(Ok(resolution)) => {
                    let value = resolution.value();
                    proof {
                        use_type_invariant(&l.coefficient);
                        use_type_invariant(value);
                        lemma_denominator_product_positive(l.coefficient@, value@);
                    }
                    Some(l.coefficient.mul(value))
                },
                _ => None,
            }
        },
        ConstraintTerm::Quadratic(q) => {
            let left = lookup_resolution(keys, res, &q.left);
            let right = lookup_resolution(keys, res, &q.right);
            if q.coefficient.is_zero() {
                return Some(Rational::zero());
            }
            match (left, right) {
                (Some(Ok(ra)), Some(Ok(rb))) => {
                    let a = ra.value();
                    let b = rb.value();
                    let product = a.mul(b);
                    let value = q.coefficient.mul(&product);
                    proof {
                        use_type_invariant(&q.coefficient);
                        use_type_invariant(a);
                        use_type_invariant(b);
                        use_type_invariant(&product);
                        lemma_denominator_product_positive(a@, b@);
                        lemma_denominator_product_positive(q.coefficient@, rat_mul(a@, b@));
                        lemma_denominator_product_positive(q.coefficient@, product@);
                        lemma_mul_congruent(q.coefficient@, q.coefficient@, product@, rat_mul(a@, b@));
                        lemma_same_value_transitive(value@, rat_mul(q.coefficient@, product@), rat_mul(q.coefficient@, rat_mul(a@, b@)));
                    }
                    Some(value)
                },
                _ => None,
            }
        },
    }
}

/// Sum the contributions of the terms that can be evaluated and record
/// each of them.
#[verifier::spinoff_prover]
fn accumulate(terms: &Vec<ConstraintTerm<Rational>>, keys: &Vec<CorrelatorKey>, res: &Vec<ResolvedValue>) -> (out: (Rational, Vec<EvaluatedTerm<Rational>>))
    requires
        keys@.len() == res@.len(),
        strictly_sorted(key_views(keys@)),
    ensures
        same_value(out.0@, residual_value(terms@, key_views(keys@), res@)),
        residual_value(terms@, key_views(keys@), res@).1 > 0,
        evaluated_terms_match(out.1@, contributions(terms@, key_views(keys@), res@)),
{
    let ghost kv = key_views(keys@);
    let mut residual = Rational::zero();
    let mut evaluated: Vec<EvaluatedTerm<Rational>> = Vec::new();
    let mut t: usize = 0;
    proof {
        assert(terms@.take(0) =~= Seq::<ConstraintTerm<Rational>>::empty());
    }
    while t < terms.len()
        invariant
            t <= terms@.len(),
            keys@.len() == res@.len(),
            kv == key_views(keys@),
            strictly_sorted(kv),
            same_value(residual@, residual_value(terms@.take(t as int), kv, res@)),
            residual_value(terms@.take(t as int), kv, res@).1 > 0,
            evaluated_terms_match(evaluated@, contributions(terms@.take(t as int), kv, res@)),
        decreases terms@.len() - t,
    {
        let ghost prefix = terms@.take(t as int);
        let ghost next = terms@.take(t + 1);
        proof {
            assert(next.drop_last() =~= prefix);
            assert(next.last() == terms@[t as int]);
        }
        match term_value(&terms[t], keys, res) {
            Some(contribution) => {
                let ghost c = term_contribution(terms@[t as int], kv, res@)->0;
                let ghost before = evaluated@;
                let sum = residual.add(&contribution);
                proof {
                    use_type_invariant(&residual);
                    use_type_invariant(&contribution);
                    lemma_denominator_product_positive(residual@, contribution@);
                    lemma_denominator_product_positive(residual_value(prefix, kv, res@), c);
                    lemma_add_congruent(residual@, residual_value(prefix, kv, res@), contribution@, c);
                    lemma_same_value_transitive(sum@, rat_add(residual@, contribution@), rat_add(residual_value(prefix, kv, res@), c));
                }
                residual = sum;
                evaluated.push(EvaluatedTerm { term_index: t, exact_contribution: contribution });
                proof {
                    let cs = contributions(next, kv, res@);
                    let prev = contributions(prefix, kv, res@);
                    assert(term_contribution(next.last(), kv, res@) == Some(c));
                    assert(cs == prev.push((t as int, c)));
                    assert(evaluated@.len() == cs.len());
                    assert forall|i: int| 0 <= i < evaluated@.len() implies {
                        &&& #[trigger] evaluated@[i].term_index == cs[i].0
                        &&& same_value(evaluated@[i].exact_contribution@, cs[i].1)
                    } by {
                        if i < before.len() {
                            assert(evaluated@[i] == before[i]);
                            assert(cs[i] == prev[i]);
                        } else {
                            assert(evaluated@[i].term_index == t);
                            assert(cs[i] == (t as int, c));
                        }
                    }
                }
            },
            None => {
                proof {
                    assert(contributions(next, kv, res@) == contributions(prefix, kv, res@));
                    assert(residual_value(next, kv, res@) == residual_value(prefix, kv, res@));
                }
            },
        }
        t = t + 1;
    }
    proof {
        assert(terms@.take(terms@.len() as int) =~= terms@);
    }
    (residual, evaluated)
}

/// Substitute the resolved values into the terms and build the report:
/// the exact (partial) residual, the coverage lists, the missing
/// dependencies followed by the omitted witness, and the truncation mark.
pub fn evaluation_report(
    terms: &Vec<ConstraintTerm<Rational>>,
    keys: &Vec<CorrelatorKey>,
    res: &Vec<ResolvedValue>,
    witness: Option<CorrelatorKey>,
    dependency_limit: usize,
) -> (r: ResidualReport<Rational>)
    requires
        keys@.len() == res@.len(),
        strictly_sorted(key_views(keys@)),
    ensures
        evaluated_report(r, terms@, key_views(keys@), res@, option_view(witness), dependency_limit as nat),
{
    let ghost kv = key_views(keys@);
    let ghost w = option_view(witness);
    let (residual, evaluated) = accumulate(terms, keys, res);
    let (backend, structural, mut missing) = dependency_coverage(keys, res);
    let ghost listed = missing@;
    let truncated = witness.is_some();
    match witness {
        Some(key) => {
            missing.push(MissingCorrelator { correlator: key, reason: IncompleteReason::OutsideBounds });
        },
        None => {},
    }
    proof {
        assert(missing_views(missing@) =~= missing_entries(kv, res@, kv.len()) + witness_entry(w));
        use_type_invariant(&residual);
    }
    let ghost rv = residual_value(terms@, kv, res@);
    let ghost ev = evaluated@;
    let report = if missing.len() > 0 {
        ResidualReport::incomplete(Some(residual), terms.len(), evaluated, missing)
    } else {
        let zero = residual.is_zero();
        proof {
            let x = residual@;
            if x.0 == 0 {
                assert(rv.0 * x.1 == 0);
                assert(rv.0 == 0) by (nonlinear_arith)
                    requires
                        rv.0 * x.1 == 0,
                        x.1 > 0,
                ;
            }
            if rv.0 == 0 {
                assert(x.0 * rv.1 == 0);
                assert(x.0 == 0) by (nonlinear_arith)
                    requires
                        x.0 * rv.1 == 0,
                        rv.1 > 0,
                ;
            }
        }
        if zero {
            ResidualReport::verified_zero(residual, terms.len(), evaluated)
        } else {
            ResidualReport::nonzero(residual, terms.len(), evaluated)
        }
    };
    let ghost expected = missing_entries(kv, res@, kv.len()) + witness_entry(w);
    let report = report.with_dependency_coverage(backend, structural);
    proof {
        assert(missing_views(report.spec_missing_correlators()) =~= expected);
        if report.spec_notes().len() == 0 {
            assert(report.spec_notes() =~= Seq::<Seq<char>>::empty());
        }
    }
    if truncated {
        let r = report.with_truncated_dependency_closure(dependency_limit);
        proof {
            assert(missing_views(r.spec_missing_correlators()) =~= expected);
            assert(r.spec_notes() =~= seq![truncation_note(dependency_limit as nat)]);
        }
        r
    } else {
        report
    }
}

/// The note of a report whose constraint and evaluator disagree on the
/// theory.
pub open spec fn mismatch_message() -> Seq<char> {
    "constraint and evaluator refer to different theories"@
}

/// The report for a constraint of another theory: nothing is evaluated,
/// every retained dependency is missing with the mismatch as its evaluation
/// error, followed by the omitted witness.
pub open spec fn theory_mismatch_report(
    r: ResidualReport<Rational>,
    total: nat,
    keys: Seq<CorrelatorKeyView>,
    w: Option<CorrelatorKeyView>,
    limit: nat,
) -> bool {
    let m = missing_views(r.spec_missing_correlators());
    &&& r.spec_total_terms() == total
    &&& r.spec_evaluated_terms().len() == 0
    &&& m.len() == keys.len() + witness_entry(w).len()
    &&& forall|i: int| 0 <= i < keys.len() ==> {
        &&& (#[trigger] m[i]).0 == keys[i]
        &&& m[i].1 matches IncompleteReason::EvaluationError(s) && s@ == mismatch_message()
    }
    &&& m.subrange(keys.len() as int, m.len() as int) == witness_entry(w)
    &&& r.spec_backend_correlators().len() == 0
    &&& r.spec_structural_zero_correlators().len() == 0
    &&& r.spec_outcome() == (ResidualOutcome::<Rational>::Incomplete { exact_partial_sum: None })
    &&& r.spec_dependency_closure_truncated() == (w is Some)
    &&& r.spec_notes() == seq![mismatch_message()] + (if w is Some { seq![truncation_note(limit)] } else { Seq::<Seq<char>>::empty() })
}

/// The report for a constraint that names another theory than the
/// evaluator's.
pub fn mismatch_report(
    total_terms: usize,
    keys: &Vec<CorrelatorKey>,
    witness: Option<CorrelatorKey>,
    dependency_limit: usize,
) -> (r: ResidualReport<Rational>)
    ensures
        theory_mismatch_report(r, total_terms as nat, key_views(keys@), option_view(witness), dependency_limit as nat),
{
    let ghost kv = key_views(keys@);
    let ghost w = option_view(witness);
    let mut missing: Vec<MissingCorrelator> = Vec::new();
    let mut i: usize = 0;
    while i < keys.len()
        invariant
            i <= keys@.len(),
            kv == key_views(keys@),
            missing@.len() == i,
            forall|j: int| 0 <= j < i ==> {
                &&& (#[trigger] missing_views(missing@)[j]).0 == kv[j]
                &&& missing_views(missing@)[j].1 matches IncompleteReason::EvaluationError(s) && s@ == mismatch_message()
            },
        decreases keys@.len() - i,
    {
        let ghost before = missing@;
        missing.push(MissingCorrelator {
            correlator: keys[i].clone(),
            reason: IncompleteReason::EvaluationError(string_from("constraint and evaluator refer to different theories")),
        });
        proof {
            assert forall|j: int| 0 <= j < i + 1 implies {
                &&& (#[trigger] missing_views(missing@)[j]).0 == kv[j]
                &&& missing_views(missing@)[j].1 matches IncompleteReason::EvaluationError(s) && s@ == mismatch_message()
            } by {
                if j < i {
                    assert(missing@[j] == before[j]);
                    assert(missing_views(before)[j] == missing_views(missing@)[j]);
                }
            }
        }
        i = i + 1;
    }
    let ghost listed = missing@;
    let truncated = witness.is_some();
    match witness {
        Some(key) => {
            missing.push(MissingCorrelator { correlator: key, reason: IncompleteReason::OutsideBounds });
        },
        None => {},
    }
    proof {
        let m = missing_views(missing@);
        assert(m.subrange(kv.len() as int, m.len() as int) =~= witness_entry(w));
        assert forall|j: int| 0 <= j < kv.len() implies {
            &&& (#[trigger] m[j]).0 == kv[j]
            &&& m[j].1 matches IncompleteReason::EvaluationError(s) && s@ == mismatch_message()
        } by {
            assert(missing@[j] == listed[j]);
            assert(missing_views(listed)[j] == m[j]);
        }
    }
    let report = ResidualReport::incomplete(None, total_terms, Vec::new(), missing)
        .with_note("constraint and evaluator refer to different theories");
    proof {
        assert(report.spec_notes() =~= seq![mismatch_message()]);
    }
    if truncated {
        let r = report.with_truncated_dependency_closure(dependency_limit);
        proof {
            assert(r.spec_notes() =~= seq![mismatch_message()] + seq![truncation_note(dependency_limit as nat)]);
        }
        r
    } else {
        proof {
            assert(report.spec_notes() =~= seq![mismatch_message()] + Seq::<Seq<char>>::empty());
        }
        report
    }
}


/// The resolutions of the retained keys: a key outside the bounds is
/// missing as `OutsideBounds` and only such a key; a structural zero is the
/// number zero.
pub open spec fn admissible_resolutions(res: Seq<ResolvedValue>, keys: Seq<CorrelatorKeyView>, bounds: CorrelatorEvaluationBounds) -> bool {
    &&& res.len() == keys.len()
    &&& forall|i: int| 0 <= i < keys.len() ==> {
        &&& (res[i] == Err::<CorrelatorResolution, IncompleteReason>(IncompleteReason::OutsideBounds)
            <==> !within_bounds(bounds, #[trigger] keys[i]))
        &&& (res[i] matches Ok(CorrelatorResolution::StructuralZero(v)) ==> v@ == rat_of_int(0))
    }
}

/// The report of substituting exact values into `terms` under `bounds`:
/// the `dependency_limit` smallest distinct dependencies are retained and the
/// smallest omitted one, if any, is the witness; the report is either the
/// theory-mismatch report or the report of admissible resolutions of the
/// retained keys.
pub open spec fn evaluation_outcome(
    r: ResidualReport<Rational>,
    terms: Seq<ConstraintTerm<Rational>>,
    bounds: CorrelatorEvaluationBounds,
) -> bool {
    exists|keys: Seq<CorrelatorKeyView>, w: Option<CorrelatorKeyView>|
        #![trigger smallest_keys(keys, dependencies(terms), bounds.dependency_limit as nat), omitted_witness(keys, dependencies(terms), w)]
    {
        &&& smallest_keys(keys, dependencies(terms), bounds.dependency_limit as nat)
        &&& omitted_witness(keys, dependencies(terms), w)
        &&& {
            ||| theory_mismatch_report(r, terms.len(), keys, w, bounds.dependency_limit as nat)
            ||| exists|res: Seq<ResolvedValue>| #[trigger] admissible_resolutions(res, keys, bounds)
                && evaluated_report(r, terms, keys, res, w, bounds.dependency_limit as nat)
        }
    }
}

/// The report for a constraint of the evaluator's theory: the
/// `dependency_limit` smallest distinct dependencies retained and the smallest omitted one as witness, each
/// retained dependency resolved as the bounds, the structural checks and the
/// backend give, and the values substituted.
pub open spec fn exact_evaluation<E: CanonicalCorrelatorEvaluator>(
    r: ResidualReport<Rational>,
    evaluator: E,
    terms: Seq<ConstraintTerm<Rational>>,
    bounds: CorrelatorEvaluationBounds,
) -> bool {
    exists|keys: Seq<CorrelatorKeyView>, w: Option<CorrelatorKeyView>, res: Seq<ResolvedValue>|
        #![trigger smallest_keys(keys, dependencies(terms), bounds.dependency_limit as nat), omitted_witness(keys, dependencies(terms), w), admissible_resolutions(res, keys, bounds)]
    {
        &&& smallest_keys(keys, dependencies(terms), bounds.dependency_limit as nat)
        &&& omitted_witness(keys, dependencies(terms), w)
        &&& admissible_resolutions(res, keys, bounds)
        &&& forall|i: int| 0 <= i < keys.len() ==> #[trigger] expected_resolution(evaluator, bounds, keys[i], res[i])
        &&& evaluated_report(r, terms, keys, res, w, bounds.dependency_limit as nat)
    }
}

/// The report for a constraint of another theory: the `dependency_limit`
/// smallest distinct dependencies reported missing.
pub open spec fn mismatch_evaluation(
    r: ResidualReport<Rational>,
    terms: Seq<ConstraintTerm<Rational>>,
    bounds: CorrelatorEvaluationBounds,
) -> bool {
    exists|keys: Seq<CorrelatorKeyView>, w: Option<CorrelatorKeyView>|
        #![trigger smallest_keys(keys, dependencies(terms), bounds.dependency_limit as nat), omitted_witness(keys, dependencies(terms), w)]
    {
        &&& smallest_keys(keys, dependencies(terms), bounds.dependency_limit as nat)
        &&& omitted_witness(keys, dependencies(terms), w)
        &&& theory_mismatch_report(r, terms.len(), keys, w, bounds.dependency_limit as nat)
    }
}

/// Substitute exact values while enforcing an explicit dependency envelope.
///
/// The `dependency_limit` smallest distinct dependencies are retained and
/// the smallest omitted one, if any, is recorded as outside the bounds and
/// marks the closure as truncated, so the report can never pass.  If the
/// constraint names another theory than the evaluator, every retained
/// dependency is reported missing; otherwise each retained dependency inside
/// the bounds is resolved once and the report substitutes the values.
pub fn evaluate_constraint_with_bounds<E: CanonicalCorrelatorEvaluator>(
    evaluator: &E,
    constraint: &VirasoroConstraint<Rational>,
    bounds: CorrelatorEvaluationBounds,
) -> (r: ResidualReport<Rational>)
    ensures
        evaluation_outcome(r, constraint.terms@, bounds),
        constraint.theory_fingerprint@ == evaluator.spec_theory().spec_theory_fingerprint() ==> exact_evaluation(
            r,
            *evaluator,
            constraint.terms@,
            bounds,
        ),
        constraint.theory_fingerprint@ != evaluator.spec_theory().spec_theory_fingerprint() ==> mismatch_evaluation(
            r,
            constraint.terms@,
            bounds,
        ),
{
    let theory = evaluator.theory();
    let fingerprint = theory.theory_fingerprint();
    let matching = constraint.theory_fingerprint == fingerprint;
    let deps = dependency_list(&constraint.terms);
    let (retained, witness) = bounded_dependencies(&deps, bounds.dependency_limit);
    let ghost keys = key_views(retained@);
    let ghost w = option_view(witness);
    if !matching {
        let r = mismatch_report(constraint.terms.len(), &retained, witness, bounds.dependency_limit);
        return r;
    }
    let mut resolutions: Vec<ResolvedValue> = Vec::new();
    let mut i: usize = 0;
    while i < retained.len()
        invariant
            i <= retained@.len(),
            keys == key_views(retained@),
            resolutions@.len() == i,
            forall|j: int| 0 <= j < i ==> {
                &&& (resolutions@[j] == Err::<CorrelatorResolution, IncompleteReason>(IncompleteReason::OutsideBounds)
                    <==> !within_bounds(bounds, #[trigger] keys[j]))
                &&& (resolutions@[j] matches Ok(CorrelatorResolution::StructuralZero(v)) ==> v@ == rat_of_int(0))
                &&& expected_resolution(*evaluator, bounds, keys[j], resolutions@[j])
            },
        decreases retained@.len() - i,
    {
        proof {
            assert(keys[i as int] == retained@[i as int]@);
        }
        let resolution = if bounds.contains(&retained[i]) {
            resolve_correlator(evaluator, &retained[i])
        } else {
            Err(IncompleteReason::OutsideBounds)
        };
        resolutions.push(resolution);
        i = i + 1;
    }
    let r = evaluation_report(&constraint.terms, &retained, &resolutions, witness, bounds.dependency_limit);
    proof {
        assert(admissible_resolutions(resolutions@, keys, bounds));
    }
    r
}

/// Substitute exact backend values into a generated constraint, with no
/// bounds: every distinct dependency is resolved once.
pub fn evaluate_constraint<E: CanonicalCorrelatorEvaluator>(
    evaluator: &E,
    constraint: &VirasoroConstraint<Rational>,
) -> (r: ResidualReport<Rational>)
    ensures
        evaluation_outcome(r, constraint.terms@, CorrelatorEvaluationBounds::unbounded_spec()),
        constraint.theory_fingerprint@ == evaluator.spec_theory().spec_theory_fingerprint() ==> exact_evaluation(
            r,
            *evaluator,
            constraint.terms@,
            CorrelatorEvaluationBounds::unbounded_spec(),
        ),
        constraint.theory_fingerprint@ != evaluator.spec_theory().spec_theory_fingerprint() ==> mismatch_evaluation(
            r,
            constraint.terms@,
            CorrelatorEvaluationBounds::unbounded_spec(),
        ),
{
    evaluate_constraint_with_bounds(evaluator, constraint, CorrelatorEvaluationBounds::unbounded())
}


proof fn lemma_smallest_keys_agree_at(
    r1: Seq<CorrelatorKeyView>,
    r2: Seq<CorrelatorKeyView>,
    seen: Seq<CorrelatorKeyView>,
    limit: nat,
    i: int,
)
    requires
        smallest_keys(r1, seen, limit),
        smallest_keys(r2, seen, limit),
        0 <= i < r1.len(),
        i < r2.len(),
        forall|j: int| 0 <= j < i ==> r1[j] == r2[j],
    ensures
        correlator_order(r1[i], r2[i]) >= 0,
{
    if correlator_order(r1[i], r2[i]) < 0 {
        let x = r1[i];
        let k = lemma_holds_choose(seen, x);
        lemma_correlator_order_antisymmetric(seen[k], x);
        assert(seen[k] == x);
        lemma_correlator_order_antisymmetric(x, x);
        if holds_key(r2, seen[k]) {
            let j = lemma_holds_choose(r2, seen[k]);
            lemma_correlator_order_antisymmetric(r2[j], x);
            assert(r2[j] == x);
            if j < i {
                assert(r1[j] == r2[j]);
                assert(correlator_order(r1[j], r1[i]) < 0);
            } else if j > i {
                assert(correlator_order(r2[i], r2[j]) < 0);
                lemma_correlator_order_transitive(x, r2[i], r2[j]);
            }
        } else {
            assert(all_below(r2, seen[k]));
            assert(correlator_order(r2[i], x) < 0);
            lemma_correlator_order_antisymmetric(r2[i], x);
        }
    }
}

proof fn lemma_smallest_keys_not_longer(
    r1: Seq<CorrelatorKeyView>,
    r2: Seq<CorrelatorKeyView>,
    seen: Seq<CorrelatorKeyView>,
    limit: nat,
)
    requires
        smallest_keys(r1, seen, limit),
        smallest_keys(r2, seen, limit),
        forall|j: int| 0 <= j < r1.len() && j < r2.len() ==> r1[j] == r2[j],
    ensures
        r1.len() >= r2.len(),
{
    if r1.len() < r2.len() {
        let n = r1.len() as int;
        let x = r2[n];
        let k = lemma_holds_choose(seen, x);
        lemma_correlator_order_antisymmetric(seen[k], x);
        assert(seen[k] == x);
        lemma_correlator_order_antisymmetric(x, x);
        if holds_key(r1, seen[k]) {
            let j = lemma_holds_choose(r1, seen[k]);
            lemma_correlator_order_antisymmetric(r1[j], x);
            assert(r2[j] == x);
            assert(correlator_order(r2[j], r2[n]) < 0);
        }
    }
}

/// A retained key whose resolution failed is listed among the missing ones.
proof fn lemma_missing_entry_present(keys: Seq<CorrelatorKeyView>, res: Seq<ResolvedValue>, n: nat, j: int)
    requires
        0 <= j < n,
        res[j] is Err,
    ensures
        missing_entries(keys, res, n).len() > 0,
    decreases n,
{
    if j < n - 1 {
        lemma_missing_entry_present(keys, res, (n - 1) as nat, j);
        match res[n - 1] {
            Err(_) => {},
            Ok(_) => {},
        }
    }
}

/// Evaluation is fail-closed: when one dependency of the equation lies
/// outside the bounds, the report is incomplete, whatever the values of the
/// other dependencies and the partial sum.
pub proof fn lemma_evaluation_fails_closed<E: CanonicalCorrelatorEvaluator>(
    r: ResidualReport<Rational>,
    evaluator: E,
    terms: Seq<ConstraintTerm<Rational>>,
    bounds: CorrelatorEvaluationBounds,
    i: int,
)
    requires
        exact_evaluation(r, evaluator, terms, bounds),
        0 <= i < dependencies(terms).len(),
        !within_bounds(bounds, dependencies(terms)[i]),
    ensures
        r.spec_outcome() is Incomplete,
{
    let deps = dependencies(terms);
    let (keys, w, res) = choose|keys: Seq<CorrelatorKeyView>, w: Option<CorrelatorKeyView>, res: Seq<ResolvedValue>| {
        &&& smallest_keys(keys, dependencies(terms), bounds.dependency_limit as nat)
        &&& omitted_witness(keys, dependencies(terms), w)
        &&& admissible_resolutions(res, keys, bounds)
        &&& forall|i: int| 0 <= i < keys.len() ==> #[trigger] expected_resolution(evaluator, bounds, keys[i], res[i])
        &&& evaluated_report(r, terms, keys, res, w, bounds.dependency_limit as nat)
    };
    let n = keys.len();
    let missing = missing_entries(keys, res, n) + witness_entry(w);
    if w is None {
        assert(holds_key(keys, deps[i]));
        let j = lemma_holds_choose(keys, deps[i]);
        lemma_correlator_order_antisymmetric(keys[j], deps[i]);
        assert(expected_resolution(evaluator, bounds, keys[j], res[j]));
        lemma_missing_entry_present(keys, res, n, j);
    }
    assert(missing.len() > 0);
}

/// The retained dependencies and the omitted witness are determined by the
/// dependency list and the limit: the `limit` smallest distinct keys in
/// increasing order, and the smallest key left out.
pub proof fn lemma_dependency_selection_is_unique(
    r1: Seq<CorrelatorKeyView>,
    w1: Option<CorrelatorKeyView>,
    r2: Seq<CorrelatorKeyView>,
    w2: Option<CorrelatorKeyView>,
    seen: Seq<CorrelatorKeyView>,
    limit: nat,
)
    requires
        smallest_keys(r1, seen, limit),
        smallest_keys(r2, seen, limit),
        omitted_witness(r1, seen, w1),
        omitted_witness(r2, seen, w2),
    ensures
        r1 == r2,
        w1 == w2,
{
    let n = if r1.len() < r2.len() { r1.len() } else { r2.len() };
    assert forall|i: int| 0 <= i < n implies r1[i] == r2[i] by {
        lemma_prefix_agrees(r1, r2, seen, limit, i);
    }
    lemma_smallest_keys_not_longer(r1, r2, seen, limit);
    lemma_smallest_keys_not_longer(r2, r1, seen, limit);
    assert(r1 =~= r2);
    if let (Some(x1), Some(x2)) = (w1, w2) {
        let k1 = lemma_holds_choose(seen, x1);
        let k2 = lemma_holds_choose(seen, x2);
        lemma_correlator_order_antisymmetric(seen[k1], x1);
        lemma_correlator_order_antisymmetric(seen[k2], x2);
        assert(!holds_key(r2, seen[k1]));
        assert(!holds_key(r1, seen[k2]));
        assert(correlator_order(x2, seen[k1]) <= 0);
        assert(correlator_order(x1, seen[k2]) <= 0);
        lemma_correlator_order_antisymmetric(x1, x2);
    }
}

proof fn lemma_prefix_agrees(
    r1: Seq<CorrelatorKeyView>,
    r2: Seq<CorrelatorKeyView>,
    seen: Seq<CorrelatorKeyView>,
    limit: nat,
    i: int,
)
    requires
        smallest_keys(r1, seen, limit),
        smallest_keys(r2, seen, limit),
        0 <= i < r1.len(),
        i < r2.len(),
    ensures
        r1[i] == r2[i],
    decreases i,
{
    assert forall|j: int| 0 <= j < i implies r1[j] == r2[j] by {
        lemma_prefix_agrees(r1, r2, seen, limit, j);
    }
    lemma_correlator_order_antisymmetric(r1[i], r2[i]);
    lemma_smallest_keys_agree_at(r1, r2, seen, limit, i);
    lemma_smallest_keys_agree_at(r2, r1, seen, limit, i);
}

} // verus!
