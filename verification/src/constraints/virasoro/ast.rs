//! The symbolic coefficient equations produced by the Virasoro generator:
//! descendant insertions, canonical time monomials, correlator keys, terms,
//! and the convention metadata that fixes every coefficient.

use vstd::prelude::*;
use vstd::relations::{sorted_by, total_ordering};
use vstd::seq_lib::lemma_sorted_unique;
use crate::foundation::theory::{curve_order, BasisId, CurveClass};
use crate::order::{int_order, lemma_lex_order_antisymmetric, Order};
use crate::text::string_from;

verus! {

/// A descendant insertion `tau_psi_power(class)`.
///
/// Ordering first by descendant power and then by the basis index gives
/// deterministic coefficient monomials and correlator keys.
#[derive(Debug, Clone, Copy, PartialEq, Eq, PartialOrd, Ord, Hash)]
pub struct Descendant {
    pub psi_power: usize,
    pub class: BasisId,
}

/// Canonical order of descendants: psi power first, then the basis index.
pub open spec fn descendant_lt(a: Descendant, b: Descendant) -> bool {
    a.psi_power < b.psi_power || (a.psi_power == b.psi_power && a.class.0 < b.class.0)
}

impl Descendant {
    pub fn new(psi_power: usize, class: BasisId) -> (d: Self)
        ensures
            d.psi_power == psi_power,
            d.class == class,
    {
        Self { psi_power, class }
    }
}

fn descendant_less(a: &Descendant, b: &Descendant) -> (lt: bool)
    ensures
        lt == descendant_lt(*a, *b),
{
    a.psi_power < b.psi_power || (a.psi_power == b.psi_power && a.class.0 < b.class.0)
}

fn descendant_equal(a: &Descendant, b: &Descendant) -> (eq: bool)
    ensures
        eq == (*a == *b),
{
    a.psi_power == b.psi_power && a.class.0 == b.class.0
}

/// Total multiplicity with which `d` occurs in a list of
/// `(descendant, multiplicity)` pairs.
pub open spec fn multiplicity(f: Seq<(Descendant, usize)>, d: Descendant) -> nat
    decreases f.len(),
{
    if f.len() == 0 {
        0
    } else {
        multiplicity(f.drop_last(), d) + (if f.last().0 == d { f.last().1 as nat } else { 0 })
    }
}

/// Number of occurrences of `d` in a list of descendants.
pub open spec fn occurrences(s: Seq<Descendant>, d: Descendant) -> nat
    decreases s.len(),
{
    if s.len() == 0 {
        0
    } else {
        occurrences(s.drop_last(), d) + (if s.last() == d { 1nat } else { 0 })
    }
}

/// Sum of all multiplicities.
pub open spec fn total_multiplicity(f: Seq<(Descendant, usize)>) -> nat
    decreases f.len(),
{
    if f.len() == 0 {
        0
    } else {
        total_multiplicity(f.drop_last()) + f.last().1 as nat
    }
}

/// Canonical factor list: strictly increasing descendants, positive
/// multiplicities.
pub open spec fn canonical_factors(f: Seq<(Descendant, usize)>) -> bool {
    &&& forall|i: int, j: int| 0 <= i < j < f.len() ==> descendant_lt(#[trigger] f[i].0, #[trigger] f[j].0)
    &&& forall|i: int| 0 <= i < f.len() ==> #[trigger] f[i].1 > 0
}

pub proof fn lemma_multiplicity_append(a: Seq<(Descendant, usize)>, b: Seq<(Descendant, usize)>, d: Descendant)
    ensures
        multiplicity(a + b, d) == multiplicity(a, d) + multiplicity(b, d),
    decreases b.len(),
{
    if b.len() == 0 {
        assert(a + b =~= a);
    } else {
        assert((a + b).drop_last() =~= a + b.drop_last());
        lemma_multiplicity_append(a, b.drop_last(), d);
    }
}

pub proof fn lemma_occurrences_append(a: Seq<Descendant>, b: Seq<Descendant>, d: Descendant)
    ensures
        occurrences(a + b, d) == occurrences(a, d) + occurrences(b, d),
    decreases b.len(),
{
    if b.len() == 0 {
        assert(a + b =~= a);
    } else {
        assert((a + b).drop_last() =~= a + b.drop_last());
        lemma_occurrences_append(a, b.drop_last(), d);
    }
}

pub proof fn lemma_total_multiplicity_append(a: Seq<(Descendant, usize)>, b: Seq<(Descendant, usize)>)
    ensures
        total_multiplicity(a + b) == total_multiplicity(a) + total_multiplicity(b),
    decreases b.len(),
{
    if b.len() == 0 {
        assert(a + b =~= a);
    } else {
        assert((a + b).drop_last() =~= a + b.drop_last());
        lemma_total_multiplicity_append(a, b.drop_last());
    }
}

pub proof fn lemma_multiplicity_singleton(e: (Descendant, usize), d: Descendant)
    ensures
        multiplicity(seq![e], d) == (if e.0 == d { e.1 as nat } else { 0 }),
        total_multiplicity(seq![e]) == e.1 as nat,
{
    assert(seq![e].drop_last() =~= Seq::<(Descendant, usize)>::empty());
    assert(multiplicity(Seq::<(Descendant, usize)>::empty(), d) == 0);
    assert(total_multiplicity(Seq::<(Descendant, usize)>::empty()) == 0);
}

/// A descendant absent from the keys has multiplicity zero.
pub proof fn lemma_multiplicity_absent(f: Seq<(Descendant, usize)>, d: Descendant)
    requires
        forall|i: int| 0 <= i < f.len() ==> #[trigger] f[i].0 != d,
    ensures
        multiplicity(f, d) == 0,
    decreases f.len(),
{
    if f.len() > 0 {
        lemma_multiplicity_absent(f.drop_last(), d);
    }
}

/// In a canonical list the multiplicity of a present key is its entry.
pub proof fn lemma_multiplicity_at(f: Seq<(Descendant, usize)>, i: int)
    requires
        canonical_factors(f),
        0 <= i < f.len(),
    ensures
        multiplicity(f, f[i].0) == f[i].1,
{
    let d = f[i].0;
    assert(f =~= f.take(i) + seq![f[i]] + f.skip(i + 1));
    lemma_multiplicity_singleton(f[i], d);
    assert forall|j: int| 0 <= j < f.take(i).len() implies #[trigger] f.take(i)[j].0 != d by {
        assert(f.take(i)[j] == f[j]);
        assert(descendant_lt(f[j].0, f[i].0));
    }
    lemma_multiplicity_append(f.take(i) + seq![f[i]], f.skip(i + 1), d);
    lemma_multiplicity_append(f.take(i), seq![f[i]], d);
    lemma_multiplicity_absent(f.take(i), d);
    assert forall|j: int| 0 <= j < f.skip(i + 1).len() implies #[trigger] f.skip(i + 1)[j].0 != d by {
        assert(f.skip(i + 1)[j] == f[i + 1 + j]);
    }
    lemma_multiplicity_absent(f.skip(i + 1), d);
}

/// A positive multiplicity means the key occurs.
pub proof fn lemma_multiplicity_positive_present(f: Seq<(Descendant, usize)>, d: Descendant)
    requires
        multiplicity(f, d) > 0,
    ensures
        exists|i: int| 0 <= i < f.len() && #[trigger] f[i].0 == d,
{
    if forall|i: int| 0 <= i < f.len() ==> #[trigger] f[i].0 != d {
        lemma_multiplicity_absent(f, d);
    }
}

/// Two canonical factor lists with the same multiplicities are identical:
/// a time monomial has a unique canonical representation.
pub proof fn lemma_canonical_factors_unique(f: Seq<(Descendant, usize)>, g: Seq<(Descendant, usize)>)
    requires
        canonical_factors(f),
        canonical_factors(g),
        forall|d: Descendant| multiplicity(f, d) == multiplicity(g, d),
    ensures
        f == g,
    decreases f.len() + g.len(),
{
    if f.len() == 0 && g.len() == 0 {
        assert(f =~= g);
        return;
    }
    if f.len() == 0 {
        lemma_multiplicity_at(g, g.len() - 1);
        assert(multiplicity(f, g.last().0) == 0);
        assert(false);
    }
    if g.len() == 0 {
        lemma_multiplicity_at(f, f.len() - 1);
        assert(multiplicity(g, f.last().0) == 0);
        assert(false);
    }
    let a = f.last().0;
    let b = g.last().0;
    lemma_multiplicity_at(f, f.len() - 1);
    lemma_multiplicity_at(g, g.len() - 1);
    lemma_multiplicity_positive_present(g, a);
    lemma_multiplicity_positive_present(f, b);
    let ia = choose|i: int| 0 <= i < g.len() && #[trigger] g[i].0 == a;
    let ib = choose|i: int| 0 <= i < f.len() && #[trigger] f[i].0 == b;
    if a != b {
        // a occurs in g at or before its end, so a <= b; symmetrically b <= a.
        assert(ia < g.len() - 1);
        assert(descendant_lt(g[ia].0, g[g.len() - 1].0));
        assert(ib < f.len() - 1);
        assert(descendant_lt(f[ib].0, f[f.len() - 1].0));
        assert(false);
    }
    assert(f.last() == g.last());
    let f2 = f.drop_last();
    let g2 = g.drop_last();
    assert forall|d: Descendant| multiplicity(f2, d) == multiplicity(g2, d) by {
        assert(multiplicity(f, d) == multiplicity(f2, d) + (if f.last().0 == d { f.last().1 as nat } else { 0 }));
        assert(multiplicity(g, d) == multiplicity(g2, d) + (if g.last().0 == d { g.last().1 as nat } else { 0 }));
    }
    lemma_canonical_factors_unique(f2, g2);
    assert(f =~= f2.push(f.last()));
    assert(g =~= g2.push(g.last()));
}

pub proof fn lemma_multiplicity_le_total(f: Seq<(Descendant, usize)>, d: Descendant)
    ensures
        multiplicity(f, d) <= total_multiplicity(f),
    decreases f.len(),
{
    if f.len() > 0 {
        lemma_multiplicity_le_total(f.drop_last(), d);
    }
}

/// Every multiplicity of a canonical list is one of its (bounded) entries.
pub proof fn lemma_canonical_multiplicity_bounded(f: Seq<(Descendant, usize)>, d: Descendant)
    requires
        canonical_factors(f),
    ensures
        multiplicity(f, d) <= usize::MAX,
{
    if exists|i: int| 0 <= i < f.len() && #[trigger] f[i].0 == d {
        let i = choose|i: int| 0 <= i < f.len() && #[trigger] f[i].0 == d;
        lemma_multiplicity_at(f, i);
    } else {
        lemma_multiplicity_absent(f, d);
    }
}

/// Adding `c` occurrences of `d` to a canonical list: position `pos` is the
/// first entry whose key is not below `d`.
proof fn lemma_insert_count(f: Seq<(Descendant, usize)>, pos: int, d: Descendant, c: usize)
    requires
        canonical_factors(f),
        c > 0,
        0 <= pos <= f.len(),
        forall|j: int| 0 <= j < pos ==> descendant_lt(#[trigger] f[j].0, d),
        pos < f.len() ==> !descendant_lt(f[pos].0, d),
    ensures
        pos < f.len() && f[pos].0 == d ==> multiplicity(f, d) == f[pos].1,
        pos < f.len() && f[pos].0 == d ==> f[pos].1 + c <= usize::MAX ==> ({
            let g = f.update(pos, (d, (f[pos].1 + c) as usize));
            &&& canonical_factors(g)
            &&& forall|x: Descendant| multiplicity(g, x) == multiplicity(f, x) + (if x == d { c as nat } else { 0 })
            &&& total_multiplicity(g) == total_multiplicity(f) + c
        }),
        !(pos < f.len() && f[pos].0 == d) ==> ({
            let g = f.insert(pos, (d, c));
            &&& canonical_factors(g)
            &&& forall|x: Descendant| multiplicity(g, x) == multiplicity(f, x) + (if x == d { c as nat } else { 0 })
            &&& total_multiplicity(g) == total_multiplicity(f) + c
        }),
{
    let left = f.take(pos);
    let right = f.skip(pos);
    assert(f =~= left + right);
    if pos < f.len() && f[pos].0 == d {
        lemma_multiplicity_at(f, pos);
        if f[pos].1 + c <= usize::MAX {
            let e = (d, (f[pos].1 + c) as usize);
            let g = f.update(pos, e);
            let rest = f.skip(pos + 1);
            assert(f =~= left + seq![f[pos]] + rest);
            assert(g =~= left + seq![e] + rest);
            assert forall|x: Descendant| multiplicity(g, x) == multiplicity(f, x) + (if x == d { c as nat } else { 0 }) by {
                lemma_multiplicity_append(left + seq![f[pos]], rest, x);
                lemma_multiplicity_append(left, seq![f[pos]], x);
                lemma_multiplicity_append(left + seq![e], rest, x);
                lemma_multiplicity_append(left, seq![e], x);
                lemma_multiplicity_singleton(f[pos], x);
                lemma_multiplicity_singleton(e, x);
            }
            lemma_total_multiplicity_append(left + seq![f[pos]], rest);
            lemma_total_multiplicity_append(left, seq![f[pos]]);
            lemma_total_multiplicity_append(left + seq![e], rest);
            lemma_total_multiplicity_append(left, seq![e]);
            lemma_multiplicity_singleton(f[pos], d);
            lemma_multiplicity_singleton(e, d);
            assert forall|i: int, j: int| 0 <= i < j < g.len() implies descendant_lt(#[trigger] g[i].0, #[trigger] g[j].0) by {
                assert(g[i].0 == f[i].0);
                assert(g[j].0 == f[j].0);
            }
        }
    } else {
        let e = (d, c);
        let g = f.insert(pos, e);
        assert(g =~= left + seq![e] + right);
        assert forall|x: Descendant| multiplicity(g, x) == multiplicity(f, x) + (if x == d { c as nat } else { 0 }) by {
            lemma_multiplicity_append(left + seq![e], right, x);
            lemma_multiplicity_append(left, seq![e], x);
            lemma_multiplicity_append(left, right, x);
            lemma_multiplicity_singleton(e, x);
        }
        lemma_total_multiplicity_append(left + seq![e], right);
        lemma_total_multiplicity_append(left, seq![e]);
        lemma_total_multiplicity_append(left, right);
        lemma_multiplicity_singleton(e, d);
        if pos < f.len() {
            assert(descendant_lt(d, f[pos].0));
        }
        assert forall|i: int, j: int| 0 <= i < j < g.len() implies descendant_lt(#[trigger] g[i].0, #[trigger] g[j].0) by {
            if j < pos {
                assert(g[i] == f[i] && g[j] == f[j]);
            } else if j == pos {
                assert(g[i] == f[i]);
            } else if i < pos {
                assert(g[i] == f[i] && g[j] == f[j - 1]);
                if j - 1 > pos {
                    assert(descendant_lt(f[pos].0, f[j - 1].0));
                }
            } else if i == pos {
                assert(g[j] == f[j - 1]);
                if j - 1 > pos {
                    assert(descendant_lt(f[pos].0, f[j - 1].0));
                }
            } else {
                assert(g[i] == f[i - 1] && g[j] == f[j - 1]);
            }
        }
    }
}

/// Add `count` occurrences of `d` to a canonical factor list.  Returns
/// `false`, leaving the list unchanged, exactly when the resulting
/// multiplicity would not fit in `usize`.
fn add_factor(factors: &mut Vec<(Descendant, usize)>, d: Descendant, count: usize) -> (added: bool)
    requires
        canonical_factors(old(factors)@),
        count > 0,
    ensures
        added == (multiplicity(old(factors)@, d) + count <= usize::MAX),
        added ==> canonical_factors(final(factors)@),
        added ==> forall|x: Descendant| multiplicity(final(factors)@, x) == multiplicity(old(factors)@, x) + (if x == d { count as nat } else { 0 }),
        added ==> total_multiplicity(final(factors)@) == total_multiplicity(old(factors)@) + count,
        !added ==> final(factors)@ == old(factors)@,
{
    let mut pos: usize = 0;
    while pos < factors.len() && descendant_less(&factors[pos].0, &d)
        invariant
            pos <= factors.len(),
            factors@ == old(factors)@,
            forall|j: int| 0 <= j < pos ==> descendant_lt(#[trigger] factors@[j].0, d),
        decreases factors.len() - pos,
    {
        pos += 1;
    }
    proof {
        lemma_insert_count(factors@, pos as int, d, count);
    }
    if pos < factors.len() && descendant_equal(&factors[pos].0, &d) {
        match factors[pos].1.checked_add(count) {
            Some(total) => {
                factors.set(pos, (d, total));
                true
            },
            None => false,
        }
    } else {
        proof {
            assert forall|j: int| 0 <= j < factors@.len() implies #[trigger] factors@[j].0 != d by {
                if j >= pos {
                    if j > pos {
                        assert(descendant_lt(factors@[pos as int].0, factors@[j].0));
                    }
                }
            }
            lemma_multiplicity_absent(factors@, d);
        }
        factors.insert(pos, (d, count));
        true
    }
}

/// A canonical monomial in descendant time variables.
///
/// Zero multiplicities are discarded.  Repeated factors are combined, so two
/// monomials constructed in different orders are equal.
#[derive(Debug, PartialEq, Eq, PartialOrd, Ord, Hash)]
pub struct TimeMonomial {
    factors: Vec<(Descendant, usize)>,
}

impl Clone for TimeMonomial {
    fn clone(&self) -> (c: Self)
        ensures
            c@ == self@,
    {
        let mut factors: Vec<(Descendant, usize)> = Vec::new();
        let mut i: usize = 0;
        while i < self.factors.len()
            invariant
                i <= self.factors@.len(),
                factors@ == self.factors@.take(i as int),
            decreases self.factors@.len() - i,
        {
            factors.push(self.factors[i]);
            proof {
                assert(self.factors@.take(i + 1) =~= self.factors@.take(i as int).push(self.factors@[i as int]));
            }
            i = i + 1;
        }
        proof {
            assert(self.factors@.take(self.factors@.len() as int) =~= self.factors@);
        }
        TimeMonomial { factors }
    }
}

impl View for TimeMonomial {
    type V = Seq<(Descendant, usize)>;

    closed spec fn view(&self) -> Seq<(Descendant, usize)> {
        self.factors@
    }
}

impl TimeMonomial {
    pub fn one() -> (m: Self)
        ensures
            canonical_factors(m@),
            m@ == Seq::<(Descendant, usize)>::empty(),
    {
        Self { factors: Vec::new() }
    }

    /// Construct a monomial from individual time variables: each distinct
    /// descendant gets the number of its occurrences as multiplicity.
    pub fn from_descendants(descendants: Vec<Descendant>) -> (m: Self)
        ensures
            canonical_factors(m@),
            forall|d: Descendant| multiplicity(m@, d) == occurrences(descendants@, d),
            total_multiplicity(m@) == descendants@.len(),
    {
        let mut factors: Vec<(Descendant, usize)> = Vec::new();
        let mut i: usize = 0;
        while i < descendants.len()
            invariant
                i <= descendants.len(),
                canonical_factors(factors@),
                forall|d: Descendant| multiplicity(factors@, d) == occurrences(descendants@.take(i as int), d),
                total_multiplicity(factors@) == i,
            decreases descendants.len() - i,
        {
            proof {
                lemma_multiplicity_le_total(factors@, descendants@[i as int]);
            }
            let added = add_factor(&mut factors, descendants[i], 1);
            assert(added);
            proof {
                assert(descendants@.take(i + 1).drop_last() =~= descendants@.take(i as int));
            }
            i += 1;
        }
        proof {
            assert(descendants@.take(descendants.len() as int) =~= descendants@);
        }
        Self { factors }
    }

    /// Construct a monomial from `(time variable, multiplicity)` pairs.
    ///
    /// A pair with multiplicity zero has no effect.  Multiplicity overflow is
    /// reported instead of silently changing the coefficient being extracted.
    pub fn try_from_factors(factors: Vec<(Descendant, usize)>) -> (result: Result<Self, &'static str>)
        ensures
            result is Ok <==> forall|d: Descendant| multiplicity(factors@, d) <= usize::MAX,
            result matches Ok(m) ==> canonical_factors(m@) && forall|d: Descendant|
                multiplicity(m@, d) == multiplicity(factors@, d),
            result matches Err(e) ==> e@ == "time-monomial multiplicity overflow"@,
    {
        let mut canonical: Vec<(Descendant, usize)> = Vec::new();
        let mut i: usize = 0;
        while i < factors.len()
            invariant
                i <= factors.len(),
                canonical_factors(canonical@),
                forall|d: Descendant| multiplicity(canonical@, d) == multiplicity(factors@.take(i as int), d),
            decreases factors.len() - i,
        {
            let (d, count) = factors[i];
            proof {
                assert(factors@.take(i + 1).drop_last() =~= factors@.take(i as int));
            }
            if count > 0 {
                if !add_factor(&mut canonical, d, count) {
                    proof {
                        assert(factors@ =~= factors@.take(i + 1) + factors@.skip(i + 1));
                        lemma_multiplicity_append(factors@.take(i + 1), factors@.skip(i + 1), d);
                        assert(multiplicity(factors@, d) > usize::MAX);
                    }
                    return Err("time-monomial multiplicity overflow");
                }
            }
            i += 1;
        }
        proof {
            assert(factors@.take(factors.len() as int) =~= factors@);
            assert forall|d: Descendant| multiplicity(factors@, d) <= usize::MAX by {
                lemma_canonical_multiplicity_bounded(canonical@, d);
            }
        }
        Ok(Self { factors: canonical })
    }

    /// The `(descendant, multiplicity)` factors in canonical order.
    pub fn factors(&self) -> (out: &[(Descendant, usize)])
        ensures
            out@ == self@,
    {
        self.factors.as_slice()
    }

    /// The number of markings (sum of multiplicities), when it fits.
    pub fn total_degree(&self) -> (total: Option<usize>)
        ensures
            total is Some <==> total_multiplicity(self@) <= usize::MAX,
            total matches Some(t) ==> t == total_multiplicity(self@),
    {
        let mut sum: usize = 0;
        let mut i: usize = 0;
        while i < self.factors.len()
            invariant
                i <= self@.len(),
                sum == total_multiplicity(self@.take(i as int)),
            decreases self@.len() - i,
        {
            proof {
                assert(self@.take(i + 1).drop_last() =~= self@.take(i as int));
            }
            match sum.checked_add(self.factors[i].1) {
                Some(next) => sum = next,
                None => {
                    proof {
                        assert(self@ =~= self@.take(i + 1) + self@.skip(i + 1));
                        lemma_total_multiplicity_append(self@.take(i + 1), self@.skip(i + 1));
                    }
                    return None;
                },
            }
            i += 1;
        }
        proof {
            assert(self@.take(self@.len() as int) =~= self@);
        }
        Some(sum)
    }

    pub fn is_one(&self) -> (one: bool)
        ensures
            one == (self@.len() == 0),
    {
        self.factors.len() == 0
    }
}

/// Time monomials are canonical: two well-formed monomials with the same
/// multiplicity for every descendant have the same factors, whatever order
/// they were built in.
pub proof fn lemma_time_monomial_canonical(a: TimeMonomial, b: TimeMonomial)
    requires
        canonical_factors(a@),
        canonical_factors(b@),
        forall|d: Descendant| multiplicity(a@, d) == multiplicity(b@, d),
    ensures
        a@ == b@,
{
    lemma_canonical_factors_unique(a@, b@);
}

/// Three-way order of descendants as a sign.
pub open spec fn descendant_order(a: Descendant, b: Descendant) -> int {
    if descendant_lt(a, b) { -1 } else if a == b { 0 } else { 1 }
}

/// Lexicographic order of insertion lists; a proper prefix is smaller.
pub open spec fn insertions_order(a: Seq<Descendant>, b: Seq<Descendant>) -> int
    decreases a.len(),
{
    if a.len() == 0 {
        if b.len() == 0 { 0 } else { -1 }
    } else if b.len() == 0 {
        1
    } else if a[0] != b[0] {
        descendant_order(a[0], b[0])
    } else {
        insertions_order(a.drop_first(), b.drop_first())
    }
}

pub proof fn lemma_insertions_order_antisymmetric(a: Seq<Descendant>, b: Seq<Descendant>)
    ensures
        insertions_order(a, b) == -insertions_order(b, a),
        insertions_order(a, b) == 0 <==> a == b,
    decreases a.len(),
{
    if a.len() == 0 && b.len() == 0 {
        assert(a =~= b);
    }
    if a.len() > 0 && b.len() > 0 && a[0] == b[0] {
        lemma_insertions_order_antisymmetric(a.drop_first(), b.drop_first());
        if a.drop_first() == b.drop_first() {
            assert forall|i: int| 0 <= i < a.len() implies a[i] == b[i] by {
                if i > 0 {
                    assert(a[i] == a.drop_first()[i - 1]);
                    assert(b[i] == b.drop_first()[i - 1]);
                }
            }
            assert(a =~= b);
        }
    }
}

pub proof fn lemma_insertions_order_transitive(a: Seq<Descendant>, b: Seq<Descendant>, c: Seq<Descendant>)
    requires
        insertions_order(a, b) < 0,
        insertions_order(b, c) < 0,
    ensures
        insertions_order(a, c) < 0,
    decreases a.len(),
{
    if a.len() > 0 && b.len() > 0 && c.len() > 0 && a[0] == b[0] && b[0] == c[0] {
        lemma_insertions_order_transitive(a.drop_first(), b.drop_first(), c.drop_first());
    }
}

/// Nondecreasing in the descendant order.
pub open spec fn sorted_insertions(s: Seq<Descendant>) -> bool {
    forall|i: int, j: int| 0 <= i < j < s.len() ==> !descendant_lt(#[trigger] s[j], #[trigger] s[i])
}

/// `a` is not above `b` in the canonical descendant order.
pub open spec fn descendant_le(a: Descendant, b: Descendant) -> bool {
    !descendant_lt(b, a)
}

/// The insertions `ins` arranged in canonical order.
pub open spec fn sorted_view(ins: Seq<Descendant>) -> Seq<Descendant> {
    choose|s: Seq<Descendant>| sorted_insertions(s) && s.to_multiset() == ins.to_multiset()
}

/// The canonical arrangement is the only sorted one with the same insertions.
pub proof fn lemma_sorted_view_unique(s: Seq<Descendant>, ins: Seq<Descendant>)
    requires
        sorted_insertions(s),
        s.to_multiset() == ins.to_multiset(),
    ensures
        s == sorted_view(ins),
{
    let c = sorted_view(ins);
    assert(sorted_insertions(c) && c.to_multiset() == ins.to_multiset());
    let leq = |a: Descendant, b: Descendant| descendant_le(a, b);
    assert(total_ordering(leq)) by {
        assert forall|a: Descendant, b: Descendant| #[trigger] leq(a, b) && #[trigger] leq(b, a) implies a == b by {
            assert(a.class.0 == b.class.0);
        }
    }
    assert(sorted_by(s, leq));
    assert(sorted_by(c, leq));
    lemma_sorted_unique(s, c, leq);
}

/// The key of the correlator of `insertions` in genus `genus` and degree `degree`.
pub open spec fn correlator_view(genus: usize, degree: Seq<i64>, insertions: Seq<Descendant>) -> CorrelatorKeyView {
    (genus, degree, sorted_view(insertions))
}

/// A canonical connected correlator requested from an evaluation backend.
///
/// The key assumes the even-cohomology scope, where insertions can be sorted
/// without Koszul signs.
#[derive(Debug, PartialEq, Eq, PartialOrd, Ord, Hash)]
pub struct CorrelatorKey {
    pub genus: usize,
    pub degree: CurveClass,
    insertions: Vec<Descendant>,
}

/// The abstract content of a correlator key: genus, curve class, and the
/// canonically ordered insertions.
pub type CorrelatorKeyView = (usize, Seq<i64>, Seq<Descendant>);

impl View for CorrelatorKey {
    type V = CorrelatorKeyView;

    closed spec fn view(&self) -> CorrelatorKeyView {
        (self.genus, self.degree@, self.insertions@)
    }
}

/// Canonical order of correlator keys: genus, then degree, then insertions.
pub open spec fn correlator_order(a: CorrelatorKeyView, b: CorrelatorKeyView) -> int {
    if a.0 != b.0 {
        int_order(a.0 as int, b.0 as int)
    } else if curve_order(a.1, b.1) != 0 {
        curve_order(a.1, b.1)
    } else {
        insertions_order(a.2, b.2)
    }
}

pub proof fn lemma_correlator_order_antisymmetric(a: CorrelatorKeyView, b: CorrelatorKeyView)
    ensures
        correlator_order(a, b) == -correlator_order(b, a),
        correlator_order(a, b) == 0 <==> a == b,
{
    lemma_lex_order_antisymmetric(crate::order::i64_ints(a.1), crate::order::i64_ints(b.1));
    lemma_insertions_order_antisymmetric(a.2, b.2);
    if crate::order::i64_ints(a.1) == crate::order::i64_ints(b.1) {
        assert forall|i: int| 0 <= i < a.1.len() implies a.1[i] == b.1[i] by {
            assert(crate::order::i64_ints(a.1)[i] == crate::order::i64_ints(b.1)[i]);
        }
        assert(a.1 =~= b.1);
    }
}

impl Clone for CorrelatorKey {
    fn clone(&self) -> (c: Self)
        ensures
            c@ == self@,
    {
        let mut insertions: Vec<Descendant> = Vec::new();
        let mut i: usize = 0;
        while i < self.insertions.len()
            invariant
                i <= self.insertions@.len(),
                insertions@ == self.insertions@.take(i as int),
            decreases self.insertions@.len() - i,
        {
            insertions.push(self.insertions[i]);
            proof {
                assert(self.insertions@.take(i + 1) =~= self.insertions@.take(i as int).push(self.insertions@[i as int]));
            }
            i = i + 1;
        }
        proof {
            assert(self.insertions@.take(self.insertions@.len() as int) =~= self.insertions@);
        }
        CorrelatorKey { genus: self.genus, degree: self.degree.clone(), insertions }
    }
}

/// The order of correlator keys is transitive.
pub proof fn lemma_correlator_order_transitive(a: CorrelatorKeyView, b: CorrelatorKeyView, c: CorrelatorKeyView)
    requires
        correlator_order(a, b) < 0,
        correlator_order(b, c) < 0,
    ensures
        correlator_order(a, c) < 0,
{
    let (x, y, z) = (crate::order::i64_ints(a.1), crate::order::i64_ints(b.1), crate::order::i64_ints(c.1));
    lemma_correlator_order_antisymmetric(a, b);
    lemma_correlator_order_antisymmetric(b, c);
    lemma_lex_order_antisymmetric(x, y);
    lemma_lex_order_antisymmetric(y, z);
    lemma_lex_order_antisymmetric(x, z);
    if a.0 == b.0 && b.0 == c.0 {
        if curve_order(a.1, b.1) < 0 && curve_order(b.1, c.1) < 0 {
            crate::order::lemma_lex_order_transitive(x, y, z);
        }
        if curve_order(a.1, b.1) == 0 && curve_order(b.1, c.1) == 0 {
            assert(x == y && y == z);
            lemma_insertions_order_transitive(a.2, b.2, c.2);
        }
        if curve_order(a.1, b.1) == 0 && curve_order(b.1, c.1) != 0 {
            assert(x == y);
        }
        if curve_order(a.1, b.1) != 0 && curve_order(b.1, c.1) == 0 {
            assert(y == z);
        }
    }
}

impl CorrelatorKey {
    /// The curve class of the key.
    pub closed spec fn spec_degree(&self) -> CurveClass {
        self.degree
    }

    pub proof fn lemma_spec_degree_view(&self)
        ensures
            self.spec_degree()@ == self@.1,
    {
    }

    /// Construct a key; the insertions are sorted into canonical order.
    pub fn new(genus: usize, degree: CurveClass, insertions: Vec<Descendant>) -> (key: Self)
        ensures
            key@.0 == genus,
            key@.1 == degree@,
            sorted_insertions(key@.2),
            key@.2.to_multiset() == insertions@.to_multiset(),
    {
        let mut sorted = insertions;
        let ghost initial = sorted@;
        if sorted.len() == 0 {
            return Self { genus, degree, insertions: sorted };
        }
        assert(sorted_insertions(sorted@.take(1)));
        let mut i: usize = 1;
        while i < sorted.len()
            invariant
                1 <= i,
                sorted@.len() == initial.len(),
                i <= sorted@.len() || sorted@.len() == 0,
                sorted_insertions(sorted@.take(i as int)),
                sorted@.to_multiset() == initial.to_multiset(),
            decreases sorted@.len() - i,
        {
            let x = sorted[i];
            let mut pos: usize = 0;
            while pos < i && !descendant_less(&x, &sorted[pos])
                invariant
                    pos <= i < sorted@.len(),
                    x == sorted@[i as int],
                    forall|j: int| 0 <= j < pos ==> !descendant_lt(x, #[trigger] sorted@[j]),
                decreases i - pos,
            {
                pos += 1;
            }
            let ghost before = sorted@;
            let removed = sorted.remove(i);
            sorted.insert(pos, removed);
            proof {
                broadcast use vstd::seq_lib::group_to_multiset_ensures;
                broadcast use vstd::multiset::group_multiset_axioms;
                assert(sorted@.to_multiset() =~= before.to_multiset());
                let p = before.take(i as int);
                let t = sorted@.take(i + 1);
                assert(t =~= p.insert(pos as int, x));
                if pos < i {
                    assert(descendant_lt(x, p[pos as int]));
                }
                assert forall|a: int, b: int| 0 <= a < b < t.len() implies !descendant_lt(#[trigger] t[b], #[trigger] t[a]) by {
                    if b < pos {
                        assert(t[a] == p[a] && t[b] == p[b]);
                    } else if b == pos {
                        assert(t[a] == p[a]);
                    } else if a < pos {
                        assert(t[a] == p[a] && t[b] == p[b - 1]);
                        if b - 1 > a {
                        }
                        // p[a] <= x: !(x < p[a]); p[b-1] >= p[pos] > x.
                        if b - 1 > pos {
                            assert(!descendant_lt(p[b - 1], p[pos as int]));
                        }
                    } else if a == pos {
                        assert(t[b] == p[b - 1]);
                        if b - 1 > pos {
                            assert(!descendant_lt(p[b - 1], p[pos as int]));
                        }
                    } else {
                        assert(t[a] == p[a - 1] && t[b] == p[b - 1]);
                    }
                }
            }
            i += 1;
        }
        proof {
            if sorted@.len() > 0 {
                assert(sorted@.take(sorted@.len() as int) =~= sorted@);
            } else {
                assert(sorted_insertions(sorted@));
            }
        }
        Self { genus, degree, insertions: sorted }
    }

    pub fn genus(&self) -> (g: usize)
        ensures
            g == self@.0,
    {
        self.genus
    }

    pub fn degree(&self) -> (d: &CurveClass)
        ensures
            *d == self.spec_degree(),
            d@ == self@.1,
    {
        &self.degree
    }

    pub fn insertions(&self) -> (out: &[Descendant])
        ensures
            out@ == self@.2,
    {
        self.insertions.as_slice()
    }

    /// Canonical three-way comparison.
    pub fn compare(&self, other: &Self) -> (o: Order)
        ensures
            o.sign() == correlator_order(self@, other@),
    {
        if self.genus < other.genus {
            return Order::Less;
        } else if self.genus > other.genus {
            return Order::Greater;
        }
        match self.degree.compare(&other.degree) {
            Order::Less => return Order::Less,
            Order::Greater => return Order::Greater,
            Order::Equal => {},
        }
        let a = &self.insertions;
        let b = &other.insertions;
        let mut i: usize = 0;
        assert(a@.skip(0) =~= a@);
        assert(b@.skip(0) =~= b@);
        while i < a.len() && i < b.len()
            invariant
                i <= a@.len(),
                i <= b@.len(),
                a@ == self@.2,
                b@ == other@.2,
                self@.0 == other@.0,
                curve_order(self@.1, other@.1) == 0,
                insertions_order(a@, b@) == insertions_order(a@.skip(i as int), b@.skip(i as int)),
            decreases a@.len() - i,
        {
            let ghost sa = a@.skip(i as int);
            let ghost sb = b@.skip(i as int);
            assert(sa[0] == a@[i as int]);
            assert(sb[0] == b@[i as int]);
            if descendant_less(&a[i], &b[i]) {
                assert(sa[0] != sb[0]);
                return Order::Less;
            } else if !descendant_equal(&a[i], &b[i]) {
                assert(descendant_order(sa[0], sb[0]) == 1);
                return Order::Greater;
            }
            assert(sa.drop_first() =~= a@.skip(i + 1));
            assert(sb.drop_first() =~= b@.skip(i + 1));
            i += 1;
        }
        if a.len() < b.len() {
            Order::Less
        } else if a.len() == b.len() {
            Order::Equal
        } else {
            Order::Greater
        }
    }
}

/// The finite genus/curve-class sector of a coefficient constraint.
#[derive(Debug, Clone, PartialEq, Eq, PartialOrd, Ord, Hash)]
pub struct ConstraintSector {
    pub genus: usize,
    pub degree: CurveClass,
}

impl ConstraintSector {
    pub fn new(genus: usize, degree: CurveClass) -> (s: Self)
        ensures
            s.genus == genus,
            s.degree == degree,
    {
        Self { genus, degree }
    }
}

#[derive(Debug, Clone, Copy, PartialEq, Eq, PartialOrd, Ord, Hash)]
pub struct VirasoroOperator {
    pub index: i32,
}

impl VirasoroOperator {
    pub fn new(index: i32) -> (o: Self)
        ensures
            o.index == index,
    {
        Self { index }
    }
}

/// Why a term occurs in the coefficient equation.
#[derive(Debug, Clone, PartialEq, Eq, PartialOrd, Ord, Hash)]
pub enum TermOrigin {
    LinearOperator,
    DilatonShift,
    GenusReduction,
    DegreeSplitting,
    UnstableCorrection,
    Other(String),
}

impl TermOrigin {
    pub open spec fn spec_label(&self) -> Seq<char> {
        match self {
            TermOrigin::LinearOperator => "linear operator"@,
            TermOrigin::DilatonShift => "dilaton shift"@,
            TermOrigin::GenusReduction => "genus reduction"@,
            TermOrigin::DegreeSplitting => "degree splitting"@,
            TermOrigin::UnstableCorrection => "unstable correction"@,
            TermOrigin::Other(label) => label@,
        }
    }

    pub fn label(&self) -> (out: &str)
        ensures
            out@ == self.spec_label(),
    {
        match self {
            TermOrigin::LinearOperator => "linear operator",
            TermOrigin::DilatonShift => "dilaton shift",
            TermOrigin::GenusReduction => "genus reduction",
            TermOrigin::DegreeSplitting => "degree splitting",
            TermOrigin::UnstableCorrection => "unstable correction",
            TermOrigin::Other(label) => label.as_str(),
        }
    }
}

/// A single-correlator contribution.  Genus-reduction terms are linear after
/// coefficient extraction and are represented by this same type.
#[derive(Debug, Clone, PartialEq, Eq)]
pub struct LinearTerm<C> {
    pub coefficient: C,
    pub correlator: CorrelatorKey,
    pub origin: TermOrigin,
}

impl<C> LinearTerm<C> {
    pub fn new(coefficient: C, correlator: CorrelatorKey, origin: TermOrigin) -> (t: Self)
        ensures
            t.coefficient == coefficient,
            t.correlator == correlator,
            t.origin == origin,
    {
        Self { coefficient, correlator, origin }
    }
}

/// A product of two connected correlators arising from the nonlinear form of
/// a Virasoro equation for the connected potential.
#[derive(Debug, Clone, PartialEq, Eq)]
pub struct QuadraticTerm<C> {
    pub coefficient: C,
    pub left: CorrelatorKey,
    pub right: CorrelatorKey,
    pub origin: TermOrigin,
}

impl<C> QuadraticTerm<C> {
    /// Construct a canonical product in the even-state-space convention: the
    /// two factors are ordered so that `left` is not above `right`.
    pub fn new(coefficient: C, left: CorrelatorKey, right: CorrelatorKey, origin: TermOrigin) -> (t: Self)
        ensures
            t.coefficient == coefficient,
            t.origin == origin,
            correlator_order(right@, left@) < 0 ==> t.left == right && t.right == left,
            correlator_order(right@, left@) >= 0 ==> t.left == left && t.right == right,
            correlator_order(t.left@, t.right@) <= 0,
    {
        proof {
            lemma_correlator_order_antisymmetric(left@, right@);
        }
        match right.compare(&left) {
            Order::Less => Self { coefficient, left: right, right: left, origin },
            _ => Self { coefficient, left, right, origin },
        }
    }
}

#[derive(Debug, Clone, PartialEq, Eq)]
pub enum ConstraintTerm<C> {
    Constant { coefficient: C, origin: TermOrigin },
    Linear(LinearTerm<C>),
    Quadratic(QuadraticTerm<C>),
}

impl<C> ConstraintTerm<C> {
    pub open spec fn spec_origin(&self) -> TermOrigin {
        match self {
            ConstraintTerm::Constant { origin, .. } => *origin,
            ConstraintTerm::Linear(term) => term.origin,
            ConstraintTerm::Quadratic(term) => term.origin,
        }
    }

    pub fn origin(&self) -> (o: &TermOrigin)
        ensures
            *o == self.spec_origin(),
    {
        match self {
            ConstraintTerm::Constant { origin, .. } => origin,
            ConstraintTerm::Linear(term) => &term.origin,
            ConstraintTerm::Quadratic(term) => &term.origin,
        }
    }

    /// Number of correlators the term depends on.
    pub open spec fn spec_correlator_count(&self) -> nat {
        match self {
            ConstraintTerm::Constant { .. } => 0,
            ConstraintTerm::Linear(_) => 1,
            ConstraintTerm::Quadratic(_) => 2,
        }
    }
}

/// Text and TeX names for the target theory.
#[derive(Debug, Clone, PartialEq, Eq, PartialOrd, Ord, Hash)]
pub struct TheoryLabel {
    pub text: String,
    pub tex: String,
}

impl TheoryLabel {
    pub fn new(text: &str, tex: &str) -> (l: Self)
        ensures
            l.text@ == text@,
            l.tex@ == tex@,
    {
        Self { text: string_from(text), tex: string_from(tex) }
    }
}

#[derive(Debug, Clone, Copy, PartialEq, Eq, PartialOrd, Ord, Hash)]
pub enum PotentialConvention {
    ConnectedDescendant,
    TotalDescendantPartitionFunction,
    /// Connected-correlator expansion of `Z^{-1} L_k Z = 0`.
    LogarithmicPartitionFunctionEquation,
}

impl PotentialConvention {
    pub open spec fn spec_label(self) -> Seq<char> {
        match self {
            PotentialConvention::ConnectedDescendant => "connected descendant potential"@,
            PotentialConvention::TotalDescendantPartitionFunction => "total descendant partition function"@,
            PotentialConvention::LogarithmicPartitionFunctionEquation => "connected-correlator expansion of Z^{-1} L_k Z"@,
        }
    }

    pub fn label(self) -> (out: &'static str)
        ensures
            out@ == self.spec_label(),
    {
        match self {
            PotentialConvention::ConnectedDescendant => "connected descendant potential",
            PotentialConvention::TotalDescendantPartitionFunction => "total descendant partition function",
            PotentialConvention::LogarithmicPartitionFunctionEquation => "connected-correlator expansion of Z^{-1} L_k Z",
        }
    }
}

#[derive(Debug, Clone, Copy, PartialEq, Eq, PartialOrd, Ord, Hash)]
pub enum TimeNormalization {
    /// Coefficients use the usual `1/n!` exponential-generating normalization.
    Exponential,
    /// Markings are ordered and no `1/n!` is built into the potential.
    OrderedMarkings,
}

impl TimeNormalization {
    pub open spec fn spec_label(self) -> Seq<char> {
        match self {
            TimeNormalization::Exponential => "exponential generating series (1/n!)"@,
            TimeNormalization::OrderedMarkings => "ordered markings (no 1/n!)"@,
        }
    }

    pub fn label(self) -> (out: &'static str)
        ensures
            out@ == self.spec_label(),
    {
        match self {
            TimeNormalization::Exponential => "exponential generating series (1/n!)",
            TimeNormalization::OrderedMarkings => "ordered markings (no 1/n!)",
        }
    }
}

#[derive(Debug, Clone, PartialEq, Eq, PartialOrd, Ord, Hash)]
pub enum DilatonShift {
    NoShift,
    /// The standard shift `q_k^a = t_k^a - delta_{k,1} delta_{a,unit}`.
    StandardUnit,
    Explicit(String),
}

impl DilatonShift {
    pub open spec fn spec_label(&self) -> Seq<char> {
        match self {
            DilatonShift::NoShift => "none"@,
            DilatonShift::StandardUnit => "q_k^a = t_k^a - delta_(k,1) delta_(a,unit)"@,
            DilatonShift::Explicit(description) => description@,
        }
    }

    pub fn label(&self) -> (out: &str)
        ensures
            out@ == self.spec_label(),
    {
        match self {
            DilatonShift::NoShift => "none",
            DilatonShift::StandardUnit => "q_k^a = t_k^a - delta_(k,1) delta_(a,unit)",
            DilatonShift::Explicit(description) => description.as_str(),
        }
    }
}

#[derive(Debug, Clone, PartialEq, Eq, PartialOrd, Ord, Hash)]
pub enum CohomologicalGrading {
    Complex,
    Real,
    Explicit(String),
}

impl CohomologicalGrading {
    pub open spec fn spec_label(&self) -> Seq<char> {
        match self {
            CohomologicalGrading::Complex => "complex cohomological degree"@,
            CohomologicalGrading::Real => "real cohomological degree"@,
            CohomologicalGrading::Explicit(description) => description@,
        }
    }

    pub fn label(&self) -> (out: &str)
        ensures
            out@ == self.spec_label(),
    {
        match self {
            CohomologicalGrading::Complex => "complex cohomological degree",
            CohomologicalGrading::Real => "real cohomological degree",
            CohomologicalGrading::Explicit(description) => description.as_str(),
        }
    }
}

#[derive(Debug, Clone, PartialEq, Eq, PartialOrd, Ord, Hash)]
pub enum UnstableConvention {
    Excluded,
    IncludedByStandardExtension,
    Explicit(String),
}

impl UnstableConvention {
    pub open spec fn spec_label(&self) -> Seq<char> {
        match self {
            UnstableConvention::Excluded => "unstable correlators excluded"@,
            UnstableConvention::IncludedByStandardExtension => "standard unstable extension included"@,
            UnstableConvention::Explicit(description) => description@,
        }
    }

    pub fn label(&self) -> (out: &str)
        ensures
            out@ == self.spec_label(),
    {
        match self {
            UnstableConvention::Excluded => "unstable correlators excluded",
            UnstableConvention::IncludedByStandardExtension => "standard unstable extension included",
            UnstableConvention::Explicit(description) => description.as_str(),
        }
    }
}

#[derive(Debug, Clone, Copy, PartialEq, Eq, PartialOrd, Ord, Hash)]
pub enum StateSpaceConvention {
    EvenOnly,
    SuperWithKoszulSigns,
}

impl StateSpaceConvention {
    pub open spec fn spec_label(self) -> Seq<char> {
        match self {
            StateSpaceConvention::EvenOnly => "even state space"@,
            StateSpaceConvention::SuperWithKoszulSigns => "super state space with Koszul signs"@,
        }
    }

    pub fn label(self) -> (out: &'static str)
        ensures
            out@ == self.spec_label(),
    {
        match self {
            StateSpaceConvention::EvenOnly => "even state space",
            StateSpaceConvention::SuperWithKoszulSigns => "super state space with Koszul signs",
        }
    }
}

/// All choices that can change the coefficient of a displayed constraint.
#[derive(Debug, Clone, PartialEq, Eq)]
pub struct VirasoroConventions {
    pub potential: PotentialConvention,
    pub time_normalization: TimeNormalization,
    pub dilaton_shift: DilatonShift,
    pub grading: CohomologicalGrading,
    pub unstable: UnstableConvention,
    pub state_space: StateSpaceConvention,
    pub novikov_variables: Vec<String>,
    pub equivariant_parameters: Vec<String>,
    pub notes: Vec<String>,
}

impl VirasoroConventions {
    /// Connected descendant potential, exponential times, the standard unit
    /// dilaton shift, complex grading, no unstable terms, even state space,
    /// one Novikov variable `q`.
    pub fn connected_even() -> (c: Self)
        ensures
            c.potential == PotentialConvention::ConnectedDescendant,
            c.time_normalization == TimeNormalization::Exponential,
            c.dilaton_shift == DilatonShift::StandardUnit,
            c.grading == CohomologicalGrading::Complex,
            c.unstable == UnstableConvention::Excluded,
            c.state_space == StateSpaceConvention::EvenOnly,
            c.novikov_variables@.len() == 1,
            c.novikov_variables@[0]@ == "q"@,
            c.equivariant_parameters@.len() == 0,
            c.notes@.len() == 0,
    {
        let mut novikov_variables: Vec<String> = Vec::new();
        novikov_variables.push(string_from("q"));
        Self {
            potential: PotentialConvention::ConnectedDescendant,
            time_normalization: TimeNormalization::Exponential,
            dilaton_shift: DilatonShift::StandardUnit,
            grading: CohomologicalGrading::Complex,
            unstable: UnstableConvention::Excluded,
            state_space: StateSpaceConvention::EvenOnly,
            novikov_variables,
            equivariant_parameters: Vec::new(),
            notes: Vec::new(),
        }
    }
}

/// Bibliographic and derivational provenance for an equation.
#[derive(Debug, Clone, PartialEq, Eq)]
pub struct FormulaSource {
    pub title: String,
    pub citation: Option<String>,
    pub locator: Option<String>,
    pub derivation: Option<String>,
    pub notes: Vec<String>,
}

impl FormulaSource {
    pub fn new(title: &str) -> (s: Self)
        ensures
            s.title@ == title@,
            s.citation is None,
            s.locator is None,
            s.derivation is None,
            s.notes@.len() == 0,
    {
        Self {
            title: string_from(title),
            citation: None,
            locator: None,
            derivation: None,
            notes: Vec::new(),
        }
    }
}

/// Number of correlators the terms depend on in total.
pub open spec fn terms_correlator_count<C>(terms: Seq<ConstraintTerm<C>>) -> nat
    decreases terms.len(),
{
    if terms.len() == 0 {
        0
    } else {
        terms_correlator_count(terms.drop_last()) + terms.last().spec_correlator_count()
    }
}

/// A finite coefficient equation generated from `L_m`.
///
/// Coefficients are generic: ordinary and equivariant theories can use
/// different exact coefficient rings without changing this representation.
#[derive(Debug, Clone, PartialEq, Eq)]
pub struct VirasoroConstraint<C> {
    pub theory: TheoryLabel,
    /// Exact canonical-theory identity checked again before evaluation.
    pub theory_fingerprint: String,
    pub operator: VirasoroOperator,
    pub sector: ConstraintSector,
    pub time_coefficient: TimeMonomial,
    pub terms: Vec<ConstraintTerm<C>>,
    pub conventions: VirasoroConventions,
    pub source: FormulaSource,
}

impl<C> VirasoroConstraint<C> {
    /// Number of correlator factors over all terms (constants count zero,
    /// linear terms one, quadratic terms two).
    pub fn correlator_count(&self) -> (count: usize)
        requires
            2 * self.terms@.len() <= usize::MAX,
        ensures
            count == terms_correlator_count(self.terms@),
    {
        let mut count: usize = 0;
        let mut i: usize = 0;
        while i < self.terms.len()
            invariant
                i <= self.terms@.len(),
                2 * self.terms@.len() <= usize::MAX,
                count == terms_correlator_count(self.terms@.take(i as int)),
                count <= 2 * i,
            decreases self.terms@.len() - i,
        {
            proof {
                assert(self.terms@.take(i + 1).drop_last() =~= self.terms@.take(i as int));
            }
            let contribution: usize = match &self.terms[i] {
                ConstraintTerm::Constant { .. } => 0,
                ConstraintTerm::Linear(_) => 1,
                ConstraintTerm::Quadratic(_) => 2,
            };
            count = count + contribution;
            i += 1;
        }
        proof {
            assert(self.terms@.take(self.terms@.len() as int) =~= self.terms@);
        }
        count
    }
}

} // verus!
