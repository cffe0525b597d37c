//! Finite formula skeletons for a fixed stable `(g,m)`: the truncation
//! orders a request needs.

use vstd::prelude::*;
use crate::error::GwError;
use crate::constraints::virasoro::qrr::factorial;
use crate::text::{decimal, join_seqs, push_str, push_string, push_usize, string_from};

verus! {

/// A request for the Givental graph formula of genus `genus` with `markings`
/// markings and `colors` canonical colors.
#[derive(Debug, Clone, PartialEq, Eq)]
pub struct FormulaRequest {
    pub genus: usize,
    pub markings: usize,
    pub colors: usize,
    pub max_descendant_power: usize,
    pub q_degree: Option<usize>,
    pub include_glossary: bool,
}

/// `D = 3g - 3 + m`, the dimension of the moduli space of stable curves.
pub open spec fn stable_dimension(genus: nat, markings: nat) -> int {
    3 * genus + markings - 3
}

/// Whether `D` is not negative and `3g + m` fits in `usize`, so that every
/// truncation order of the request is a `usize`.
pub open spec fn orders_defined(r: FormulaRequest) -> bool {
    3 <= 3 * r.genus + r.markings <= usize::MAX
}

impl FormulaRequest {
    /// A request with no descendants, no fixed `q`-degree and the glossary.
    pub fn new(genus: usize, markings: usize, colors: usize) -> (r: Self)
        ensures
            r.genus == genus,
            r.markings == markings,
            r.colors == colors,
            r.max_descendant_power == 0,
            r.q_degree is None,
            r.include_glossary,
    {
        Self { genus, markings, colors, max_descendant_power: 0, q_degree: None, include_glossary: true }
    }

    /// `D = 3g - 3 + m`.
    pub fn graph_dimension(&self) -> (d: usize)
        requires
            orders_defined(*self),
        ensures
            d == stable_dimension(self.genus as nat, self.markings as nat),
    {
        3 * self.genus + self.markings - 3
    }

    /// `R^{-1}` is needed through `z^{D+1}`.
    pub fn inverse_r_order(&self) -> (o: usize)
        requires
            orders_defined(*self),
        ensures
            o == stable_dimension(self.genus as nat, self.markings as nat) + 1,
    {
        self.graph_dimension() + 1
    }

    /// Edge psi powers are materialized up to `D`.
    pub fn edge_power_max(&self) -> (o: usize)
        requires
            orders_defined(*self),
        ensures
            o == stable_dimension(self.genus as nat, self.markings as nat),
    {
        self.graph_dimension()
    }

    /// Translation insertions can carry psi powers up to `D + 1`.
    pub fn translation_power_max(&self) -> (o: usize)
        requires
            orders_defined(*self),
        ensures
            o == stable_dimension(self.genus as nat, self.markings as nat) + 1,
    {
        self.graph_dimension() + 1
    }

    /// `S` is needed through the descendant-power bound `K`.
    pub fn descendant_s_order(&self) -> (o: usize)
        ensures
            o == self.max_descendant_power,
    {
        self.max_descendant_power
    }

    /// One `z`-truncation `max(D + 1, K)` serves the whole skeleton.
    pub fn z_order(&self) -> (o: usize)
        requires
            orders_defined(*self),
        ensures
            o == if stable_dimension(self.genus as nat, self.markings as nat) + 1
                >= self.max_descendant_power {
                stable_dimension(self.genus as nat, self.markings as nat) + 1
            } else {
                self.max_descendant_power as int
            },
    {
        let inverse = self.inverse_r_order();
        let descendant = self.descendant_s_order();
        if inverse >= descendant {
            inverse
        } else {
            descendant
        }
    }

    /// A skeleton needs at least one canonical color and a stable `(g,m)`.
    pub fn validate(&self) -> (result: Result<(), GwError>)
        ensures
            self.colors == 0 ==> (result matches Err(GwError::ParseError(m))
                && m@ == "formula skeleton needs at least one canonical color"@),
            self.colors > 0 && 2 * self.genus + self.markings <= 2 ==> (result matches Err(
                GwError::UnsupportedInvariant(m),
            ) && m@ == "formula skeleton is implemented for stable (g,m) ranges only"@),
            self.colors > 0 && 2 * self.genus + self.markings > 2 ==> result is Ok,
    {
        if self.colors == 0 {
            return Err(GwError::ParseError(string_from("formula skeleton needs at least one canonical color")));
        }
        if self.genus <= 1 && self.markings <= 2 - 2 * self.genus {
            return Err(
                GwError::UnsupportedInvariant(
                    string_from("formula skeleton is implemented for stable (g,m) ranges only"),
                ),
            );
        }
        Ok(())
    }
}


/// The partitions of `remaining` into parts of distinct sizes at least
/// `next`, each written as (part size, multiplicity) pairs with increasing
/// part sizes; listed by first part size, then by its multiplicity.
pub open spec fn partitions_from(next: nat, remaining: nat) -> Seq<Seq<(nat, nat)>>
    decreases remaining, 2nat, 0int,
{
    if remaining == 0 {
        seq![Seq::<(nat, nat)>::empty()]
    } else {
        partitions_by_part(next, remaining)
    }
}

/// The partitions of `remaining` whose smallest part is at least `part`.
pub open spec fn partitions_by_part(part: nat, remaining: nat) -> Seq<Seq<(nat, nat)>>
    decreases remaining, 1nat, remaining + 1 - part,
{
    if part == 0 || part > remaining {
        Seq::empty()
    } else {
        partitions_with(part, 1, remaining) + partitions_by_part(part + 1, remaining)
    }
}

/// The partitions of `remaining` whose smallest part is `part`, taken with
/// multiplicity at least `multiplicity`.
pub open spec fn partitions_with(part: nat, multiplicity: nat, remaining: nat) -> Seq<Seq<(nat, nat)>>
    decreases remaining, 0nat, remaining + 1 - multiplicity,
{
    if part == 0 || multiplicity == 0 || part * multiplicity > remaining {
        Seq::empty()
    } else {
        proof {
            assert(part * multiplicity >= multiplicity) by (nonlinear_arith)
                requires
                    part >= 1,
                    multiplicity >= 1,
            ;
        }
        partitions_from(part + 1, (remaining - part * multiplicity) as nat).map_values(
            |p: Seq<(nat, nat)>| seq![(part, multiplicity)] + p,
        ) + partitions_with(part, multiplicity + 1, remaining)
    }
}

pub open spec fn pair_views(v: Seq<(usize, usize)>) -> Seq<(nat, nat)> {
    v.map_values(|x: (usize, usize)| (x.0 as nat, x.1 as nat))
}

/// `out` gained, after `base` entries, the partitions `parts` each prefixed
/// by `prefix`.
pub open spec fn appended_partitions(
    out: Seq<Vec<(usize, usize)>>,
    base: Seq<Vec<(usize, usize)>>,
    prefix: Seq<(nat, nat)>,
    parts: Seq<Seq<(nat, nat)>>,
) -> bool {
    &&& out.len() == base.len() + parts.len()
    &&& forall|j: int| 0 <= j < base.len() ==> out[j] == base[j]
    &&& forall|j: int| 0 <= j < parts.len() ==> pair_views((#[trigger] out[base.len() + j])@) == prefix + parts[j]
}

fn collect_partitions(
    next: usize,
    remaining: usize,
    current: &mut Vec<(usize, usize)>,
    out: &mut Vec<Vec<(usize, usize)>>,
)
    requires
        next >= 1,
        remaining < usize::MAX,
    ensures
        final(current)@ == old(current)@,
        appended_partitions(final(out)@, old(out)@, pair_views(old(current)@), partitions_from(next as nat, remaining as nat)),
    decreases remaining,
{
    let ghost start_out = out@;
    let ghost prefix = pair_views(current@);
    if remaining == 0 {
        let mut copy: Vec<(usize, usize)> = Vec::new();
        let mut i: usize = 0;
        while i < current.len()
            invariant
                i <= current@.len(),
                copy@ == current@.take(i as int),
            decreases current@.len() - i,
        {
            copy.push(current[i]);
            proof {
                assert(current@.take(i + 1) =~= current@.take(i as int).push(current@[i as int]));
            }
            i = i + 1;
        }
        proof {
            assert(current@.take(current@.len() as int) =~= current@);
        }
        out.push(copy);
        proof {
            let parts = partitions_from(next as nat, 0);
            assert(prefix + parts[0] =~= prefix);
            assert(out@[start_out.len() as int] == out@.last());
        }
        return;
    }
    let ghost mut done: Seq<Seq<(nat, nat)>> = Seq::empty();
    let mut excess: usize = next;
    while excess <= remaining
        invariant
            next >= 1,
            next <= excess,
            0 < remaining < usize::MAX,
            current@ == old(current)@,
            start_out == old(out)@,
            prefix == pair_views(current@),
            partitions_from(next as nat, remaining as nat) == done + partitions_by_part(excess as nat, remaining as nat),
            appended_partitions(out@, start_out, prefix, done),
        decreases remaining + 1 - excess,
    {
        let max_multiplicity = remaining / excess;
        let ghost mut done_here: Seq<Seq<(nat, nat)>> = Seq::empty();
        let ghost level_start = out@;
        proof {
            assert(partitions_by_part(excess as nat, remaining as nat)
                == partitions_with(excess as nat, 1, remaining as nat) + partitions_by_part(excess as nat + 1, remaining as nat));
        }
        let mut multiplicity: usize = 1;
        while multiplicity <= max_multiplicity
            invariant
                1 <= excess <= remaining,
                0 < remaining < usize::MAX,
                1 <= multiplicity,
                max_multiplicity == remaining / excess,
                current@ == old(current)@,
                prefix == pair_views(current@),
                partitions_with(excess as nat, 1, remaining as nat)
                    == done_here + partitions_with(excess as nat, multiplicity as nat, remaining as nat),
                appended_partitions(out@, level_start, prefix, done_here),
            decreases max_multiplicity + 1 - multiplicity,
        {
            proof {
                assert(excess * multiplicity <= remaining) by (nonlinear_arith)
                    requires
                        multiplicity <= remaining / excess,
                        excess >= 1,
                ;
                assert(excess * multiplicity >= 1) by (nonlinear_arith)
                    requires
                        multiplicity >= 1,
                        excess >= 1,
                ;
            }
            let used = excess * multiplicity;
            let ghost before = out@;
            let ghost sub = partitions_from(excess as nat + 1, (remaining - used) as nat);
            let ghost head = sub.map_values(|p: Seq<(nat, nat)>| seq![(excess as nat, multiplicity as nat)] + p);
            proof {
                assert(partitions_with(excess as nat, multiplicity as nat, remaining as nat)
                    == head + partitions_with(excess as nat, multiplicity as nat + 1, remaining as nat));
            }
            current.push((excess, multiplicity));
            collect_partitions(excess + 1, remaining - used, current, out);
            let _ = current.pop();
            proof {
                assert(current@ =~= old(current)@);
                let now = done_here + head;
                assert forall|j: int| 0 <= j < level_start.len() implies out@[j] == level_start[j] by {
                    assert(out@[j] == before[j]);
                }
                assert forall|j: int| 0 <= j < now.len() implies pair_views((#[trigger] out@[level_start.len() + j])@) == prefix + now[j] by {
                    if j < done_here.len() {
                        assert(out@[level_start.len() + j] == before[level_start.len() + j]);
                        assert(now[j] == done_here[j]);
                    } else {
                        let jj = j - done_here.len();
                        assert(now[j] == head[jj]);
                        assert(pair_views(current@.push((excess, multiplicity))) =~= prefix.push((excess as nat, multiplicity as nat)));
                        assert(prefix.push((excess as nat, multiplicity as nat)) + sub[jj] =~= prefix + head[jj]);
                        assert(out@[level_start.len() + j] == out@[before.len() + jj]);
                    }
                }
                assert(partitions_with(excess as nat, 1, remaining as nat)
                    =~= now + partitions_with(excess as nat, multiplicity as nat + 1, remaining as nat));
                done_here = now;
            }
            multiplicity = multiplicity + 1;
        }
        proof {
            assert((multiplicity as nat) * (excess as nat) > remaining) by (nonlinear_arith)
                requires
                    multiplicity > remaining / excess,
                    excess >= 1,
            ;
            assert(excess * multiplicity == multiplicity * excess) by (nonlinear_arith);
            assert(partitions_with(excess as nat, multiplicity as nat, remaining as nat) =~= Seq::<Seq<(nat, nat)>>::empty());
            assert(done_here =~= partitions_with(excess as nat, 1, remaining as nat));
            let now = done + done_here;
            assert forall|j: int| 0 <= j < start_out.len() implies out@[j] == start_out[j] by {
                assert(out@[j] == level_start[j]);
            }
            assert forall|j: int| 0 <= j < now.len() implies pair_views((#[trigger] out@[start_out.len() + j])@) == prefix + now[j] by {
                if j < done.len() {
                    assert(out@[start_out.len() + j] == level_start[start_out.len() + j]);
                    assert(now[j] == done[j]);
                } else {
                    let jj = j - done.len();
                    assert(now[j] == done_here[jj]);
                    assert(out@[start_out.len() + j] == out@[level_start.len() + jj]);
                }
            }
            assert(partitions_from(next as nat, remaining as nat) =~= now + partitions_by_part(excess as nat + 1, remaining as nat));
            done = now;
        }
        excess = excess + 1;
    }
    proof {
        assert(partitions_by_part(excess as nat, remaining as nat) =~= Seq::<Seq<(nat, nat)>>::empty());
        assert(done =~= partitions_from(next as nat, remaining as nat));
    }
}

/// The partitions of `total` into parts with multiplicities, as (part size,
/// multiplicity) pairs with increasing part sizes.
pub fn translation_partitions(total: usize) -> (out: Vec<Vec<(usize, usize)>>)
    requires
        total < usize::MAX,
    ensures
        out@.len() == partitions_from(1, total as nat).len(),
        forall|j: int| 0 <= j < out@.len() ==> pair_views((#[trigger] out@[j])@) == partitions_from(1, total as nat)[j],
{
    let mut out: Vec<Vec<(usize, usize)>> = Vec::new();
    let mut current: Vec<(usize, usize)> = Vec::new();
    collect_partitions(1, total, &mut current, &mut out);
    proof {
        assert forall|j: int| 0 <= j < out@.len() implies pair_views((#[trigger] out@[j])@) == partitions_from(1, total as nat)[j] by {
            assert(pair_views(Seq::<(usize, usize)>::empty()) + partitions_from(1, total as nat)[j] =~= partitions_from(1, total as nat)[j]);
            assert(out@[j] == out@[0 + j]);
        }
    }
    out
}


/// `base^exponent` as printed: `1`, the base itself, or `(base)^exponent`.
pub open spec fn powered_text(base: Seq<char>, exponent: nat) -> Seq<char> {
    if exponent == 0 {
        "1"@
    } else if exponent == 1 {
        base
    } else {
        "("@ + base + ")^"@ + decimal(exponent)
    }
}

/// The factors other than `1`, in order.
pub open spec fn nontrivial_factors(fs: Seq<Seq<char>>) -> Seq<Seq<char>>
    decreases fs.len(),
{
    if fs.len() == 0 {
        Seq::empty()
    } else if fs.last() == "1"@ {
        nontrivial_factors(fs.drop_last())
    } else {
        nontrivial_factors(fs.drop_last()).push(fs.last())
    }
}

/// The product of the factors as printed: the factors other than `1`
/// joined by ` * `, or `1` when there is none.
pub open spec fn joined_factors(fs: Seq<Seq<char>>) -> Seq<char> {
    if nontrivial_factors(fs).len() == 0 {
        "1"@
    } else {
        join_seqs(nontrivial_factors(fs), " * "@)
    }
}

/// The TFT vertex weight of a genus-`genus` vertex of valence `valence`.
pub open spec fn tft_text(genus: nat, color: Seq<char>, valence: nat) -> Seq<char> {
    let relative = powered_text("RelSqrtDelta_{"@ + color + "}"@, valence);
    if genus == 0 {
        joined_factors(seq!["DeltaInv_{"@ + color + "}"@, relative])
    } else if genus > 1 {
        joined_factors(seq![powered_text("Delta_{"@ + color + "}"@, (genus - 1) as nat), relative])
    } else {
        joined_factors(seq![relative])
    }
}

/// The TFT weight of a vertex: `Delta_c^(-1)` at genus zero, no `Delta_c`
/// at genus one, and `Delta_c` to the power `g - 1` above (the plain factor
/// at genus two, `(Delta_c)^(g-1)` beyond), always followed by the relative
/// factor `RelSqrtDelta_c` to the power of the valence.
pub proof fn lemma_tft_delta_exponent(genus: nat, color: Seq<char>, valence: nat)
    ensures
        genus == 0 ==> tft_text(genus, color, valence) == joined_factors(
            seq!["DeltaInv_{"@ + color + "}"@, powered_text("RelSqrtDelta_{"@ + color + "}"@, valence)],
        ),
        genus == 1 ==> tft_text(genus, color, valence) == joined_factors(
            seq![powered_text("RelSqrtDelta_{"@ + color + "}"@, valence)],
        ),
        genus == 2 ==> tft_text(genus, color, valence) == joined_factors(
            seq!["Delta_{"@ + color + "}"@, powered_text("RelSqrtDelta_{"@ + color + "}"@, valence)],
        ),
        genus > 2 ==> tft_text(genus, color, valence) == joined_factors(
            seq![
                "("@ + ("Delta_{"@ + color + "}"@) + ")^"@ + decimal((genus - 1) as nat),
                powered_text("RelSqrtDelta_{"@ + color + "}"@, valence),
            ],
        ),
{
}

/// A vertex of genus `g >= 2` whose leg powers fill its dimension expands to
/// the single term of its TFT weight, with `Delta_c` to the power `g - 1`,
/// times its psi integral.
pub proof fn lemma_filled_vertex_weight(genus: nat, color: Seq<char>, base: Seq<nat>)
    requires
        genus >= 2,
        nat_sum(base) == 3 * genus + base.len() - 3,
    ensures
        vertex_terms(genus, color, base) == seq![
            joined_factors(
                seq![
                    joined_factors(
                        seq![
                            powered_text("Delta_{"@ + color + "}"@, (genus - 1) as nat),
                            powered_text("RelSqrtDelta_{"@ + color + "}"@, base.len()),
                        ],
                    ),
                    psi_text(genus, base),
                ],
            ),
        ],
{
}

/// How a power is printed: nothing to print (`1`) for exponent zero, the
/// base for exponent one, and `(base)^e` otherwise.
pub proof fn lemma_powered_text_forms(base: Seq<char>, exponent: nat)
    ensures
        exponent == 0 ==> powered_text(base, exponent) == "1"@,
        exponent == 1 ==> powered_text(base, exponent) == base,
        exponent >= 2 ==> powered_text(base, exponent) == "("@ + base + ")^"@ + decimal(exponent),
{
}

/// The psi integral `PsiInt(g;a_1,...,a_n)`.
pub open spec fn psi_text(genus: nat, powers: Seq<nat>) -> Seq<char> {
    "PsiInt("@ + decimal(genus) + ";"@ + join_seqs(powers.map_values(|p: nat| decimal(p)), ","@) + ")"@
}

/// Number of translations in a partition: the sum of the multiplicities.
pub open spec fn partition_count(p: Seq<(nat, nat)>) -> nat
    decreases p.len(),
{
    if p.len() == 0 {
        0
    } else {
        partition_count(p.drop_last()) + p.last().1
    }
}

/// The psi powers of the translations: `part + 1`, `multiplicity` times.
pub open spec fn partition_powers(p: Seq<(nat, nat)>) -> Seq<nat>
    decreases p.len(),
{
    if p.len() == 0 {
        Seq::empty()
    } else {
        partition_powers(p.drop_last()) + Seq::new(p.last().1, |i: int| p.last().0 + 1)
    }
}

/// The translation factors `(T_{color}^{part+1})^multiplicity`.
pub open spec fn partition_factors(color: Seq<char>, p: Seq<(nat, nat)>) -> Seq<Seq<char>>
    decreases p.len(),
{
    if p.len() == 0 {
        Seq::empty()
    } else {
        partition_factors(color, p.drop_last()).push(
            powered_text("T_{"@ + color + "}^"@ + decimal(p.last().0 + 1), p.last().1),
        )
    }
}

/// The symmetry factor: the product of the factorials of the multiplicities.
pub open spec fn partition_symmetry(p: Seq<(nat, nat)>) -> nat
    decreases p.len(),
{
    if p.len() == 0 {
        1
    } else {
        partition_symmetry(p.drop_last()) * factorial(p.last().1)
    }
}

/// The vertex term of one translation partition.
pub open spec fn partition_term(genus: nat, color: Seq<char>, base: Seq<nat>, p: Seq<(nat, nat)>) -> Seq<char> {
    let symmetry = partition_symmetry(p);
    joined_factors(
        partition_factors(color, p) + (if symmetry > 1 { seq!["1/"@ + decimal(symmetry)] } else { Seq::<Seq<char>>::empty() })
            + seq![tft_text(genus, color, base.len() + partition_count(p)), psi_text(genus, base + partition_powers(p))],
    )
}

pub open spec fn nat_sum(s: Seq<nat>) -> nat
    decreases s.len(),
{
    if s.len() == 0 {
        0
    } else {
        nat_sum(s.drop_last()) + s.last()
    }
}

pub open spec fn nat_views(s: Seq<usize>) -> Seq<nat> {
    s.map_values(|x: usize| x as nat)
}

/// The expanded terms of a vertex of genus `genus` whose legs carry the psi
/// powers `base`: none when the powers exceed the dimension
/// `3 genus - 3 + n`, the bare vertex when they fill it, and otherwise one
/// term per translation partition of the excess.
pub open spec fn vertex_terms(genus: nat, color: Seq<char>, base: Seq<nat>) -> Seq<Seq<char>> {
    let dimension = 3 * genus + base.len() - 3;
    let sum = nat_sum(base);
    if sum > dimension {
        Seq::empty()
    } else if sum == dimension {
        seq![joined_factors(seq![tft_text(genus, color, base.len()), psi_text(genus, base)])]
    } else {
        partitions_from(1, (dimension - sum) as nat).map_values(|p: Seq<(nat, nat)>| partition_term(genus, color, base, p))
    }
}

fn powered_factor(base: &String, exponent: usize) -> (out: String)
    ensures
        out@ == powered_text(base@, exponent as nat),
{
    if exponent == 0 {
        string_from("1")
    } else if exponent == 1 {
        base.clone()
    } else {
        let mut out = string_from("(");
        push_string(&mut out, base);
        push_str(&mut out, ")^");
        push_usize(&mut out, exponent);
        out
    }
}

fn join_factors(factors: &Vec<String>) -> (out: String)
    ensures
        out@ == joined_factors(factors@.map_values(|f: String| f@)),
{
    let ghost views = factors@.map_values(|f: String| f@);
    let one = string_from("1");
    let mut out = String::new();
    let mut count: usize = 0;
    let mut i: usize = 0;
    while i < factors.len()
        invariant
            i <= factors@.len(),
            views == factors@.map_values(|f: String| f@),
            one@ == "1"@,
            count <= i,
            count == nontrivial_factors(views.take(i as int)).len(),
            out@ == join_seqs(nontrivial_factors(views.take(i as int)), " * "@),
        decreases factors@.len() - i,
    {
        proof {
            assert(views.take(i + 1).drop_last() =~= views.take(i as int));
            assert(views.take(i + 1).last() == factors@[i as int]@);
        }
        if factors[i] != one {
            if count > 0 {
                push_str(&mut out, " * ");
            }
            push_string(&mut out, &factors[i]);
            proof {
                let nt = nontrivial_factors(views.take(i + 1));
                assert(nt == nontrivial_factors(views.take(i as int)).push(factors@[i as int]@));
                assert(nt.drop_last() =~= nontrivial_factors(views.take(i as int)));
                if count == 0 {
                    assert(out@ =~= nt[0]);
                }
            }
            count = count + 1;
        }
        i = i + 1;
    }
    proof {
        assert(views.take(factors@.len() as int) =~= views);
    }
    if count == 0 {
        string_from("1")
    } else {
        out
    }
}

fn tft_factor(genus: usize, color: &str, valence: usize) -> (out: String)
    ensures
        out@ == tft_text(genus as nat, color@, valence as nat),
{
    let mut relative_base = string_from("RelSqrtDelta_{");
    push_str(&mut relative_base, color);
    push_str(&mut relative_base, "}");
    let relative = powered_factor(&relative_base, valence);
    let mut factors: Vec<String> = Vec::new();
    if genus == 0 {
        let mut inverse = string_from("DeltaInv_{");
        push_str(&mut inverse, color);
        push_str(&mut inverse, "}");
        factors.push(inverse);
    } else if genus > 1 {
        let mut delta = string_from("Delta_{");
        push_str(&mut delta, color);
        push_str(&mut delta, "}");
        factors.push(powered_factor(&delta, genus - 1));
    }
    factors.push(relative);
    let out = join_factors(&factors);
    proof {
        let views = factors@.map_values(|f: String| f@);
        if genus == 0 {
            assert(views =~= seq!["DeltaInv_{"@ + color@ + "}"@, powered_text("RelSqrtDelta_{"@ + color@ + "}"@, valence as nat)]);
        } else if genus > 1 {
            assert(views =~= seq![powered_text("Delta_{"@ + color@ + "}"@, (genus - 1) as nat), powered_text("RelSqrtDelta_{"@ + color@ + "}"@, valence as nat)]);
        } else {
            assert(views =~= seq![powered_text("RelSqrtDelta_{"@ + color@ + "}"@, valence as nat)]);
        }
    }
    out
}

fn psi_integral_factor(genus: usize, powers: &Vec<usize>) -> (out: String)
    ensures
        out@ == psi_text(genus as nat, nat_views(powers@)),
{
    let ghost texts = nat_views(powers@).map_values(|p: nat| decimal(p));
    let mut out = string_from("PsiInt(");
    push_usize(&mut out, genus);
    push_str(&mut out, ";");
    let ghost head = out@;
    let mut i: usize = 0;
    while i < powers.len()
        invariant
            i <= powers@.len(),
            texts == nat_views(powers@).map_values(|p: nat| decimal(p)),
            out@ == head + join_seqs(texts.take(i as int), ","@),
        decreases powers@.len() - i,
    {
        if i > 0 {
            push_str(&mut out, ",");
        }
        push_usize(&mut out, powers[i]);
        proof {
            assert(texts.take(i + 1).drop_last() =~= texts.take(i as int));
            assert(texts.take(i + 1).last() == decimal(powers@[i as int] as nat));
            if i == 0 {
                assert(join_seqs(texts.take(1), ","@) == texts.take(1)[0]);
            }
        }
        i = i + 1;
    }
    push_str(&mut out, ")");
    proof {
        assert(texts.take(powers@.len() as int) =~= texts);
    }
    out
}

fn factorial_of(n: usize) -> (f: usize)
    requires
        factorial(n as nat) <= usize::MAX,
    ensures
        f == factorial(n as nat),
{
    let mut value: usize = 1;
    let mut i: usize = 0;
    while i < n
        invariant
            i <= n,
            value == factorial(i as nat),
            factorial(n as nat) <= usize::MAX,
        decreases n - i,
    {
        proof {
            lemma_factorial_monotone((i + 1) as nat, n as nat);
            assert(factorial((i + 1) as nat) == (i + 1) * factorial(i as nat));
            assert(value * (i + 1) == (i + 1) * value) by (nonlinear_arith);
        }
        value = value * (i + 1);
        i = i + 1;
    }
    value
}

proof fn lemma_factorial_monotone(a: nat, b: nat)
    requires
        a <= b,
    ensures
        factorial(a) <= factorial(b),
        factorial(a) >= 1,
    decreases b,
{
    if b > 0 {
        if a < b {
            lemma_factorial_monotone(a, (b - 1) as nat);
        }
        lemma_factorial_monotone((b - 1) as nat, (b - 1) as nat);
        assert(factorial((b - 1) as nat) <= b * factorial((b - 1) as nat)) by (nonlinear_arith)
            requires
                b >= 1,
        ;
    }
}


/// `sum part * multiplicity` over a partition.
pub open spec fn partition_weight(p: Seq<(nat, nat)>) -> nat
    decreases p.len(),
{
    if p.len() == 0 {
        0
    } else {
        partition_weight(p.drop_last()) + p.last().0 * p.last().1
    }
}

/// Every part of `p` is at least `low` and has a positive multiplicity.
pub open spec fn parts_at_least(p: Seq<(nat, nat)>, low: nat) -> bool {
    forall|i: int| 0 <= i < p.len() ==> (#[trigger] p[i]).0 >= low && p[i].1 >= 1
}

proof fn lemma_nat_views_push(s: Seq<usize>, x: usize)
    ensures
        nat_views(s.push(x)) == nat_views(s).push(x as nat),
{
    assert(nat_views(s.push(x)) =~= nat_views(s).push(x as nat));
}

proof fn lemma_prefix_sums(p: Seq<(nat, nat)>, q: Seq<(nat, nat)>)
    ensures
        partition_weight(p + q) == partition_weight(p) + partition_weight(q),
        partition_count(p + q) == partition_count(p) + partition_count(q),
    decreases q.len(),
{
    if q.len() == 0 {
        assert(p + q =~= p);
    } else {
        lemma_prefix_sums(p, q.drop_last());
        assert((p + q).drop_last() =~= p + q.drop_last());
    }
}

proof fn lemma_count_below_weight(p: Seq<(nat, nat)>)
    requires
        parts_at_least(p, 1),
    ensures
        partition_count(p) <= partition_weight(p),
    decreases p.len(),
{
    if p.len() > 0 {
        let q = p.drop_last();
        assert forall|i: int| 0 <= i < q.len() implies (#[trigger] q[i]).0 >= 1 && q[i].1 >= 1 by {
            assert(q[i] == p[i]);
        }
        lemma_count_below_weight(q);
        let last = p.last();
        assert(last == p[p.len() - 1]);
        assert(last.1 <= last.0 * last.1) by (nonlinear_arith)
            requires
                last.0 >= 1,
        ;
    }
}

proof fn lemma_partitions_from_members(next: nat, remaining: nat, j: int)
    requires
        next >= 1,
        0 <= j < partitions_from(next, remaining).len(),
    ensures
        partition_weight(partitions_from(next, remaining)[j]) == remaining,
        parts_at_least(partitions_from(next, remaining)[j], next),
    decreases remaining, 2nat, 0int,
{
    if remaining == 0 {
        assert(partitions_from(next, remaining)[j] =~= Seq::<(nat, nat)>::empty());
    } else {
        lemma_partitions_by_part_members(next, remaining, j);
    }
}

proof fn lemma_partitions_by_part_members(part: nat, remaining: nat, j: int)
    requires
        part >= 1,
        remaining >= 1,
        0 <= j < partitions_by_part(part, remaining).len(),
    ensures
        partition_weight(partitions_by_part(part, remaining)[j]) == remaining,
        parts_at_least(partitions_by_part(part, remaining)[j], part),
    decreases remaining, 1nat, remaining + 1 - part,
{
    if part <= remaining {
        let first = partitions_with(part, 1, remaining);
        let rest = partitions_by_part(part + 1, remaining);
        assert(partitions_by_part(part, remaining) == first + rest);
        if j < first.len() {
            lemma_partitions_with_members(part, 1, remaining, j);
            assert(partitions_by_part(part, remaining)[j] == first[j]);
        } else {
            lemma_partitions_by_part_members(part + 1, remaining, j - first.len());
            assert(partitions_by_part(part, remaining)[j] == rest[j - first.len()]);
        }
    }
}

proof fn lemma_partitions_with_members(part: nat, multiplicity: nat, remaining: nat, j: int)
    requires
        part >= 1,
        multiplicity >= 1,
        0 <= j < partitions_with(part, multiplicity, remaining).len(),
    ensures
        partition_weight(partitions_with(part, multiplicity, remaining)[j]) == remaining,
        parts_at_least(partitions_with(part, multiplicity, remaining)[j], part),
    decreases remaining, 0nat, remaining + 1 - multiplicity,
{
    if part * multiplicity <= remaining {
        assert(part * multiplicity >= multiplicity) by (nonlinear_arith)
            requires
                part >= 1,
                multiplicity >= 1,
        ;
        let rem = (remaining - part * multiplicity) as nat;
        let sub = partitions_from(part + 1, rem);
        let head = sub.map_values(|p: Seq<(nat, nat)>| seq![(part, multiplicity)] + p);
        let rest = partitions_with(part, multiplicity + 1, remaining);
        assert(partitions_with(part, multiplicity, remaining) == head + rest);
        if j < head.len() {
            lemma_partitions_from_members(part + 1, rem, j);
            let q = sub[j];
            let item = seq![(part, multiplicity)] + q;
            assert(partitions_with(part, multiplicity, remaining)[j] == item);
            lemma_prefix_sums(seq![(part, multiplicity)], q);
            assert(seq![(part, multiplicity)].drop_last() =~= Seq::<(nat, nat)>::empty());
            let single = seq![(part, multiplicity)];
            assert(single.drop_last() =~= Seq::<(nat, nat)>::empty());
            assert(partition_weight(Seq::<(nat, nat)>::empty()) == 0);
            assert(single.last() == (part, multiplicity));
            assert(partition_weight(single) == partition_weight(single.drop_last()) + part * multiplicity);
            assert(partition_weight(single) == part * multiplicity);
            assert(partition_weight(item) == remaining);
            assert forall|i: int| 0 <= i < item.len() implies (#[trigger] item[i]).0 >= part && item[i].1 >= 1 by {
                if i > 0 {
                    assert(item[i] == q[i - 1]);
                }
            }
        } else {
            lemma_partitions_with_members(part, multiplicity + 1, remaining, j - head.len());
            assert(partitions_with(part, multiplicity, remaining)[j] == rest[j - head.len()]);
        }
    }
}

proof fn lemma_symmetry_prefix(p: Seq<(nat, nat)>, k: int)
    requires
        0 <= k <= p.len(),
    ensures
        partition_symmetry(p.take(k)) <= partition_symmetry(p),
        partition_symmetry(p.take(k)) >= 1,
    decreases p.len() - k,
{
    lemma_symmetry_positive(p.take(k));
    if k < p.len() {
        lemma_symmetry_prefix(p, k + 1);
        assert(p.take(k + 1).drop_last() =~= p.take(k));
        lemma_factorial_monotone(0, p[k].1);
        let a = partition_symmetry(p.take(k));
        let f = factorial(p[k].1);
        assert(a <= a * f) by (nonlinear_arith)
            requires
                f >= 1,
                a >= 1,
        ;
    } else {
        assert(p.take(k) =~= p);
    }
}

proof fn lemma_symmetry_positive(p: Seq<(nat, nat)>)
    ensures
        partition_symmetry(p) >= 1,
    decreases p.len(),
{
    if p.len() > 0 {
        lemma_symmetry_positive(p.drop_last());
        lemma_factorial_monotone(0, p.last().1);
        let a = partition_symmetry(p.drop_last());
        let f = factorial(p.last().1);
        assert(a * f >= 1) by (nonlinear_arith)
            requires
                f >= 1,
                a >= 1,
        ;
    }
}

/// The term of one partition of the excess.
fn partition_term_text(
    genus: usize,
    color: &str,
    base_powers: &[usize],
    partition: &Vec<(usize, usize)>,
) -> (out: String)
    requires
        base_powers@.len() + partition_count(pair_views(partition@)) <= usize::MAX,
        partition_symmetry(pair_views(partition@)) <= usize::MAX,
        forall|i: int| 0 <= i < partition@.len() ==> (#[trigger] partition@[i]).0 < usize::MAX,
    ensures
        out@ == partition_term(genus as nat, color@, nat_views(base_powers@), pair_views(partition@)),
{
    let ghost p = pair_views(partition@);
    let ghost base = nat_views(base_powers@);
    let mut powers: Vec<usize> = Vec::new();
    let mut b: usize = 0;
    while b < base_powers.len()
        invariant
            b <= base_powers@.len(),
            nat_views(powers@) == base.take(b as int),
            base == nat_views(base_powers@),
        decreases base_powers@.len() - b,
    {
        let ghost prior = powers@;
        powers.push(base_powers[b]);
        proof {
            lemma_nat_views_push(prior, base_powers@[b as int]);
            assert(base.take(b + 1) =~= base.take(b as int).push(base[b as int]));
        }
        b = b + 1;
    }
    proof {
        assert(base.take(base.len() as int) =~= base);
    }
    let mut factors: Vec<String> = Vec::new();
    let mut symmetry: usize = 1;
    let mut count: usize = 0;
    let mut k: usize = 0;
    proof {
        assert(p.take(0) =~= Seq::<(nat, nat)>::empty());
    }
    while k < partition.len()
        invariant
            k <= partition@.len(),
            p == pair_views(partition@),
            base == nat_views(base_powers@),
            base_powers@.len() + partition_count(p) <= usize::MAX,
            partition_symmetry(p) <= usize::MAX,
            forall|i: int| 0 <= i < partition@.len() ==> (#[trigger] partition@[i]).0 < usize::MAX,
            nat_views(powers@) == base + partition_powers(p.take(k as int)),
            factors@.map_values(|f: String| f@) == partition_factors(color@, p.take(k as int)),
            symmetry == partition_symmetry(p.take(k as int)),
            count == partition_count(p.take(k as int)),
        decreases partition@.len() - k,
    {
        let (part, multiplicity) = partition[k];
        let ghost next = p.take(k + 1);
        proof {
            assert(next.drop_last() =~= p.take(k as int));
            assert(next.last() == (part as nat, multiplicity as nat));
            lemma_symmetry_prefix(p, k + 1);
            lemma_prefix_sums(next, p.skip(k + 1));
            assert(next + p.skip(k + 1) =~= p);
            lemma_factorial_monotone(multiplicity as nat, multiplicity as nat);
            lemma_symmetry_positive(p.take(k as int));
            let a = partition_symmetry(p.take(k as int));
            let f = factorial(multiplicity as nat);
            assert(f <= a * f) by (nonlinear_arith)
                requires
                    a >= 1,
                    f >= 1,
            ;
            lemma_symmetry_positive(p.take(k as int));
        }
        let power = part + 1;
        let ghost before = powers@;
        let mut m: usize = 0;
        while m < multiplicity
            invariant
                m <= multiplicity,
                power == part + 1,
                nat_views(powers@) == nat_views(before) + Seq::new(m as nat, |i: int| (part + 1) as nat),
            decreases multiplicity - m,
        {
            let ghost prior = powers@;
            powers.push(power);
            proof {
                lemma_nat_views_push(prior, power);
                assert(Seq::new((m + 1) as nat, |i: int| (part + 1) as nat)
                    =~= Seq::new(m as nat, |i: int| (part + 1) as nat).push((part + 1) as nat));
                assert(nat_views(powers@) =~= nat_views(before) + Seq::new((m + 1) as nat, |i: int| (part + 1) as nat));
            }
            m = m + 1;
        }
        let mut name = string_from("T_{");
        push_str(&mut name, color);
        push_str(&mut name, "}^");
        push_usize(&mut name, power);
        let ghost before_factors = factors@;
        factors.push(powered_factor(&name, multiplicity));
        proof {
            assert(factors@.map_values(|f: String| f@) =~= before_factors.map_values(|f: String| f@).push(
                powered_text("T_{"@ + color@ + "}^"@ + decimal(part as nat + 1), multiplicity as nat)));
            assert(nat_views(powers@) =~= base + partition_powers(next));
        }
        symmetry = symmetry * factorial_of(multiplicity);
        count = count + multiplicity;
        k = k + 1;
    }
    proof {
        assert(p.take(p.len() as int) =~= p);
    }
    let ghost before_tail = factors@.map_values(|f: String| f@);
    if symmetry > 1 {
        let mut text = string_from("1/");
        push_usize(&mut text, symmetry);
        factors.push(text);
    }
    let ghost middle = factors@.map_values(|f: String| f@);
    factors.push(tft_factor(genus, color, base_powers.len() + count));
    factors.push(psi_integral_factor(genus, &powers));
    proof {
        let tail: Seq<Seq<char>> = if symmetry > 1 { seq!["1/"@ + decimal(symmetry as nat)] } else { Seq::empty() };
        assert(middle =~= before_tail + tail);
        assert(factors@.map_values(|f: String| f@) =~= partition_factors(color@, p) + tail
            + seq![tft_text(genus as nat, color@, base.len() + partition_count(p)), psi_text(genus as nat, base + partition_powers(p))]);
    }
    join_factors(&factors)
}

/// The expanded terms of a vertex of genus `genus` and color `color` whose
/// legs carry the psi powers `base_powers`: the remaining dimension is
/// filled by translations, one term per partition of the excess.
pub fn vertex_expanded_terms(genus: usize, color: &str, base_powers: &[usize]) -> (out: Vec<String>)
    requires
        3 <= 3 * genus + base_powers@.len(),
        3 * genus + 2 * base_powers@.len() <= usize::MAX,
        nat_sum(nat_views(base_powers@)) <= usize::MAX,
        forall|j: int| 0 <= j < partitions_from(1, (3 * genus + base_powers@.len() - 3 - nat_sum(nat_views(base_powers@))) as nat).len()
            ==> partition_symmetry(#[trigger] partitions_from(1, (3 * genus + base_powers@.len() - 3 - nat_sum(nat_views(base_powers@))) as nat)[j]) <= usize::MAX,
    ensures
        out@.map_values(|t: String| t@) == vertex_terms(genus as nat, color@, nat_views(base_powers@)),
{
    let ghost base = nat_views(base_powers@);
    let dimension = 3 * genus + base_powers.len() - 3;
    let mut power_sum: usize = 0;
    let mut i: usize = 0;
    proof {
        assert(base.take(0) =~= Seq::<nat>::empty());
    }
    while i < base_powers.len()
        invariant
            i <= base_powers@.len(),
            base == nat_views(base_powers@),
            nat_sum(base) <= usize::MAX,
            power_sum == nat_sum(base.take(i as int)),
        decreases base_powers@.len() - i,
    {
        proof {
            assert(base.take(i + 1).drop_last() =~= base.take(i as int));
            lemma_nat_sum_prefix(base, i + 1);
        }
        power_sum = power_sum + base_powers[i];
        i = i + 1;
    }
    proof {
        assert(base.take(base.len() as int) =~= base);
    }
    let mut out: Vec<String> = Vec::new();
    if power_sum > dimension {
        proof {
            assert(out@.map_values(|t: String| t@) =~= Seq::<Seq<char>>::empty());
        }
        return out;
    }
    let excess = dimension - power_sum;
    if excess == 0 {
        let mut factors: Vec<String> = Vec::new();
        factors.push(tft_factor(genus, color, base_powers.len()));
        let mut powers: Vec<usize> = Vec::new();
        let mut b: usize = 0;
        while b < base_powers.len()
            invariant
                b <= base_powers@.len(),
                nat_views(powers@) == base.take(b as int),
                base == nat_views(base_powers@),
            decreases base_powers@.len() - b,
        {
            let ghost prior = powers@;
            powers.push(base_powers[b]);
            proof {
                lemma_nat_views_push(prior, base_powers@[b as int]);
                assert(base.take(b + 1) =~= base.take(b as int).push(base[b as int]));
            }
            b = b + 1;
        }
        proof {
            assert(base.take(base.len() as int) =~= base);
        }
        factors.push(psi_integral_factor(genus, &powers));
        out.push(join_factors(&factors));
        proof {
            assert(factors@.map_values(|f: String| f@) =~= seq![tft_text(genus as nat, color@, base.len()), psi_text(genus as nat, base)]);
            assert(out@.map_values(|t: String| t@) =~= seq![joined_factors(seq![tft_text(genus as nat, color@, base.len()), psi_text(genus as nat, base)])]);
        }
        return out;
    }
    let partitions = translation_partitions(excess);
    let ghost parts = partitions_from(1, excess as nat);
    proof {
        assert((3 * genus + base_powers@.len() - 3 - nat_sum(nat_views(base_powers@))) as nat == excess as nat);
        assert forall|k: int| 0 <= k < parts.len() implies partition_symmetry(#[trigger] parts[k]) <= usize::MAX by {
            assert(parts[k] == partitions_from(1, (3 * genus + base_powers@.len() - 3 - nat_sum(nat_views(base_powers@))) as nat)[k]);
        }
    }
    let mut j: usize = 0;
    while j < partitions.len()
        invariant
            j <= partitions@.len(),
            parts == partitions_from(1, excess as nat),
            partitions@.len() == parts.len(),
            forall|k: int| 0 <= k < partitions@.len() ==> pair_views((#[trigger] partitions@[k])@) == parts[k],
            forall|k: int| 0 <= k < parts.len() ==> partition_symmetry(#[trigger] parts[k]) <= usize::MAX,
            base == nat_views(base_powers@),
            3 * genus + 2 * base_powers@.len() <= usize::MAX,
            excess as int == 3 * genus + base_powers@.len() - 3 - nat_sum(base),
            0 < excess,
            out@.map_values(|t: String| t@) == parts.take(j as int).map_values(
                |p: Seq<(nat, nat)>| partition_term(genus as nat, color@, base, p),
            ),
        decreases partitions@.len() - j,
    {
        proof {
            lemma_partitions_from_members(1, excess as nat, j as int);
            let p = parts[j as int];
            assert(pair_views(partitions@[j as int]@) == p);
            lemma_count_below_weight(p);
            assert forall|i: int| 0 <= i < partitions@[j as int]@.len() implies (#[trigger] partitions@[j as int]@[i]).0 < usize::MAX by {
                assert(p[i] == (partitions@[j as int]@[i].0 as nat, partitions@[j as int]@[i].1 as nat));
                lemma_part_below_weight(p, i);
            }
        }
        let term = partition_term_text(genus, color, base_powers, &partitions[j]);
        let ghost before = out@;
        out.push(term);
        proof {
            assert(parts.take(j + 1) =~= parts.take(j as int).push(parts[j as int]));
            assert(out@.map_values(|t: String| t@) =~= before.map_values(|t: String| t@).push(term@));
        }
        j = j + 1;
    }
    proof {
        assert(parts.take(parts.len() as int) =~= parts);
    }
    out
}

proof fn lemma_part_below_weight(p: Seq<(nat, nat)>, i: int)
    requires
        0 <= i < p.len(),
        parts_at_least(p, 1),
    ensures
        p[i].0 <= partition_weight(p),
    decreases p.len(),
{
    let q = p.drop_last();
    assert forall|k: int| 0 <= k < q.len() implies (#[trigger] q[k]).0 >= 1 && q[k].1 >= 1 by {
        assert(q[k] == p[k]);
    }
    let last = p.last();
    assert(last == p[p.len() - 1]);
    assert(last.0 <= last.0 * last.1) by (nonlinear_arith)
        requires
            last.1 >= 1,
    ;
    if i < p.len() - 1 {
        lemma_part_below_weight(q, i);
        assert(q[i] == p[i]);
    }
}

proof fn lemma_nat_sum_prefix(s: Seq<nat>, k: int)
    requires
        0 <= k <= s.len(),
    ensures
        nat_sum(s.take(k)) <= nat_sum(s),
    decreases s.len() - k,
{
    if k < s.len() {
        lemma_nat_sum_prefix(s, k + 1);
        assert(s.take(k + 1).drop_last() =~= s.take(k));
    } else {
        assert(s.take(k) =~= s);
    }
}

} // verus!
