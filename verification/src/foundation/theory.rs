//! Canonical geometric data for Gromov--Witten theories: basis labels of the
//! homogeneous state space, the numerical curve lattice, and small checked
//! helpers shared by concrete target theories.

use vstd::prelude::*;
use crate::foundation::error::GwError;
use crate::order::{compare_i64_slices, i64_ints, lex_order, Order};
use crate::text::{
    decimal, join_seqs, push_char, push_i128, push_str, push_usize, signed_decimal, string_from,
};

verus! {

/// Index of a canonical basis element of the state space.
#[derive(Debug, Clone, Copy, PartialEq, Eq, PartialOrd, Ord, Hash)]
pub struct BasisId(pub usize);

impl BasisId {
    /// `e_<index>`, the default label of a basis element.
    pub open spec fn spec_text(self) -> Seq<char> {
        "e_"@ + decimal(self.0 as nat)
    }

    pub fn text(&self) -> (out: String)
        ensures
            out@ == self.spec_text(),
    {
        let mut out = string_from("e_");
        push_usize(&mut out, self.0);
        out
    }
}

#[derive(Debug, Clone, Copy, PartialEq, Eq, PartialOrd, Ord, Hash)]
pub enum Parity {
    Even,
    Odd,
}

#[derive(Debug, Clone, PartialEq, Eq)]
pub struct BasisElement {
    pub id: BasisId,
    pub label: String,
    /// Hodge `p`-degree used in Getzler's grading operator `mu`.
    pub hodge_p_degree: usize,
    /// Half the real cohomological degree, used for virtual-dimension pruning.
    pub complex_codimension: usize,
    pub parity: Parity,
}

/// A numerical curve class: integer coordinates in the canonical lattice.
#[derive(Debug, PartialEq, Eq, PartialOrd, Ord, Hash)]
pub struct CurveClass {
    coordinates: Vec<i64>,
}

impl View for CurveClass {
    type V = Seq<i64>;

    closed spec fn view(&self) -> Seq<i64> {
        self.coordinates@
    }
}

/// Canonical order of curve classes: lexicographic in the coordinates, a
/// shorter prefix first.
pub open spec fn curve_order(a: Seq<i64>, b: Seq<i64>) -> int {
    lex_order(i64_ints(a), i64_ints(b))
}

/// Two classes compare equal exactly when their coordinates agree.
pub proof fn lemma_curve_order_equal(a: Seq<i64>, b: Seq<i64>)
    ensures
        curve_order(a, b) == 0 <==> a == b,
{
    crate::order::lemma_lex_order_antisymmetric(i64_ints(a), i64_ints(b));
    if i64_ints(a) == i64_ints(b) {
        assert forall|i: int| 0 <= i < a.len() implies a[i] == b[i] by {
            assert(i64_ints(a)[i] == i64_ints(b)[i]);
        }
        assert(a =~= b);
    }
}

/// The text of a curve class: the bare coordinate in rank one, otherwise the
/// parenthesized comma-separated coordinates.
pub open spec fn curve_text(c: Seq<i64>) -> Seq<char> {
    if c.len() == 1 {
        signed_decimal(c[0] as int)
    } else {
        "("@ + join_seqs(c.map_values(|x: i64| signed_decimal(x as int)), ","@) + ")"@
    }
}

impl Clone for CurveClass {
    fn clone(&self) -> (c: Self)
        ensures
            c@ == self@,
    {
        let mut coordinates: Vec<i64> = Vec::new();
        let mut i: usize = 0;
        while i < self.coordinates.len()
            invariant
                i <= self@.len(),
                coordinates@ == self@.take(i as int),
            decreases self@.len() - i,
        {
            coordinates.push(self.coordinates[i]);
            proof {
                assert(self@.take(i + 1) =~= self@.take(i as int).push(self@[i as int]));
            }
            i = i + 1;
        }
        proof {
            assert(self@.take(self@.len() as int) =~= self@);
        }
        CurveClass { coordinates }
    }
}

impl CurveClass {
    pub fn new(coordinates: Vec<i64>) -> (c: Self)
        ensures
            c@ == coordinates@,
    {
        Self { coordinates }
    }

    pub fn zero(rank: usize) -> (c: Self)
        ensures
            c@.len() == rank,
            forall|i: int| 0 <= i < rank ==> c@[i] == 0,
    {
        let mut coordinates: Vec<i64> = Vec::new();
        while coordinates.len() < rank
            invariant
                coordinates.len() <= rank,
                forall|i: int| 0 <= i < coordinates.len() ==> coordinates@[i] == 0,
            decreases rank - coordinates.len(),
        {
            coordinates.push(0);
        }
        Self { coordinates }
    }

    pub fn coordinates(&self) -> (out: &[i64])
        ensures
            out@ == self@,
    {
        self.coordinates.as_slice()
    }

    pub fn coordinate(&self, index: usize) -> (out: Option<i64>)
        ensures
            out == (if index < self@.len() { Some(self@[index as int]) } else { None::<i64> }),
    {
        if index < self.coordinates.len() {
            Some(self.coordinates[index])
        } else {
            None
        }
    }

    pub fn rank(&self) -> (r: usize)
        ensures
            r == self@.len(),
    {
        self.coordinates.len()
    }

    /// Coordinatewise sum; `None` when the ranks differ or a coordinate
    /// overflows `i64`.
    pub fn checked_add(&self, rhs: &Self) -> (sum: Option<Self>)
        ensures
            sum is Some <==> (self@.len() == rhs@.len() && forall|i: int|
                0 <= i < self@.len() ==> i64::MIN <= #[trigger] self@[i] + rhs@[i] <= i64::MAX),
            sum matches Some(s) ==> s@.len() == self@.len() && forall|i: int|
                0 <= i < self@.len() ==> #[trigger] s@[i] == self@[i] + rhs@[i],
    {
        if self.coordinates.len() != rhs.coordinates.len() {
            return None;
        }
        let mut out: Vec<i64> = Vec::new();
        let mut i: usize = 0;
        while i < self.coordinates.len()
            invariant
                i <= self@.len(),
                self@.len() == rhs@.len(),
                out@.len() == i,
                forall|j: int| 0 <= j < i ==> i64::MIN <= #[trigger] self@[j] + rhs@[j] <= i64::MAX,
                forall|j: int| 0 <= j < i ==> #[trigger] out@[j] == self@[j] + rhs@[j],
            decreases self@.len() - i,
        {
            match self.coordinates[i].checked_add(rhs.coordinates[i]) {
                Some(value) => out.push(value),
                None => return None,
            }
            i += 1;
        }
        Some(Self { coordinates: out })
    }

    pub fn is_zero(&self) -> (z: bool)
        ensures
            z == forall|i: int| 0 <= i < self@.len() ==> self@[i] == 0,
    {
        let mut i: usize = 0;
        while i < self.coordinates.len()
            invariant
                i <= self@.len(),
                forall|j: int| 0 <= j < i ==> self@[j] == 0,
            decreases self@.len() - i,
        {
            if self.coordinates[i] != 0 {
                return false;
            }
            i += 1;
        }
        true
    }

    /// Canonical three-way comparison (lexicographic coordinates).
    pub fn compare(&self, other: &Self) -> (o: Order)
        ensures
            o.sign() == curve_order(self@, other@),
    {
        compare_i64_slices(self.coordinates.as_slice(), other.coordinates.as_slice())
    }

    /// The printed form of the class (see [`curve_text`]).
    pub fn text(&self) -> (out: String)
        ensures
            out@ == curve_text(self@),
    {
        let mut out = String::new();
        if self.coordinates.len() == 1 {
            push_i128(&mut out, self.coordinates[0] as i128);
            return out;
        }
        push_char(&mut out, '(');
        let ghost items = self@.map_values(|x: i64| signed_decimal(x as int));
        let mut i: usize = 0;
        while i < self.coordinates.len()
            invariant
                i <= self@.len(),
                self@.len() != 1,
                items == self@.map_values(|x: i64| signed_decimal(x as int)),
                out@ == seq!['('] + join_seqs(items.take(i as int), ","@),
            decreases self@.len() - i,
        {
            if i > 0 {
                push_str(&mut out, ",");
            }
            push_i128(&mut out, self.coordinates[i] as i128);
            proof {
                assert(items.take(i + 1).drop_last() =~= items.take(i as int));
                if i == 0 {
                    assert(join_seqs(items.take(1), ","@) =~= items[0]);
                }
                assert(out@ =~= seq!['('] + join_seqs(items.take(i + 1), ","@));
            }
            i += 1;
        }
        push_char(&mut out, ')');
        proof {
            assert(items.take(self@.len() as int) =~= items);
            reveal_strlit("(");
            reveal_strlit(")");
            assert(out@ =~= curve_text(self@));
        }
        out
    }
}

#[derive(Debug, Clone, PartialEq, Eq)]
pub struct CurveClassSpace {
    pub coordinate_names: Vec<String>,
    pub effective_grading: String,
}

impl CurveClassSpace {
    pub fn rank(&self) -> (r: usize)
        ensures
            r == self.coordinate_names@.len(),
    {
        self.coordinate_names.len()
    }

    /// Accepts exactly the classes of this lattice's rank.
    pub fn validate(&self, curve: &CurveClass) -> (result: Result<(), GwError>)
        ensures
            result is Ok <==> curve@.len() == self.coordinate_names@.len(),
            result matches Err(e) ==> e matches GwError::ConventionMismatch(m) && m@
                == "curve class has rank "@ + decimal(curve@.len()) + ", but theory expects rank "@
                + decimal(self.coordinate_names@.len()),
    {
        if curve.rank() != self.rank() {
            let mut message = string_from("curve class has rank ");
            push_usize(&mut message, curve.rank());
            push_str(&mut message, ", but theory expects rank ");
            push_usize(&mut message, self.rank());
            return Err(GwError::ConventionMismatch(message));
        }
        Ok(())
    }
}

#[derive(Debug, Clone, Copy, PartialEq, Eq, PartialOrd, Ord, Hash)]
pub enum CurveEffectivity {
    Effective,
    Ineffective,
    Unknown,
}

/// Which Virasoro operator family a theory is allowed to request.
#[derive(Debug, Clone, Copy, PartialEq, Eq, PartialOrd, Ord, Hash)]
pub enum VirasoroOperatorKind {
    StandardCompactGetzler,
    QrrConjugatedRequired,
    Unsupported,
}

#[derive(Debug, Clone, PartialEq, Eq, PartialOrd, Ord, Hash)]
pub struct CurveClassSplit {
    pub left: CurveClass,
    pub right: CurveClass,
}

/// The error reported when a curve-class scan bound cannot be represented.
pub open spec fn is_scan_bound_overflow(e: GwError) -> bool {
    e matches GwError::UnsupportedInvariant(m) && m@ == "curve-class scan bound is too large"@
}

pub fn scan_bound_overflow() -> (e: GwError)
    ensures
        is_scan_bound_overflow(e),
{
    GwError::UnsupportedInvariant(string_from("curve-class scan bound is too large"))
}

/// Accepts the scan bounds that fit in an `i64` coordinate.
pub fn ensure_curve_bound_fits_i64(max_total: usize) -> (result: Result<(), GwError>)
    ensures
        result is Ok <==> max_total <= i64::MAX,
        result matches Err(e) ==> is_scan_bound_overflow(e),
{
    if max_total as u128 <= i64::MAX as u128 {
        Ok(())
    } else {
        Err(scan_bound_overflow())
    }
}

/// Number of lattice points `(a, b)` with `a, b >= 0` and `a + b <= max_total`,
/// that is `(max_total + 1)(max_total + 2) / 2`, when it fits in `usize`.
pub fn two_ray_class_count(max_total: usize) -> (result: Result<usize, GwError>)
    ensures
        result is Ok <==> (max_total + 2 <= usize::MAX && (max_total + 1) * (max_total + 2) / 2
            <= usize::MAX),
        result matches Ok(count) ==> count == (max_total + 1) * (max_total + 2) / 2,
        result matches Err(e) ==> is_scan_bound_overflow(e),
{
    if max_total > usize::MAX - 2 {
        return Err(scan_bound_overflow());
    }
    let first = max_total + 1;
    let second = max_total + 2;
    let (a, b) = if first % 2 == 0 {
        (first / 2, second)
    } else {
        (first, second / 2)
    };
    proof {
        assert(a * b == first * second / 2) by (nonlinear_arith)
            requires
                second == first + 1,
                first % 2 == 0 ==> a == first / 2 && b == second,
                first % 2 != 0 ==> a == first && b == second / 2,
                first >= 1,
        ;
    }
    match a.checked_mul(b) {
        Some(count) => Ok(count),
        None => Err(scan_bound_overflow()),
    }
}

/// `1`, `symbol`, or `symbol^power` according to the power.
pub open spec fn spec_power_label(symbol: Seq<char>, power: nat) -> Seq<char> {
    if power == 0 {
        "1"@
    } else if power == 1 {
        symbol
    } else {
        symbol + "^"@ + decimal(power)
    }
}

/// `1`, `symbol`, or `symbol^{power}` according to the power.
pub open spec fn spec_tex_power_label(symbol: Seq<char>, power: nat) -> Seq<char> {
    if power == 0 {
        "1"@
    } else if power == 1 {
        symbol
    } else {
        symbol + "^{"@ + decimal(power) + "}"@
    }
}

pub fn power_label(symbol: &str, power: usize) -> (out: String)
    ensures
        out@ == spec_power_label(symbol@, power as nat),
{
    if power == 0 {
        string_from("1")
    } else if power == 1 {
        string_from(symbol)
    } else {
        let mut out = string_from(symbol);
        push_str(&mut out, "^");
        push_usize(&mut out, power);
        out
    }
}

pub fn tex_power_label(symbol: &str, power: usize) -> (out: String)
    ensures
        out@ == spec_tex_power_label(symbol@, power as nat),
{
    if power == 0 {
        string_from("1")
    } else if power == 1 {
        string_from(symbol)
    } else {
        let mut out = string_from(symbol);
        push_str(&mut out, "^{");
        push_usize(&mut out, power);
        push_str(&mut out, "}");
        out
    }
}

} // verus!
