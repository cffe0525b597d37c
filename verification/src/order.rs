//! Canonical total orders on the integer-coded keys used by correlators and
//! time monomials: integers, and lexicographic order on sequences in which a
//! proper prefix comes first.

use vstd::prelude::*;

verus! {

/// Outcome of a three-way comparison.
#[derive(Debug, Clone, Copy, PartialEq, Eq)]
pub enum Order {
    Less,
    Equal,
    Greater,
}

impl Order {
    /// `-1`, `0`, `1` for `Less`, `Equal`, `Greater`.
    pub open spec fn sign(self) -> int {
        match self {
            Order::Less => -1,
            Order::Equal => 0,
            Order::Greater => 1,
        }
    }
}

/// Three-way comparison of integers as a sign.
pub open spec fn int_order(a: int, b: int) -> int {
    if a < b { -1 } else if a == b { 0 } else { 1 }
}

/// Lexicographic comparison of integer sequences; a proper prefix is smaller.
pub open spec fn lex_order(a: Seq<int>, b: Seq<int>) -> int
    decreases a.len(),
{
    if a.len() == 0 {
        if b.len() == 0 { 0 } else { -1 }
    } else if b.len() == 0 {
        1
    } else if a[0] != b[0] {
        int_order(a[0], b[0])
    } else {
        lex_order(a.drop_first(), b.drop_first())
    }
}

/// The integer sequence of a slice of `i64`.
pub open spec fn i64_ints(s: Seq<i64>) -> Seq<int> {
    s.map_values(|x: i64| x as int)
}

pub proof fn lemma_lex_order_antisymmetric(a: Seq<int>, b: Seq<int>)
    ensures
        lex_order(a, b) == -lex_order(b, a),
        lex_order(a, b) == 0 <==> a == b,
        -1 <= lex_order(a, b) <= 1,
    decreases a.len(),
{
    if a.len() == 0 && b.len() == 0 {
        assert(a =~= b);
    }
    if a.len() > 0 && b.len() > 0 && a[0] == b[0] {
        lemma_lex_order_antisymmetric(a.drop_first(), b.drop_first());
        if a.drop_first() == b.drop_first() {
            assert forall|i: int| 0 <= i < a.len() implies a[i] == b[i] by {
                if i > 0 {
                    assert(a[i] == a.drop_first()[i - 1]);
                    assert(b[i] == b.drop_first()[i - 1]);
                }
            }
            assert(a =~= b);
        }
    }
}

pub proof fn lemma_lex_order_transitive(a: Seq<int>, b: Seq<int>, c: Seq<int>)
    requires
        lex_order(a, b) < 0,
        lex_order(b, c) < 0,
    ensures
        lex_order(a, c) < 0,
    decreases a.len(),
{
    if a.len() > 0 && b.len() > 0 && c.len() > 0 && a[0] == b[0] && b[0] == c[0] {
        lemma_lex_order_transitive(a.drop_first(), b.drop_first(), c.drop_first());
    }
}

/// Three-way comparison of two integers.
pub fn compare_usize(a: usize, b: usize) -> (o: Order)
    ensures
        o.sign() == int_order(a as int, b as int),
{
    if a < b {
        Order::Less
    } else if a == b {
        Order::Equal
    } else {
        Order::Greater
    }
}

/// Lexicographic three-way comparison of `i64` slices.
pub fn compare_i64_slices(a: &[i64], b: &[i64]) -> (o: Order)
    ensures
        o.sign() == lex_order(i64_ints(a@), i64_ints(b@)),
{
    let mut i: usize = 0;
    assert(i64_ints(a@).skip(0) =~= i64_ints(a@));
    assert(i64_ints(b@).skip(0) =~= i64_ints(b@));
    while i < a.len() && i < b.len()
        invariant
            i <= a.len(),
            i <= b.len(),
            forall|j: int| 0 <= j < i ==> a@[j] == b@[j],
            lex_order(i64_ints(a@), i64_ints(b@)) == lex_order(
                i64_ints(a@).skip(i as int),
                i64_ints(b@).skip(i as int),
            ),
        decreases a.len() - i,
    {
        let ghost sa = i64_ints(a@).skip(i as int);
        let ghost sb = i64_ints(b@).skip(i as int);
        assert(sa[0] == a@[i as int] as int);
        assert(sb[0] == b@[i as int] as int);
        if a[i] < b[i] {
            return Order::Less;
        } else if a[i] > b[i] {
            return Order::Greater;
        }
        assert(sa.drop_first() =~= i64_ints(a@).skip(i + 1));
        assert(sb.drop_first() =~= i64_ints(b@).skip(i + 1));
        i += 1;
    }
    let ghost sa = i64_ints(a@).skip(i as int);
    let ghost sb = i64_ints(b@).skip(i as int);
    if a.len() < b.len() {
        assert(sa.len() == 0 && sb.len() > 0);
        Order::Less
    } else if a.len() == b.len() {
        assert(sa.len() == 0 && sb.len() == 0);
        Order::Equal
    } else {
        assert(sa.len() > 0 && sb.len() == 0);
        Order::Greater
    }
}

} // verus!
