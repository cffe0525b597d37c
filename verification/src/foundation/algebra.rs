//! Symbolic variables and sparse monomials.
//!
//! Variables are registered once in a [`SymbolTable`] and identified by dense
//! `u32` ids afterwards, so monomial arithmetic works purely on ids by linear
//! merges; only name lookups go through the table.  `lambda_i` names record
//! their index when interned.

use vstd::prelude::*;
use vstd::string::*;
use crate::text::{push_char, push_i128, push_string, signed_decimal, string_from};

verus! {

/// Value of a nonempty string of ASCII digits.
pub open spec fn digits_value(s: Seq<char>) -> nat
    decreases s.len(),
{
    if s.len() == 0 {
        0
    } else {
        digits_value(s.drop_last()) * 10 + ((s.last() as int - '0' as int) as nat)
    }
}

pub open spec fn is_ascii_digit(c: char) -> bool {
    '0' <= c && c <= '9'
}

/// The digit string accepted by `usize::from_str`: an optional `+` followed
/// by at least one ASCII digit.
pub open spec fn unsigned_digits(s: Seq<char>) -> Seq<char> {
    if s.len() > 0 && s[0] == '+' { s.drop_first() } else { s }
}

/// `usize::from_str` on `s`: the value of the digits when the syntax is
/// valid and the value fits.
pub open spec fn spec_parse_usize(s: Seq<char>) -> Option<nat> {
    let d = unsigned_digits(s);
    if d.len() > 0 && (forall|i: int| 0 <= i < d.len() ==> is_ascii_digit(#[trigger] d[i]))
        && digits_value(d) <= usize::MAX {
        Some(digits_value(d))
    } else {
        None
    }
}

/// The index `i` of a variable named `lambda_i`.
pub open spec fn spec_lambda_index(name: Seq<char>) -> Option<nat> {
    if name.len() >= 7 && name.subrange(0, 7) == "lambda_"@ {
        spec_parse_usize(name.skip(7))
    } else {
        None
    }
}

pub proof fn lemma_digits_value_monotone(s: Seq<char>, i: int)
    requires
        0 <= i <= s.len(),
        forall|j: int| 0 <= j < s.len() ==> is_ascii_digit(#[trigger] s[j]),
    ensures
        digits_value(s.take(i)) <= digits_value(s),
    decreases s.len() - i,
{
    if i < s.len() {
        lemma_digits_value_monotone(s, i + 1);
        assert(s.take(i + 1).drop_last() =~= s.take(i));
    } else {
        assert(s.take(i) =~= s);
    }
}

/// Parses a `usize` exactly as `usize::from_str` does.
pub fn parse_usize(s: &str) -> (r: Option<usize>)
    ensures
        r matches Some(v) ==> spec_parse_usize(s@) == Some(v as nat),
        r is None ==> spec_parse_usize(s@) is None,
{
    let n = s.unicode_len();
    let mut start: usize = 0;
    if n > 0 && s.get_char(0) == '+' {
        start = 1;
    }
    let ghost d = unsigned_digits(s@);
    proof {
        if start == 1 {
            assert(d =~= s@.skip(1));
        } else {
            assert(d =~= s@.skip(0));
        }
    }
    if start >= n {
        assert(d.len() == 0);
        return None;
    }
    let mut value: usize = 0;
    let mut i: usize = start;
    while i < n
        invariant
            start <= i <= n,
            n == s@.len(),
            d == s@.skip(start as int),
            d == unsigned_digits(s@),
            start < n,
            forall|j: int| 0 <= j < i - start ==> is_ascii_digit(#[trigger] d[j]),
            value == digits_value(d.take(i - start)),
        decreases n - i,
    {
        let c = s.get_char(i);
        assert(d[i - start] == c);
        if !('0' <= c && c <= '9') {
            assert(!is_ascii_digit(d[i - start]));
            assert(!(forall|j: int| 0 <= j < d.len() ==> is_ascii_digit(#[trigger] d[j])));
            return None;
        }
        let digit = (c as u32 - '0' as u32) as usize;
        proof {
            assert(d.take(i + 1 - start).drop_last() =~= d.take(i - start));
            assert(d.take(i + 1 - start).last() == c);
            assert(digits_value(d.take(i + 1 - start)) == value * 10 + digit);
        }
        match value.checked_mul(10) {
            Some(scaled) => match scaled.checked_add(digit) {
                Some(next) => value = next,
                None => {
                    proof {
                        assert(digits_value(d.take(i + 1 - start)) > usize::MAX);
                        if forall|j: int| 0 <= j < d.len() ==> is_ascii_digit(#[trigger] d[j]) {
                            lemma_digits_value_monotone(d, i + 1 - start);
                        }
                    }
                    return None;
                },
            },
            None => {
                proof {
                    assert(digits_value(d.take(i + 1 - start)) > usize::MAX);
                    if forall|j: int| 0 <= j < d.len() ==> is_ascii_digit(#[trigger] d[j]) {
                        lemma_digits_value_monotone(d, i + 1 - start);
                    }
                }
                return None;
            },
        }
        i += 1;
    }
    proof {
        assert(d.take(n - start) =~= d);
    }
    Some(value)
}

/// The index `i` of a variable named `lambda_i`, if the name has that form.
pub fn lambda_index(name: &str) -> (r: Option<usize>)
    ensures
        r matches Some(v) ==> spec_lambda_index(name@) == Some(v as nat),
        r is None ==> spec_lambda_index(name@) is None,
{
    let n = name.unicode_len();
    if n < 7 {
        return None;
    }
    let prefix = name.substring_char(0, 7);
    let expected = "lambda_";
    let mut j: usize = 0;
    proof {
        reveal_strlit("lambda_");
    }
    while j < 7
        invariant
            j <= 7,
            n == name@.len(),
            n >= 7,
            prefix@ == name@.subrange(0, 7),
            prefix@.len() == 7,
            expected@ == "lambda_"@,
            expected@.len() == 7,
            forall|t: int| 0 <= t < j ==> prefix@[t] == expected@[t],
        decreases 7 - j,
    {
        if prefix.get_char(j) != expected.get_char(j) {
            return None;
        }
        j += 1;
    }
    proof {
        assert(prefix@ =~= expected@);
    }
    let rest = name.substring_char(7, n);
    proof {
        assert(rest@ =~= name@.skip(7));
    }
    parse_usize(rest)
}

/// Variable-name interner: ids are dense indices into the table.
#[derive(Debug, Clone, Default)]
pub struct SymbolTable {
    /// `id -> (name, lambda index if the name is lambda_i)`.
    symbols: Vec<(String, Option<usize>)>,
}

impl View for SymbolTable {
    type V = Seq<Seq<char>>;

    closed spec fn view(&self) -> Seq<Seq<char>> {
        self.symbols@.map_values(|e: (String, Option<usize>)| e.0@)
    }
}

impl SymbolTable {
    /// Names are distinct and each carries its parsed lambda index.
    pub closed spec fn well_formed(&self) -> bool {
        &&& forall|i: int, j: int| 0 <= i < j < self.symbols@.len() ==> (#[trigger] self.symbols@[i]).0@ != (#[trigger] self.symbols@[j]).0@
        &&& forall|i: int| 0 <= i < self.symbols@.len() ==> match (#[trigger] self.symbols@[i]).1 {
            Some(v) => spec_lambda_index(self.symbols@[i].0@) == Some(v as nat),
            None => spec_lambda_index(self.symbols@[i].0@) is None,
        }
    }

    /// A well-formed table registers each name once: two ids name the same
    /// variable exactly when they are equal.
    pub proof fn lemma_names_distinct(&self, a: int, b: int)
        requires
            self.well_formed(),
            0 <= a < self@.len(),
            0 <= b < self@.len(),
        ensures
            self@[a] == self@[b] <==> a == b,
    {
        if a < b {
            assert(self.symbols@[a].0@ != self.symbols@[b].0@);
        } else if b < a {
            assert(self.symbols@[b].0@ != self.symbols@[a].0@);
        }
    }

    pub fn new() -> (t: Self)
        ensures
            t.well_formed(),
            t@ == Seq::<Seq<char>>::empty(),
    {
        let t = Self { symbols: Vec::new() };
        proof {
            assert(t@ =~= Seq::<Seq<char>>::empty());
        }
        t
    }

    pub fn len(&self) -> (n: usize)
        ensures
            n == self@.len(),
    {
        self.symbols.len()
    }

    /// The id of `name`, registering it when it is new.
    pub fn intern(&mut self, name: &str) -> (id: u32)
        requires
            old(self).well_formed(),
            old(self)@.len() < u32::MAX,
        ensures
            final(self).well_formed(),
            id < final(self)@.len(),
            final(self)@[id as int] == name@,
            forall|j: int| 0 <= j < final(self)@.len() && final(self)@[j] == name@ ==> j == id,
            old(self)@.contains(name@) ==> final(self)@ == old(self)@,
            !old(self)@.contains(name@) ==> final(self)@ == old(self)@.push(name@),
    {
        let mut i: usize = 0;
        let owned = string_from(name);
        while i < self.symbols.len()
            invariant
                i <= self.symbols@.len(),
                self.symbols@ == old(self).symbols@,
                self.symbols@.len() < u32::MAX,
                self.well_formed(),
                owned@ == name@,
                forall|j: int| 0 <= j < i ==> (#[trigger] self.symbols@[j]).0@ != name@,
            decreases self.symbols@.len() - i,
        {
            if self.symbols[i].0 == owned {
                proof {
                    assert(self.symbols@[i as int].0@ == name@);
                    assert(self@[i as int] == self.symbols@[i as int].0@);
                    assert forall|j: int| 0 <= j < self@.len() && self@[j] == name@ implies j == i by {
                        self.lemma_names_distinct(j, i as int);
                    }
                }
                return i as u32;
            }
            i += 1;
        }
        proof {
            if old(self)@.contains(name@) {
                let k = choose|k: int| 0 <= k < old(self)@.len() && old(self)@[k] == name@;
                assert(self.symbols@[k].0@ == name@);
            }
        }
        let lambda = lambda_index(name);
        let id = self.symbols.len() as u32;
        self.symbols.push((owned, lambda));
        proof {
            assert(self@ =~= old(self)@.push(name@));
            assert forall|j: int| 0 <= j < self@.len() && self@[j] == name@ implies j == id by {
                self.lemma_names_distinct(j, id as int);
            }
        }
        id
    }

    /// The name registered under `id`.
    pub fn symbol_name(&self, id: u32) -> (name: String)
        requires
            id < self@.len(),
        ensures
            name@ == self@[id as int],
    {
        self.symbols[id as usize].0.clone()
    }

    /// The lambda index of the variable registered under `id`.
    pub fn symbol_lambda_index(&self, id: u32) -> (r: Option<usize>)
        requires
            self.well_formed(),
            id < self@.len(),
        ensures
            r matches Some(v) ==> spec_lambda_index(self@[id as int]) == Some(v as nat),
            r is None ==> spec_lambda_index(self@[id as int]) is None,
    {
        self.symbols[id as usize].1
    }
}

/// Total exponent of variable `id` in a list of `(id, exponent)` pairs.
pub open spec fn exponent_in(f: Seq<(u32, i32)>, id: u32) -> int
    decreases f.len(),
{
    if f.len() == 0 {
        0
    } else {
        exponent_in(f.drop_last(), id) + (if f.last().0 == id { f.last().1 as int } else { 0 })
    }
}

/// Strictly increasing ids, nonzero exponents.
pub open spec fn canonical_monomial(f: Seq<(u32, i32)>) -> bool {
    &&& forall|i: int, j: int| 0 <= i < j < f.len() ==> (#[trigger] f[i]).0 < (#[trigger] f[j]).0
    &&& forall|i: int| 0 <= i < f.len() ==> (#[trigger] f[i]).1 != 0
}

pub proof fn lemma_exponent_append(a: Seq<(u32, i32)>, b: Seq<(u32, i32)>, id: u32)
    ensures
        exponent_in(a + b, id) == exponent_in(a, id) + exponent_in(b, id),
    decreases b.len(),
{
    if b.len() == 0 {
        assert(a + b =~= a);
    } else {
        assert((a + b).drop_last() =~= a + b.drop_last());
        lemma_exponent_append(a, b.drop_last(), id);
    }
}

pub proof fn lemma_exponent_absent(f: Seq<(u32, i32)>, id: u32)
    requires
        forall|i: int| 0 <= i < f.len() ==> (#[trigger] f[i]).0 != id,
    ensures
        exponent_in(f, id) == 0,
    decreases f.len(),
{
    if f.len() > 0 {
        lemma_exponent_absent(f.drop_last(), id);
    }
}

/// In a canonical list the exponent of a present id is its entry.
pub proof fn lemma_exponent_at(f: Seq<(u32, i32)>, i: int)
    requires
        canonical_monomial(f),
        0 <= i < f.len(),
    ensures
        exponent_in(f, f[i].0) == f[i].1,
{
    let id = f[i].0;
    assert(f =~= f.take(i) + seq![f[i]] + f.skip(i + 1));
    lemma_exponent_append(f.take(i) + seq![f[i]], f.skip(i + 1), id);
    lemma_exponent_append(f.take(i), seq![f[i]], id);
    assert(seq![f[i]].drop_last() =~= Seq::<(u32, i32)>::empty());
    assert(exponent_in(Seq::<(u32, i32)>::empty(), id) == 0);
    assert(exponent_in(seq![f[i]], id) == f[i].1);
    assert forall|j: int| 0 <= j < f.take(i).len() implies (#[trigger] f.take(i)[j]).0 != id by {
        assert(f.take(i)[j] == f[j]);
    }
    lemma_exponent_absent(f.take(i), id);
    assert forall|j: int| 0 <= j < f.skip(i + 1).len() implies (#[trigger] f.skip(i + 1)[j]).0 != id by {
        assert(f.skip(i + 1)[j] == f[i + 1 + j]);
    }
    lemma_exponent_absent(f.skip(i + 1), id);
}

/// Exponents of a canonical list are zero exactly off its ids.
pub proof fn lemma_exponent_canonical(f: Seq<(u32, i32)>, id: u32)
    requires
        canonical_monomial(f),
    ensures
        (exists|i: int| 0 <= i < f.len() && (#[trigger] f[i]).0 == id) ==> exponent_in(f, id) != 0,
        i32::MIN <= exponent_in(f, id) <= i32::MAX,
{
    if exists|i: int| 0 <= i < f.len() && (#[trigger] f[i]).0 == id {
        let i = choose|i: int| 0 <= i < f.len() && (#[trigger] f[i]).0 == id;
        lemma_exponent_at(f, i);
    } else {
        lemma_exponent_absent(f, id);
    }
}

/// The spelling of one factor: `name`, or `name^e` for an exponent other than one.
pub open spec fn factor_text(names: Seq<Seq<char>>, factor: (u32, i32)) -> Seq<char> {
    if factor.1 == 1 {
        names[factor.0 as int]
    } else {
        names[factor.0 as int] + "^"@ + signed_decimal(factor.1 as int)
    }
}

/// The factors' spellings joined by `*`.
pub open spec fn factors_text(names: Seq<Seq<char>>, f: Seq<(u32, i32)>) -> Seq<char>
    decreases f.len(),
{
    if f.len() == 0 {
        Seq::empty()
    } else if f.len() == 1 {
        factor_text(names, f[0])
    } else {
        factors_text(names, f.drop_last()) + "*"@ + factor_text(names, f.last())
    }
}

/// The spelling of a monomial: `1` for the empty product.
pub open spec fn monomial_text(names: Seq<Seq<char>>, f: Seq<(u32, i32)>) -> Seq<char> {
    if f.len() == 0 {
        "1"@
    } else {
        factors_text(names, f)
    }
}

/// A canonical monomial is determined by its exponents.
pub proof fn lemma_canonical_by_exponents(f: Seq<(u32, i32)>, g: Seq<(u32, i32)>)
    requires
        canonical_monomial(f),
        canonical_monomial(g),
        forall|id: u32| #[trigger] exponent_in(f, id) == exponent_in(g, id),
    ensures
        f == g,
    decreases f.len() + g.len(),
{
    if f.len() == 0 && g.len() == 0 {
        assert(f =~= g);
    } else if f.len() == 0 {
        lemma_exponent_canonical(g, g[0].0);
        lemma_exponent_absent(f, g[0].0);
    } else if g.len() == 0 {
        lemma_exponent_canonical(f, f[0].0);
        lemma_exponent_absent(g, f[0].0);
    } else {
        let a = f.last();
        let b = g.last();
        let f0 = f.drop_last();
        let g0 = g.drop_last();
        lemma_exponent_at(f, f.len() - 1);
        lemma_exponent_at(g, g.len() - 1);
        if a.0 < b.0 {
            assert forall|i: int| 0 <= i < f.len() implies (#[trigger] f[i]).0 != b.0 by {}
            lemma_exponent_absent(f, b.0);
        } else if b.0 < a.0 {
            assert forall|i: int| 0 <= i < g.len() implies (#[trigger] g[i]).0 != a.0 by {}
            lemma_exponent_absent(g, a.0);
        } else {
            assert(a == b);
            assert forall|id: u32| #[trigger] exponent_in(f0, id) == exponent_in(g0, id) by {
                lemma_exponent_append(f0, seq![a], id);
                lemma_exponent_append(g0, seq![b], id);
                assert(f0 + seq![a] =~= f);
                assert(g0 + seq![b] =~= g);
                assert(seq![a].drop_last() =~= Seq::<(u32, i32)>::empty());
            }
            lemma_canonical_by_exponents(f0, g0);
            assert(f =~= f0.push(a));
            assert(g =~= g0.push(b));
        }
    }
}

/// Multiplication of monomials is commutative: a product `ab` of `a` and `b`
/// and a product `ba` of `b` and `a` are the same monomial.
pub proof fn lemma_monomial_product_commutes(a: Monomial, b: Monomial, ab: Monomial, ba: Monomial)
    requires
        canonical_monomial(ab@),
        canonical_monomial(ba@),
        forall|id: u32| #[trigger] ab.exponent(id) == a.exponent(id) + b.exponent(id),
        forall|id: u32| #[trigger] ba.exponent(id) == b.exponent(id) + a.exponent(id),
    ensures
        ab@ == ba@,
{
    assert forall|id: u32| #[trigger] exponent_in(ab@, id) == exponent_in(ba@, id) by {
        assert(ab.exponent(id) == a.exponent(id) + b.exponent(id));
        assert(ba.exponent(id) == b.exponent(id) + a.exponent(id));
    }
    lemma_canonical_by_exponents(ab@, ba@);
}

/// Multiplication of monomials is associative: `(ab)c` and `a(bc)` are the
/// same monomial.
pub proof fn lemma_monomial_product_associates(
    a: Monomial,
    b: Monomial,
    c: Monomial,
    ab: Monomial,
    bc: Monomial,
    left: Monomial,
    right: Monomial,
)
    requires
        canonical_monomial(left@),
        canonical_monomial(right@),
        forall|id: u32| #[trigger] ab.exponent(id) == a.exponent(id) + b.exponent(id),
        forall|id: u32| #[trigger] bc.exponent(id) == b.exponent(id) + c.exponent(id),
        forall|id: u32| #[trigger] left.exponent(id) == ab.exponent(id) + c.exponent(id),
        forall|id: u32| #[trigger] right.exponent(id) == a.exponent(id) + bc.exponent(id),
    ensures
        left@ == right@,
{
    assert forall|id: u32| #[trigger] exponent_in(left@, id) == exponent_in(right@, id) by {
        assert(left.exponent(id) == ab.exponent(id) + c.exponent(id));
        assert(right.exponent(id) == a.exponent(id) + bc.exponent(id));
        assert(ab.exponent(id) == a.exponent(id) + b.exponent(id));
        assert(bc.exponent(id) == b.exponent(id) + c.exponent(id));
    }
    lemma_canonical_by_exponents(left@, right@);
}

/// Product of interned variables with integer exponents, kept sorted by
/// variable id.
#[derive(Debug, PartialEq, Eq, Hash, PartialOrd, Ord)]
pub struct Monomial(Vec<(u32, i32)>);

impl Clone for Monomial {
    fn clone(&self) -> (out: Self)
        ensures
            out@ == self@,
    {
        proof {
            use_type_invariant(self);
        }
        let mut v: Vec<(u32, i32)> = Vec::new();
        let mut i: usize = 0;
        while i < self.0.len()
            invariant
                i <= self.0@.len(),
                v@ == self.0@.take(i as int),
            decreases self.0@.len() - i,
        {
            v.push(self.0[i]);
            proof {
                assert(self.0@.take(i + 1) =~= self.0@.take(i as int).push(self.0@[i as int]));
            }
            i += 1;
        }
        proof {
            assert(self.0@.take(self.0@.len() as int) =~= self.0@);
        }
        Monomial(v)
    }
}

impl View for Monomial {
    type V = Seq<(u32, i32)>;

    closed spec fn view(&self) -> Seq<(u32, i32)> {
        self.0@
    }
}

impl Monomial {
    #[verifier::type_invariant]
    spec fn is_canonical(&self) -> bool {
        canonical_monomial(self.0@)
    }

    /// The exponent of variable `id`.
    pub open spec fn exponent(&self, id: u32) -> int {
        exponent_in(self@, id)
    }

    pub fn one() -> (m: Self)
        ensures
            m@ == Seq::<(u32, i32)>::empty(),
            forall|id: u32| m.exponent(id) == 0,
    {
        Monomial(Vec::new())
    }

    /// The single variable `name`, registered in `table` if it is new.
    pub fn variable(table: &mut SymbolTable, name: &str) -> (m: Self)
        requires
            old(table).well_formed(),
            old(table)@.len() < u32::MAX,
        ensures
            final(table).well_formed(),
            old(table)@.contains(name@) ==> final(table)@ == old(table)@,
            !old(table)@.contains(name@) ==> final(table)@ == old(table)@.push(name@),
            m@.len() == 1,
            m@[0].1 == 1,
            m@[0].0 < final(table)@.len(),
            final(table)@[m@[0].0 as int] == name@,
            forall|j: int| 0 <= j < final(table)@.len() && final(table)@[j] == name@ ==> j == m@[0].0,
    {
        let id = table.intern(name);
        let mut v: Vec<(u32, i32)> = Vec::new();
        v.push((id, 1));
        Monomial(v)
    }

    /// Text form with the table's names: `1`, `name` or `name^e`, joined by `*`.
    pub fn text(&self, table: &SymbolTable) -> (out: String)
        requires
            forall|i: int| 0 <= i < self@.len() ==> (#[trigger] self@[i]).0 < table@.len(),
        ensures
            out@ == monomial_text(table@, self@),
    {
        proof {
            use_type_invariant(self);
        }
        if self.0.len() == 0 {
            return string_from("1");
        }
        let mut out = String::new();
        let mut i: usize = 0;
        while i < self.0.len()
            invariant
                i <= self.0@.len(),
                self.0@ == self@,
                canonical_monomial(self@),
                forall|j: int| 0 <= j < self@.len() ==> (#[trigger] self@[j]).0 < table@.len(),
                out@ == factors_text(table@, self@.take(i as int)),
            decreases self.0@.len() - i,
        {
            let (id, e) = self.0[i];
            if i > 0 {
                push_char(&mut out, '*');
            }
            let name = table.symbol_name(id);
            push_string(&mut out, &name);
            if e != 1 {
                push_char(&mut out, '^');
                push_i128(&mut out, e as i128);
            }
            proof {
                let next = self@.take(i + 1);
                assert(next.drop_last() =~= self@.take(i as int));
                assert(next.last() == self@[i as int]);
                if i == 0 {
                    assert(next.len() == 1);
                    assert(next[0] == self@[0]);
                }
                reveal_strlit("*");
                reveal_strlit("^");
            }
            i += 1;
        }
        proof {
            assert(self@.take(self@.len() as int) =~= self@);
        }
        out
    }

    /// Product: exponents of equal variables add, and variables whose
    /// exponent becomes zero are dropped.
    pub fn mul(&self, rhs: &Self) -> (out: Self)
        requires
            forall|id: u32| i32::MIN <= #[trigger] self.exponent(id) + rhs.exponent(id) <= i32::MAX,
        ensures
            canonical_monomial(out@),
            forall|id: u32| #[trigger] out.exponent(id) == self.exponent(id) + rhs.exponent(id),
    {
        proof {
            use_type_invariant(self);
            use_type_invariant(rhs);
        }
        let a = &self.0;
        let b = &rhs.0;
        let mut out: Vec<(u32, i32)> = Vec::new();
        let mut left: usize = 0;
        let mut right: usize = 0;
        proof {
            assert(a@.take(0) =~= Seq::<(u32, i32)>::empty());
            assert(b@.take(0) =~= Seq::<(u32, i32)>::empty());
        }
        while left < a.len() || right < b.len()
            invariant
                left <= a@.len(),
                right <= b@.len(),
                a@ == self@,
                b@ == rhs@,
                canonical_monomial(a@),
                canonical_monomial(b@),
                forall|id: u32| i32::MIN <= #[trigger] self.exponent(id) + rhs.exponent(id) <= i32::MAX,
                canonical_monomial(out@),
                forall|j: int| 0 <= j < out@.len() ==> (left < a@.len() ==> (#[trigger] out@[j]).0 < a@[left as int].0)
                    && (right < b@.len() ==> out@[j].0 < b@[right as int].0),
                forall|id: u32| #[trigger] exponent_in(out@, id) == exponent_in(a@.take(left as int), id)
                    + exponent_in(b@.take(right as int), id),
            decreases a@.len() - left + b@.len() - right,
        {
            let ghost before = out@;
            if left < a.len() && (right == b.len() || a[left].0 < b[right].0) {
                out.push(a[left]);
                proof {
                    assert(a@.take(left + 1).drop_last() =~= a@.take(left as int));
                    assert(a@.take(left + 1).last() == a@[left as int]);
                    assert(out@.drop_last() =~= before);
                    assert(out@.last() == a@[left as int]);
                    assert forall|x: u32| #[trigger] exponent_in(out@, x) == exponent_in(a@.take(left + 1), x)
                        + exponent_in(b@.take(right as int), x) by {
                        assert(exponent_in(out@, x) == exponent_in(before, x) + (if a@[left as int].0 == x { a@[left as int].1 as int } else { 0 }));
                        assert(exponent_in(a@.take(left + 1), x) == exponent_in(a@.take(left as int), x) + (if a@[left as int].0 == x { a@[left as int].1 as int } else { 0 }));
                    }
                    assert forall|j: int| 0 <= j < out@.len() implies (left + 1 < a@.len() ==> (#[trigger] out@[j]).0 < a@[left + 1].0)
                        && (right < b@.len() ==> out@[j].0 < b@[right as int].0) by {
                        if j < before.len() {
                            assert(out@[j] == before[j]);
                        }
                    }
                }
                left += 1;
            } else if right < b.len() && (left == a.len() || b[right].0 < a[left].0) {
                out.push(b[right]);
                proof {
                    assert(b@.take(right + 1).drop_last() =~= b@.take(right as int));
                    assert(b@.take(right + 1).last() == b@[right as int]);
                    assert(out@.drop_last() =~= before);
                    assert(out@.last() == b@[right as int]);
                    assert forall|x: u32| #[trigger] exponent_in(out@, x) == exponent_in(a@.take(left as int), x)
                        + exponent_in(b@.take(right + 1), x) by {
                        assert(exponent_in(out@, x) == exponent_in(before, x) + (if b@[right as int].0 == x { b@[right as int].1 as int } else { 0 }));
                        assert(exponent_in(b@.take(right + 1), x) == exponent_in(b@.take(right as int), x) + (if b@[right as int].0 == x { b@[right as int].1 as int } else { 0 }));
                    }
                    assert forall|j: int| 0 <= j < out@.len() implies (left < a@.len() ==> (#[trigger] out@[j]).0 < a@[left as int].0)
                        && (right + 1 < b@.len() ==> out@[j].0 < b@[right + 1].0) by {
                        if j < before.len() {
                            assert(out@[j] == before[j]);
                        }
                    }
                }
                right += 1;
            } else {
                let id = a[left].0;
                proof {
                    lemma_exponent_at(a@, left as int);
                    lemma_exponent_at(b@, right as int);
                    assert(self.exponent(id) + rhs.exponent(id) == a@[left as int].1 + b@[right as int].1);
                }
                let exp = a[left].1 + b[right].1;
                if exp != 0 {
                    out.push((id, exp));
                }
                proof {
                    assert(a@.take(left + 1).drop_last() =~= a@.take(left as int));
                    assert(b@.take(right + 1).drop_last() =~= b@.take(right as int));
                    assert(a@.take(left + 1).last() == a@[left as int]);
                    assert(b@.take(right + 1).last() == b@[right as int]);
                    if exp != 0 {
                        assert(out@.drop_last() =~= before);
                        assert(out@.last() == (id, exp));
                    }
                    assert forall|x: u32| #[trigger] exponent_in(out@, x) == exponent_in(a@.take(left + 1), x)
                        + exponent_in(b@.take(right + 1), x) by {
                        assert(exponent_in(a@.take(left + 1), x) == exponent_in(a@.take(left as int), x) + (if a@[left as int].0 == x { a@[left as int].1 as int } else { 0 }));
                        assert(exponent_in(b@.take(right + 1), x) == exponent_in(b@.take(right as int), x) + (if b@[right as int].0 == x { b@[right as int].1 as int } else { 0 }));
                        if exp != 0 {
                            assert(exponent_in(out@, x) == exponent_in(before, x) + (if id == x { exp as int } else { 0 }));
                        }
                    }
                    assert forall|j: int| 0 <= j < out@.len() implies (left + 1 < a@.len() ==> (#[trigger] out@[j]).0 < a@[left + 1].0)
                        && (right + 1 < b@.len() ==> out@[j].0 < b@[right + 1].0) by {
                        if j < before.len() {
                            assert(out@[j] == before[j]);
                        }
                    }
                }
                left += 1;
                right += 1;
            }
        }
        proof {
            assert(a@.take(a@.len() as int) =~= a@);
            assert(b@.take(b@.len() as int) =~= b@);
        }
        Monomial(out)
    }
}

} // verus!
