//! Parsers of the comma-separated values given on the command line (twist
//! degrees of split bundles, equivariant weights) and the choice of formula
//! expansion they lead to.

use vstd::prelude::*;
use vstd::string::*;
use crate::foundation::algebra::{digits_value, is_ascii_digit, lemma_digits_value_monotone};
use crate::error::GwError;
use crate::formula::expansion::FormulaExpansion;
use crate::foundation::rational::{same_value, Rational};
use crate::text::{decimal, push_char, push_str, push_string, push_usize, string_from};

verus! {

/// `char::is_whitespace`: the characters with the Unicode `White_Space`
/// property.
pub open spec fn is_white_space(c: char) -> bool {
    ||| c == '\t' || c == '\n' || c == '\u{0B}' || c == '\u{0C}' || c == '\r' || c == ' '
    ||| c == '\u{85}' || c == '\u{A0}' || c == '\u{1680}'
    ||| ('\u{2000}' <= c && c <= '\u{200A}')
    ||| c == '\u{2028}' || c == '\u{2029}' || c == '\u{202F}' || c == '\u{205F}' || c == '\u{3000}'
}

/// `str::trim_start`.
pub open spec fn trim_start(s: Seq<char>) -> Seq<char>
    decreases s.len(),
{
    if s.len() > 0 && is_white_space(s[0]) {
        trim_start(s.drop_first())
    } else {
        s
    }
}

/// `str::trim_end`.
pub open spec fn trim_end(s: Seq<char>) -> Seq<char>
    decreases s.len(),
{
    if s.len() > 0 && is_white_space(s.last()) {
        trim_end(s.drop_last())
    } else {
        s
    }
}

/// `str::trim`: leading and trailing white space removed.
pub open spec fn trimmed(s: Seq<char>) -> Seq<char> {
    trim_end(trim_start(s))
}

/// `str::split(',')`: the pieces between commas, empty ones included.
pub open spec fn split_commas(s: Seq<char>) -> Seq<Seq<char>>
    decreases s.len(),
{
    if s.len() == 0 {
        seq![Seq::empty()]
    } else {
        let parts = split_commas(s.drop_last());
        if s.last() == ',' {
            parts.push(Seq::empty())
        } else {
            parts.update(parts.len() - 1, parts.last().push(s.last()))
        }
    }
}

/// The digits after an optional leading sign.
pub open spec fn sign_stripped(s: Seq<char>) -> Seq<char> {
    if s.len() > 0 && (s[0] == '-' || s[0] == '+') {
        s.drop_first()
    } else {
        s
    }
}

pub open spec fn all_digits(d: Seq<char>) -> bool {
    forall|i: int| 0 <= i < d.len() ==> is_ascii_digit(#[trigger] d[i])
}

/// The signed value of a sign and digits.
pub open spec fn signed_value(s: Seq<char>) -> int {
    if s.len() > 0 && s[0] == '-' {
        -(digits_value(sign_stripped(s)) as int)
    } else {
        digits_value(sign_stripped(s)) as int
    }
}

/// Integer parsing as `FromStr` does it for a signed type with values in
/// `lo..=hi`: an optional sign, then at least one ASCII digit.
pub open spec fn spec_parse_int(s: Seq<char>, lo: int, hi: int) -> Option<int> {
    if sign_stripped(s).len() > 0 && all_digits(sign_stripped(s)) && lo <= signed_value(s) <= hi {
        Some(signed_value(s))
    } else {
        None
    }
}

proof fn lemma_split_nonempty(s: Seq<char>)
    ensures
        split_commas(s).len() >= 1,
    decreases s.len(),
{
    if s.len() > 0 {
        lemma_split_nonempty(s.drop_last());
    }
}

/// The views of a list of strings.
pub open spec fn string_views(v: Seq<String>) -> Seq<Seq<char>> {
    Seq::new(v.len(), |i: int| v[i]@)
}

/// The comma-separated pieces of `raw`.
pub fn split_commas_exec(raw: &str) -> (parts: Vec<String>)
    ensures
        string_views(parts@) == split_commas(raw@),
{
    let n = raw.unicode_len();
    let mut parts: Vec<String> = Vec::new();
    let mut current = String::new();
    let mut i: usize = 0;
    proof {
        assert(raw@.take(0) =~= Seq::<char>::empty());
        assert(string_views(parts@).push(current@) =~= split_commas(raw@.take(0)));
    }
    while i < n
        invariant
            i <= n,
            n == raw@.len(),
            string_views(parts@).push(current@) == split_commas(raw@.take(i as int)),
        decreases n - i,
    {
        let c = raw.get_char(i);
        let ghost before = split_commas(raw@.take(i as int));
        proof {
            assert(raw@.take(i + 1).drop_last() =~= raw@.take(i as int));
            assert(raw@.take(i + 1).last() == c);
            lemma_split_nonempty(raw@.take(i as int));
        }
        if c == ',' {
            let finished = current;
            parts.push(finished);
            current = String::new();
            proof {
                assert(string_views(parts@) =~= before);
                assert(string_views(parts@).push(current@) =~= before.push(Seq::empty()));
            }
        } else {
            let ghost old_parts = parts@;
            let ghost old_current = current@;
            push_char(&mut current, c);
            proof {
                assert(string_views(old_parts).push(old_current) == before);
                assert(string_views(parts@).push(current@) =~= before.update(before.len() - 1, before.last().push(c)));
            }
        }
        i = i + 1;
    }
    parts.push(current);
    proof {
        assert(raw@.take(n as int) =~= raw@);
        assert(string_views(parts@) =~= split_commas(raw@));
    }
    parts
}

fn white_space(c: char) -> (b: bool)
    ensures
        b == is_white_space(c),
{
    c == '\t' || c == '\n' || c == '\u{0B}' || c == '\u{0C}' || c == '\r' || c == ' ' || c == '\u{85}'
        || c == '\u{A0}' || c == '\u{1680}' || ('\u{2000}' <= c && c <= '\u{200A}') || c == '\u{2028}'
        || c == '\u{2029}' || c == '\u{202F}' || c == '\u{205F}' || c == '\u{3000}'
}

proof fn lemma_trim_start_skip(s: Seq<char>, a: int)
    requires
        0 <= a <= s.len(),
        forall|j: int| 0 <= j < a ==> is_white_space(#[trigger] s[j]),
        a == s.len() || !is_white_space(s[a]),
    ensures
        trim_start(s) == s.skip(a),
    decreases a,
{
    if a > 0 {
        let t = s.drop_first();
        assert forall|j: int| 0 <= j < a - 1 implies is_white_space(#[trigger] t[j]) by {
            assert(t[j] == s[j + 1]);
        }
        lemma_trim_start_skip(t, a - 1);
        assert(t.skip(a - 1) =~= s.skip(a));
    } else {
        assert(s.skip(0) =~= s);
    }
}

proof fn lemma_trim_end_take(s: Seq<char>, b: int)
    requires
        0 <= b <= s.len(),
        forall|j: int| b <= j < s.len() ==> is_white_space(#[trigger] s[j]),
        b == 0 || !is_white_space(s[b - 1]),
    ensures
        trim_end(s) == s.take(b),
    decreases s.len() - b,
{
    if b < s.len() {
        let t = s.drop_last();
        assert forall|j: int| b <= j < t.len() implies is_white_space(#[trigger] t[j]) by {
            assert(t[j] == s[j]);
        }
        lemma_trim_end_take(t, b);
        assert(t.take(b) =~= s.take(b));
    } else {
        assert(s.take(b) =~= s);
    }
}

/// `text` with leading and trailing white space removed.
pub fn trim(text: &str) -> (out: String)
    ensures
        out@ == trimmed(text@),
{
    let n = text.unicode_len();
    let mut a: usize = 0;
    while a < n && white_space(text.get_char(a))
        invariant
            a <= n,
            n == text@.len(),
            forall|j: int| 0 <= j < a ==> is_white_space(#[trigger] text@[j]),
        decreases n - a,
    {
        a = a + 1;
    }
    proof {
        lemma_trim_start_skip(text@, a as int);
    }
    let ghost rest = text@.skip(a as int);
    let mut b: usize = n;
    while b > a && white_space(text.get_char(b - 1))
        invariant
            a <= b <= n,
            n == text@.len(),
            rest == text@.skip(a as int),
            forall|j: int| b <= j < n ==> is_white_space(#[trigger] text@[j]),
        decreases b - a,
    {
        b = b - 1;
    }
    proof {
        assert forall|j: int| b - a <= j < rest.len() implies is_white_space(#[trigger] rest[j]) by {
            assert(rest[j] == text@[j + a]);
        }
        if b > a {
            assert(rest[b - a - 1] == text@[b - 1]);
        }
        lemma_trim_end_take(rest, b - a);
    }
    let mut out = String::new();
    let mut i: usize = a;
    while i < b
        invariant
            a <= i <= b,
            b <= n,
            n == text@.len(),
            out@ == text@.subrange(a as int, i as int),
        decreases b - i,
    {
        push_char(&mut out, text.get_char(i));
        proof {
            assert(text@.subrange(a as int, i + 1) =~= text@.subrange(a as int, i as int).push(text@[i as int]));
        }
        i = i + 1;
    }
    proof {
        assert(rest.take(b - a) =~= text@.subrange(a as int, b as int));
    }
    out
}

/// `i128::from_str`.
pub fn parse_i128(text: &str) -> (r: Option<i128>)
    ensures
        r matches Some(v) ==> spec_parse_int(text@, i128::MIN as int, i128::MAX as int) == Some(v as int),
        r is None ==> spec_parse_int(text@, i128::MIN as int, i128::MAX as int) is None,
{
    let n = text.unicode_len();
    let negative = n > 0 && text.get_char(0) == '-';
    let mut start: usize = 0;
    if n > 0 && (text.get_char(0) == '-' || text.get_char(0) == '+') {
        start = 1;
    }
    let ghost s = text@;
    let ghost d = sign_stripped(s);
    proof {
        assert(d =~= s.skip(start as int));
    }
    if start >= n {
        return None;
    }
    let limit: u128 = if negative { 170141183460469231731687303715884105728u128 } else { 170141183460469231731687303715884105727u128 };
    let mut value: u128 = 0;
    let mut i: usize = start;
    while i < n
        invariant
            start <= i <= n,
            start < n,
            n == s.len(),
            s == text@,
            negative == (s.len() > 0 && s[0] == '-'),
            d == sign_stripped(s),
            d == s.skip(start as int),
            forall|j: int| 0 <= j < i - start ==> is_ascii_digit(#[trigger] d[j]),
            value == digits_value(d.take(i - start)),
            value <= limit,
            limit == (if negative { i128::MAX as int + 1 } else { i128::MAX as int }),
        decreases n - i,
    {
        let c = text.get_char(i);
        assert(d[i - start] == c);
        if !('0' <= c && c <= '9') {
            proof {
                assert(!is_ascii_digit(d[i - start]));
                assert(!all_digits(d));
            }
            return None;
        }
        let digit = (c as u32 - '0' as u32) as u128;
        proof {
            assert(d.take(i + 1 - start).drop_last() =~= d.take(i - start));
            assert(d.take(i + 1 - start).last() == c);
            assert(digits_value(d.take(i + 1 - start)) == value * 10 + digit);
        }
        if value > (limit - digit) / 10 {
            proof {
                assert(value * 10 + digit > limit) by (nonlinear_arith)
                    requires
                        value > (limit - digit) / 10,
                        0 <= digit <= limit,
                ;
                if all_digits(d) {
                    lemma_digits_value_monotone(d, i + 1 - start);
                }
            }
            return None;
        }
        proof {
            assert(value * 10 + digit <= limit) by (nonlinear_arith)
                requires
                    value <= (limit - digit) / 10,
                    0 <= digit <= 9,
                    digit <= limit,
            ;
        }
        value = value * 10 + digit;
        i = i + 1;
    }
    proof {
        assert(d.take(n - start) =~= d);
    }
    if negative {
        if value == 170141183460469231731687303715884105728u128 {
            Some(i128::MIN)
        } else {
            Some(-(value as i128))
        }
    } else {
        Some(value as i128)
    }
}

/// The first error among per-piece results, if any.
pub open spec fn first_error<T>(results: Seq<Result<T, Seq<char>>>) -> Option<Seq<char>>
    decreases results.len(),
{
    if results.len() == 0 {
        None
    } else {
        match results[0] {
            Err(m) => Some(m),
            Ok(_) => first_error(results.drop_first()),
        }
    }
}

proof fn lemma_first_error_push<T>(results: Seq<Result<T, Seq<char>>>, next: Result<T, Seq<char>>)
    ensures
        first_error(results) is None ==> first_error(results.push(next)) == (match next {
            Err(m) => Some(m),
            Ok(_) => None::<Seq<char>>,
        }),
        first_error(results) is Some ==> first_error(results.push(next)) == first_error(results),
    decreases results.len(),
{
    if results.len() > 0 {
        lemma_first_error_push(results.drop_first(), next);
        assert(results.push(next).drop_first() =~= results.drop_first().push(next));
    } else {
        let pushed = results.push(next);
        assert(pushed[0] == next);
        assert(pushed.drop_first() =~= Seq::<Result<T, Seq<char>>>::empty());
        assert(first_error(pushed.drop_first()) is None);
    }
}

/// `isize::from_str`.
fn parse_isize(text: &str) -> (r: Option<isize>)
    ensures
        r matches Some(v) ==> spec_parse_int(text@, isize::MIN as int, isize::MAX as int) == Some(v as int),
        r is None ==> spec_parse_int(text@, isize::MIN as int, isize::MAX as int) is None,
{
    match parse_i128(text) {
        Some(v) => {
            if v < isize::MIN as i128 || v > isize::MAX as i128 {
                None
            } else {
                Some(v as isize)
            }
        },
        None => None,
    }
}

/// One comma-separated piece of a `--twist` value: the absolute value of
/// its negative degree, or the error message.
pub open spec fn negative_twist_piece(piece: Seq<char>, raw: Seq<char>) -> Result<nat, Seq<char>> {
    let t = trimmed(piece);
    if t.len() == 0 {
        Err("empty twist degree in --twist value `"@ + raw + "`"@)
    } else {
        match spec_parse_int(t, isize::MIN as int, isize::MAX as int) {
            None => Err("invalid twist degree `"@ + t + "` in --twist"@),
            Some(d) => if d >= 0 {
                Err("negative split bundles must be written with negative degrees, e.g. `--twist -3` or `--twist -1,-1`; got `"@ + t + "`"@)
            } else if d == isize::MIN as int {
                Err("invalid twist degree `"@ + t + "` in --twist"@)
            } else {
                Ok((-d) as nat)
            },
        }
    }
}

pub open spec fn negative_twist_results(raw: Seq<char>) -> Seq<Result<nat, Seq<char>>> {
    Seq::new(split_commas(raw).len(), |i: int| negative_twist_piece(split_commas(raw)[i], raw))
}

fn negative_twist_value(piece: &String, raw: &str) -> (r: Result<usize, String>)
    ensures
        r matches Ok(v) ==> negative_twist_piece(piece@, raw@) == Ok::<nat, Seq<char>>(v as nat),
        r matches Err(m) ==> negative_twist_piece(piece@, raw@) == Err::<nat, Seq<char>>(m@),
{
    let t = trim(piece.as_str());
    if t.unicode_len() == 0 {
        let mut m = string_from("empty twist degree in --twist value `");
        push_str(&mut m, raw);
        push_str(&mut m, "`");
        return Err(m);
    }
    match parse_isize(t.as_str()) {
        None => {
            let mut m = string_from("invalid twist degree `");
            push_string(&mut m, &t);
            push_str(&mut m, "` in --twist");
            Err(m)
        },
        Some(d) => {
            if d >= 0 {
                let mut m = string_from(
                    "negative split bundles must be written with negative degrees, e.g. `--twist -3` or `--twist -1,-1`; got `",
                );
                push_string(&mut m, &t);
                push_str(&mut m, "`");
                Err(m)
            } else if d == isize::MIN {
                let mut m = string_from("invalid twist degree `");
                push_string(&mut m, &t);
                push_str(&mut m, "` in --twist");
                Err(m)
            } else {
                Ok((-d) as usize)
            }
        },
    }
}

/// Parses a `--twist` value such as `-1,-1`: comma-separated negative
/// degrees of a split bundle, returned as their absolute values.
pub fn parse_negative_twist(raw: &str) -> (r: Result<Vec<usize>, GwError>)
    ensures
        r is Err <==> first_error(negative_twist_results(raw@)) is Some,
        r matches Err(e) ==> (e matches GwError::ParseError(m)
            && first_error(negative_twist_results(raw@)) == Some(m@)),
        r matches Ok(v) ==> {
            &&& v@.len() == split_commas(raw@).len()
            &&& forall|i: int| 0 <= i < v@.len()
                ==> negative_twist_results(raw@)[i] == Ok::<nat, Seq<char>>(#[trigger] v@[i] as nat)
        },
{
    let parts = split_commas_exec(raw);
    let ghost results = negative_twist_results(raw@);
    let mut out: Vec<usize> = Vec::new();
    let mut i: usize = 0;
    while i < parts.len()
        invariant
            i <= parts@.len(),
            string_views(parts@) == split_commas(raw@),
            results == negative_twist_results(raw@),
            results.len() == parts@.len(),
            first_error(results.take(i as int)) is None,
            out@.len() == i,
            forall|j: int| 0 <= j < i ==> results[j] == Ok::<nat, Seq<char>>(#[trigger] out@[j] as nat),
        decreases parts@.len() - i,
    {
        let value = negative_twist_value(&parts[i], raw);
        proof {
            assert(string_views(parts@)[i as int] == parts@[i as int]@);
            assert(results[i as int] == negative_twist_piece(parts@[i as int]@, raw@));
            assert(results.take(i + 1) =~= results.take(i as int).push(results[i as int]));
            lemma_first_error_push(results.take(i as int), results[i as int]);
        }
        match value {
            Ok(v) => {
                out.push(v);
            },
            Err(m) => {
                proof {
                    lemma_first_error_take(results, i as int + 1);
                }
                return Err(GwError::ParseError(m));
            },
        }
        i = i + 1;
    }
    proof {
        assert(results.take(i as int) =~= results);
    }
    Ok(out)
}

/// An error among the first `k` results is the first error of all of them.
proof fn lemma_first_error_take<T>(results: Seq<Result<T, Seq<char>>>, k: int)
    requires
        0 <= k <= results.len(),
        first_error(results.take(k)) is Some,
    ensures
        first_error(results) == first_error(results.take(k)),
    decreases k,
{
    if k > 0 && results.len() > 0 {
        match results[0] {
            Err(_) => {
                assert(results.take(k)[0] == results[0]);
            },
            Ok(_) => {
                assert(results.take(k)[0] == results[0]);
                assert(results.take(k).drop_first() =~= results.drop_first().take(k - 1));
                lemma_first_error_take(results.drop_first(), k - 1);
            },
        }
    }
}

/// One bundle twist: a nonnegative integer that fits in `usize`, or the
/// error message.
pub open spec fn bundle_twist_value(v: int) -> Result<nat, Seq<char>> {
    if v < 0 {
        Err("bundle twists must already be normalized as nonnegative integers with minimum 0; tensoring E changes the labelled xi class and xi.beta coordinate, so normalize the presentation explicitly"@)
    } else if v > usize::MAX {
        Err("bundle twist does not fit in usize"@)
    } else {
        Ok(v as nat)
    }
}

pub open spec fn bundle_twist_results(values: Seq<i128>) -> Seq<Result<nat, Seq<char>>> {
    Seq::new(values.len(), |i: int| bundle_twist_value(values[i] as int))
}

/// Checks that bundle twists are normalized: nonempty, nonnegative, with
/// minimum zero.
pub fn canonical_bundle_twist_values(values: &[i128]) -> (r: Result<Vec<usize>, GwError>)
    ensures
        values@.len() == 0 ==> (r matches Err(GwError::ParseError(m)) && m@ == "bundle twists must be nonempty"@),
        values@.len() > 0 && first_error(bundle_twist_results(values@)) is Some
            ==> (r matches Err(GwError::ParseError(m)) && first_error(bundle_twist_results(values@)) == Some(m@)),
        values@.len() > 0 && first_error(bundle_twist_results(values@)) is None
            && !(exists|i: int| 0 <= i < values@.len() && values@[i] == 0)
            ==> (r matches Err(GwError::ParseError(m)) && m@ == "bundle twists must already be normalized with minimum 0; tensoring E changes the labelled xi class and xi.beta coordinate, so normalize the presentation explicitly"@),
        values@.len() > 0 && first_error(bundle_twist_results(values@)) is None
            && (exists|i: int| 0 <= i < values@.len() && values@[i] == 0)
            ==> (r matches Ok(t) && t@.len() == values@.len()
                && forall|i: int| 0 <= i < values@.len() ==> (#[trigger] t@[i]) as int == values@[i] as int),
{
    if values.len() == 0 {
        return Err(GwError::ParseError(string_from("bundle twists must be nonempty")));
    }
    let ghost results = bundle_twist_results(values@);
    let mut out: Vec<usize> = Vec::new();
    let mut has_zero = false;
    let mut i: usize = 0;
    while i < values.len()
        invariant
            i <= values@.len(),
            results == bundle_twist_results(values@),
            first_error(results.take(i as int)) is None,
            out@.len() == i,
            forall|j: int| 0 <= j < i ==> (#[trigger] out@[j]) as int == values@[j] as int,
            has_zero == exists|j: int| 0 <= j < i && values@[j] == 0,
        decreases values@.len() - i,
    {
        let v = values[i];
        proof {
            assert(results.take(i + 1) =~= results.take(i as int).push(results[i as int]));
            lemma_first_error_push(results.take(i as int), results[i as int]);
        }
        if v < 0 {
            proof {
                lemma_first_error_take(results, i as int + 1);
            }
            return Err(GwError::ParseError(string_from(
                "bundle twists must already be normalized as nonnegative integers with minimum 0; tensoring E changes the labelled xi class and xi.beta coordinate, so normalize the presentation explicitly",
            )));
        }
        if v > usize::MAX as i128 {
            proof {
                lemma_first_error_take(results, i as int + 1);
            }
            return Err(GwError::ParseError(string_from("bundle twist does not fit in usize")));
        }
        out.push(v as usize);
        if v == 0 {
            has_zero = true;
        }
        i = i + 1;
    }
    proof {
        assert(results.take(i as int) =~= results);
    }
    if !has_zero {
        return Err(GwError::ParseError(string_from(
            "bundle twists must already be normalized with minimum 0; tensoring E changes the labelled xi class and xi.beta coordinate, so normalize the presentation explicitly",
        )));
    }
    Ok(out)
}

/// One piece of a list of integers: its value, or the error message
/// naming the piece as written and the whole value.
pub open spec fn integer_piece(piece: Seq<char>, raw: Seq<char>, what: Seq<char>) -> Result<int, Seq<char>> {
    match spec_parse_int(trimmed(piece), i128::MIN as int, i128::MAX as int) {
        Some(v) => Ok(v),
        None => Err("invalid "@ + what + " `"@ + piece + "` in `"@ + raw + "`"@),
    }
}

pub open spec fn integer_results(raw: Seq<char>, what: Seq<char>) -> Seq<Result<int, Seq<char>>> {
    Seq::new(split_commas(raw).len(), |i: int| integer_piece(split_commas(raw)[i], raw, what))
}

/// The comma-separated integers of `raw`; a piece that is not an `i128` is
/// reported as an invalid `what`.
fn parse_integer_list(raw: &str, what: &str) -> (r: Result<Vec<i128>, String>)
    ensures
        r is Err <==> first_error(integer_results(raw@, what@)) is Some,
        r matches Err(m) ==> first_error(integer_results(raw@, what@)) == Some(m@),
        r matches Ok(v) ==> {
            &&& v@.len() == split_commas(raw@).len()
            &&& forall|i: int| 0 <= i < v@.len()
                ==> integer_results(raw@, what@)[i] == Ok::<int, Seq<char>>(#[trigger] v@[i] as int)
        },
{
    let parts = split_commas_exec(raw);
    let ghost results = integer_results(raw@, what@);
    let mut out: Vec<i128> = Vec::new();
    let mut i: usize = 0;
    while i < parts.len()
        invariant
            i <= parts@.len(),
            string_views(parts@) == split_commas(raw@),
            results == integer_results(raw@, what@),
            results.len() == parts@.len(),
            first_error(results.take(i as int)) is None,
            out@.len() == i,
            forall|j: int| 0 <= j < i ==> results[j] == Ok::<int, Seq<char>>(#[trigger] out@[j] as int),
        decreases parts@.len() - i,
    {
        let piece = &parts[i];
        let t = trim(piece.as_str());
        proof {
            assert(string_views(parts@)[i as int] == piece@);
            assert(results[i as int] == integer_piece(piece@, raw@, what@));
            assert(results.take(i + 1) =~= results.take(i as int).push(results[i as int]));
            lemma_first_error_push(results.take(i as int), results[i as int]);
        }
        match parse_i128(t.as_str()) {
            Some(v) => {
                out.push(v);
            },
            None => {
                let mut m = string_from("invalid ");
                push_str(&mut m, what);
                push_str(&mut m, " `");
                push_string(&mut m, piece);
                push_str(&mut m, "` in `");
                push_str(&mut m, raw);
                push_str(&mut m, "`");
                proof {
                    lemma_first_error_take(results, i as int + 1);
                    assert(m@ =~= "invalid "@ + what@ + " `"@ + piece@ + "` in `"@ + raw@ + "`"@);
                }
                return Err(m);
            },
        }
        i = i + 1;
    }
    proof {
        assert(results.take(i as int) =~= results);
    }
    Ok(out)
}

/// Parses comma-separated bundle twists such as `0,1,3` and checks that
/// they are normalized.
pub fn parse_canonical_bundle_twists(raw: &str) -> (r: Result<Vec<usize>, GwError>)
    ensures
        first_error(integer_results(raw@, "bundle twist"@)) matches Some(m)
            ==> r matches Err(GwError::ParseError(e)) && e@ == m,
        first_error(integer_results(raw@, "bundle twist"@)) is None ==> {
            let values = parsed_integers(raw@, "bundle twist"@);
            &&& first_error(bundle_twist_results_int(values)) matches Some(m)
                ==> r matches Err(GwError::ParseError(e)) && e@ == m
            &&& first_error(bundle_twist_results_int(values)) is None
                && !(exists|i: int| 0 <= i < values.len() && values[i] == 0)
                ==> (r matches Err(GwError::ParseError(m)) && m@ == "bundle twists must already be normalized with minimum 0; tensoring E changes the labelled xi class and xi.beta coordinate, so normalize the presentation explicitly"@)
            &&& first_error(bundle_twist_results_int(values)) is None
                && (exists|i: int| 0 <= i < values.len() && values[i] == 0)
                ==> (r matches Ok(t) && t@.len() == values.len()
                    && forall|i: int| 0 <= i < values.len() ==> (#[trigger] t@[i]) as int == values[i])
        },
{
    proof {
        reveal_strlit("bundle twist");
    }
    match parse_integer_list(raw, "bundle twist") {
        Err(m) => Err(GwError::ParseError(m)),
        Ok(values) => {
            proof {
                lemma_split_nonempty(raw@);
                let expected = parsed_integers(raw@, "bundle twist"@);
                assert forall|i: int| 0 <= i < values@.len() implies (#[trigger] values@[i]) as int == expected[i] by {
                    assert(integer_results(raw@, "bundle twist"@)[i] == Ok::<int, Seq<char>>(values@[i] as int));
                }
                assert(bundle_twist_results(values@) =~= bundle_twist_results_int(expected));
                if exists|i: int| 0 <= i < expected.len() && expected[i] == 0 {
                    let i = choose|i: int| 0 <= i < expected.len() && expected[i] == 0;
                    assert(values@[i] as int == expected[i]);
                }
                if exists|i: int| 0 <= i < values@.len() && values@[i] == 0 {
                    let i = choose|i: int| 0 <= i < values@.len() && values@[i] == 0;
                    assert(values@[i] as int == expected[i]);
                }
            }
            canonical_bundle_twist_values(values.as_slice())
        },
    }
}

/// The values of the pieces, when they all parse.
pub open spec fn parsed_integers(raw: Seq<char>, what: Seq<char>) -> Seq<int> {
    Seq::new(split_commas(raw).len(), |i: int| integer_results(raw, what)[i]->Ok_0)
}

pub open spec fn bundle_twist_results_int(values: Seq<int>) -> Seq<Result<nat, Seq<char>>> {
    Seq::new(values.len(), |i: int| bundle_twist_value(values[i]))
}

/// Parses `expected` comma-separated integer weights.
pub fn parse_integer_weights(raw: &str, expected: usize) -> (r: Result<Vec<Rational>, GwError>)
    ensures
        first_error(integer_results(raw@, "integer weight"@)) matches Some(m)
            ==> r matches Err(GwError::ParseError(e)) && e@ == m,
        first_error(integer_results(raw@, "integer weight"@)) is None && split_commas(raw@).len() != expected
            ==> (r matches Err(GwError::ParseError(m)) && m@ == "expected "@ + decimal(expected as nat)
                + " comma-separated weights, got "@ + decimal(split_commas(raw@).len())),
        first_error(integer_results(raw@, "integer weight"@)) is None && split_commas(raw@).len() == expected
            ==> (r matches Ok(w) && w@.len() == expected
                && forall|i: int| 0 <= i < expected
                    ==> same_value((#[trigger] w@[i])@, (parsed_integers(raw@, "integer weight"@)[i], 1int))),
{
    match parse_integer_list(raw, "integer weight") {
        Err(m) => Err(GwError::ParseError(m)),
        Ok(values) => {
            if values.len() != expected {
                let mut m = string_from("expected ");
                push_usize(&mut m, expected);
                push_str(&mut m, " comma-separated weights, got ");
                push_usize(&mut m, values.len());
                proof {
                    assert(m@ =~= "expected "@ + decimal(expected as nat) + " comma-separated weights, got "@ + decimal(split_commas(raw@).len()));
                }
                return Err(GwError::ParseError(m));
            }
            let mut weights: Vec<Rational> = Vec::new();
            let mut i: usize = 0;
            while i < values.len()
                invariant
                    i <= values@.len(),
                    values@.len() == split_commas(raw@).len(),
                    forall|j: int| 0 <= j < values@.len()
                        ==> integer_results(raw@, "integer weight"@)[j] == Ok::<int, Seq<char>>(#[trigger] values@[j] as int),
                    weights@.len() == i,
                    forall|j: int| 0 <= j < i ==> same_value((#[trigger] weights@[j])@, (values@[j] as int, 1int)),
                decreases values@.len() - i,
            {
                weights.push(Rational::from_i128(values[i]));
                i = i + 1;
            }
            proof {
                assert forall|i: int| 0 <= i < expected
                    implies same_value((#[trigger] weights@[i])@, (parsed_integers(raw@, "integer weight"@)[i], 1int)) by {
                    assert(integer_results(raw@, "integer weight"@)[i] == Ok::<int, Seq<char>>(values@[i] as int));
                    assert(parsed_integers(raw@, "integer weight"@)[i] == values@[i] as int);
                }
            }
            Ok(weights)
        },
    }
}

/// `str::split_once('/')`: the text before and after the first slash.
pub open spec fn split_slash(t: Seq<char>) -> Option<(Seq<char>, Seq<char>)>
    decreases t.len(),
{
    if t.len() == 0 {
        None
    } else if t[0] == '/' {
        Some((Seq::empty(), t.drop_first()))
    } else {
        match split_slash(t.drop_first()) {
            Some((a, b)) => Some((seq![t[0]] + a, b)),
            None => None,
        }
    }
}

proof fn lemma_split_slash_at(t: Seq<char>, k: int)
    requires
        0 <= k <= t.len(),
        forall|j: int| 0 <= j < k ==> t[j] != '/',
    ensures
        k < t.len() && t[k] == '/' ==> split_slash(t) == Some((t.take(k), t.skip(k + 1))),
        k == t.len() ==> split_slash(t) is None,
    decreases k,
{
    if k > 0 {
        let rest = t.drop_first();
        assert forall|j: int| 0 <= j < k - 1 implies rest[j] != '/' by {
            assert(rest[j] == t[j + 1]);
        }
        lemma_split_slash_at(rest, k - 1);
        assert(t[0] != '/');
        if k < t.len() && t[k] == '/' {
            assert(rest[k - 1] == t[k]);
            assert(seq![t[0]] + rest.take(k - 1) =~= t.take(k));
            assert(rest.skip(k) =~= t.skip(k + 1));
        }
    } else {
        if t.len() > 0 && t[0] == '/' {
            assert(t.take(0) =~= Seq::<char>::empty());
            assert(t.skip(1) =~= t.drop_first());
        }
    }
}

/// One piece of a list of fiber weights: numerator and denominator, or the
/// error message.
pub open spec fn rational_piece(piece: Seq<char>, raw: Seq<char>) -> Result<(int, int), Seq<char>> {
    let t = trimmed(piece);
    let texts = match split_slash(t) {
        Some((a, b)) => (trimmed(a), trimmed(b)),
        None => (t, "1"@),
    };
    match (spec_parse_int(texts.0, i128::MIN as int, i128::MAX as int), spec_parse_int(texts.1, i128::MIN as int, i128::MAX as int)) {
        (Some(n), Some(d)) => if d == 0 || n == 0 {
            Err("fiber weight `"@ + t + "` must be a nonzero rational number"@)
        } else {
            Ok((n, d))
        },
        _ => Err("invalid rational weight `"@ + t + "` in `"@ + raw + "`"@),
    }
}

pub open spec fn rational_results(raw: Seq<char>) -> Seq<Result<(int, int), Seq<char>>> {
    Seq::new(split_commas(raw).len(), |i: int| rational_piece(split_commas(raw)[i], raw))
}

/// The text of `s` from character `from` up to `to`.
fn char_range(s: &String, from: usize, to: usize) -> (out: String)
    requires
        from <= to <= s@.len(),
    ensures
        out@ == s@.subrange(from as int, to as int),
{
    let text = s.as_str();
    let mut out = String::new();
    let mut i: usize = from;
    while i < to
        invariant
            from <= i <= to,
            to <= text@.len(),
            text@ == s@,
            out@ == s@.subrange(from as int, i as int),
        decreases to - i,
    {
        push_char(&mut out, text.get_char(i));
        proof {
            assert(s@.subrange(from as int, i + 1) =~= s@.subrange(from as int, i as int).push(s@[i as int]));
        }
        i = i + 1;
    }
    out
}

fn rational_value(piece: &String, raw: &str) -> (r: Result<(i128, i128), String>)
    ensures
        r matches Ok(v) ==> rational_piece(piece@, raw@) == Ok::<(int, int), Seq<char>>((v.0 as int, v.1 as int)),
        r matches Err(m) ==> rational_piece(piece@, raw@) == Err::<(int, int), Seq<char>>(m@),
{
    let t = trim(piece.as_str());
    let n = t.unicode_len();
    let mut k: usize = 0;
    while k < n && t.as_str().get_char(k) != '/'
        invariant
            k <= n,
            n == t@.len(),
            forall|j: int| 0 <= j < k ==> t@[j] != '/',
        decreases n - k,
    {
        k = k + 1;
    }
    proof {
        lemma_split_slash_at(t@, k as int);
    }
    let (num_text, den_text) = if k < n {
        let before = char_range(&t, 0, k);
        let after = char_range(&t, k + 1, n);
        proof {
            assert(t@.take(k as int) =~= t@.subrange(0, k as int));
            assert(t@.skip(k + 1) =~= t@.subrange(k + 1, n as int));
        }
        (trim(before.as_str()), trim(after.as_str()))
    } else {
        (char_range(&t, 0, n), string_from("1"))
    };
    proof {
        if k == n {
            assert(t@.subrange(0, n as int) =~= t@);
        }
    }
    let numerator = parse_i128(num_text.as_str());
    let denominator = parse_i128(den_text.as_str());
    match (numerator, denominator) {
        (Some(p), Some(q)) => {
            if q == 0 || p == 0 {
                let mut m = string_from("fiber weight `");
                push_string(&mut m, &t);
                push_str(&mut m, "` must be a nonzero rational number");
                Err(m)
            } else {
                Ok((p, q))
            }
        },
        _ => {
            let mut m = string_from("invalid rational weight `");
            push_string(&mut m, &t);
            push_str(&mut m, "` in `");
            push_str(&mut m, raw);
            push_str(&mut m, "`");
            Err(m)
        },
    }
}

/// Parses `expected` comma-separated nonzero fiber weights, each an integer
/// or a fraction `p/q`.
pub fn parse_rational_weights(raw: &str, expected: usize) -> (r: Result<Vec<Rational>, GwError>)
    ensures
        first_error(rational_results(raw@)) matches Some(m) ==> (r matches Err(GwError::ParseError(e)) && e@ == m),
        first_error(rational_results(raw@)) is None && split_commas(raw@).len() != expected
            ==> (r matches Err(GwError::ParseError(m)) && m@ == "expected "@ + decimal(expected as nat)
                + " comma-separated fiber weights, got "@ + decimal(split_commas(raw@).len())),
        first_error(rational_results(raw@)) is None && split_commas(raw@).len() == expected
            ==> (r matches Ok(w) && w@.len() == expected
                && forall|i: int| 0 <= i < expected
                    ==> same_value((#[trigger] w@[i])@, rational_results(raw@)[i]->Ok_0)),
{
    let parts = split_commas_exec(raw);
    let ghost results = rational_results(raw@);
    let mut weights: Vec<Rational> = Vec::new();
    let mut i: usize = 0;
    while i < parts.len()
        invariant
            i <= parts@.len(),
            string_views(parts@) == split_commas(raw@),
            results == rational_results(raw@),
            results.len() == parts@.len(),
            first_error(results.take(i as int)) is None,
            weights@.len() == i,
            forall|j: int| 0 <= j < i ==> same_value((#[trigger] weights@[j])@, results[j]->Ok_0),
        decreases parts@.len() - i,
    {
        let value = rational_value(&parts[i], raw);
        proof {
            assert(string_views(parts@)[i as int] == parts@[i as int]@);
            assert(results[i as int] == rational_piece(parts@[i as int]@, raw@));
            assert(results.take(i + 1) =~= results.take(i as int).push(results[i as int]));
            lemma_first_error_push(results.take(i as int), results[i as int]);
        }
        match value {
            Ok((p, q)) => {
                let w = Rational::new(p, q);
                proof {
                    assert(results[i as int] == Ok::<(int, int), Seq<char>>((p as int, q as int)));
                    assert(results[i as int]->Ok_0 == (p as int, q as int));
                    assert(same_value(w@, results[i as int]->Ok_0));
                }
                weights.push(w);
                proof {
                    assert(weights@[i as int] == w);
                }
            },
            Err(m) => {
                proof {
                    lemma_first_error_take(results, i as int + 1);
                }
                return Err(GwError::ParseError(m));
            },
        }
        i = i + 1;
    }
    proof {
        assert(results.take(i as int) =~= results);
    }
    if weights.len() != expected {
        let mut m = string_from("expected ");
        push_usize(&mut m, expected);
        push_str(&mut m, " comma-separated fiber weights, got ");
        push_usize(&mut m, weights.len());
        proof {
            assert(m@ =~= "expected "@ + decimal(expected as nat) + " comma-separated fiber weights, got "@ + decimal(split_commas(raw@).len()));
        }
        return Err(GwError::ParseError(m));
    }
    Ok(weights)
}

fn copy_degrees(degrees: &[usize]) -> (out: Vec<usize>)
    ensures
        out@ == degrees@,
{
    let mut out: Vec<usize> = Vec::new();
    let mut i: usize = 0;
    while i < degrees.len()
        invariant
            i <= degrees@.len(),
            out@ == degrees@.take(i as int),
        decreases degrees@.len() - i,
    {
        out.push(degrees[i]);
        proof {
            assert(degrees@.take(i + 1) =~= degrees@.take(i as int).push(degrees@[i as int]));
        }
        i = i + 1;
    }
    proof {
        assert(degrees@.take(i as int) =~= degrees@);
    }
    out
}

/// Which calibration the formula symbols are expanded for: none unless an
/// expansion is asked for (or forced); twisted when twist degrees are given,
/// which needs `n`; otherwise projective space with `n`, or `colors - 1`.
pub fn formula_expansion(
    expand: bool,
    equivariant: bool,
    twist: Option<&[usize]>,
    n_flag: Option<usize>,
    colors: usize,
    force: bool,
) -> (r: Result<Option<FormulaExpansion>, GwError>)
    ensures
        !force && !expand ==> r == Ok::<Option<FormulaExpansion>, GwError>(None),
        (force || expand) && twist is Some && n_flag is None
            ==> (r matches Err(GwError::ParseError(m)) && m@ == "twisted formula expansion needs --n"@),
        (force || expand) && twist is Some && n_flag is Some
            ==> (r matches Ok(Some(FormulaExpansion::NegativeSplitTwisted { n, degrees, equivariant: e }))
                && n == n_flag->0 && degrees@ == twist->0@ && e == equivariant),
        (force || expand) && twist is None && (n_flag is Some || colors > 0)
            ==> (r matches Ok(Some(FormulaExpansion::ProjectiveSpace { n, equivariant: e }))
                && n == (if n_flag is Some { n_flag->0 as int } else { colors - 1 }) && e == equivariant),
        (force || expand) && twist is None && n_flag is None && colors == 0
            ==> (r matches Err(GwError::ParseError(m))
                && m@ == "projective formula expansion needs --n or positive --colors"@),
{
    if !force && !expand {
        return Ok(None);
    }
    if let Some(degrees) = twist {
        let n = match n_flag {
            Some(n) => n,
            None => {
                return Err(GwError::ParseError(string_from("twisted formula expansion needs --n")));
            },
        };
        return Ok(Some(FormulaExpansion::NegativeSplitTwisted { n, degrees: copy_degrees(degrees), equivariant }));
    }
    let n = match n_flag {
        Some(n) => n,
        None => {
            if colors == 0 {
                return Err(GwError::ParseError(string_from(
                    "projective formula expansion needs --n or positive --colors",
                )));
            }
            colors - 1
        },
    };
    Ok(Some(FormulaExpansion::ProjectiveSpace { n, equivariant }))
}

} // verus!
