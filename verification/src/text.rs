//! Exact text assembly shared by the renderers: decimal spellings of
//! integers, character-level string building, and separator joins.

use vstd::prelude::*;
use vstd::string::*;

verus! {

/// The ASCII decimal digit for `d < 10`.
pub open spec fn digit_char(d: nat) -> char {
    if d == 0 { '0' }
    else if d == 1 { '1' }
    else if d == 2 { '2' }
    else if d == 3 { '3' }
    else if d == 4 { '4' }
    else if d == 5 { '5' }
    else if d == 6 { '6' }
    else if d == 7 { '7' }
    else if d == 8 { '8' }
    else { '9' }
}

/// Shortest decimal spelling of a natural number (no sign, no leading zero).
pub open spec fn decimal(n: nat) -> Seq<char>
    decreases n,
{
    if n < 10 {
        seq![digit_char(n)]
    } else {
        decimal(n / 10).push(digit_char(n % 10))
    }
}

/// Decimal spelling of an integer, with a leading `-` when negative.
pub open spec fn signed_decimal(n: int) -> Seq<char> {
    if n < 0 {
        seq!['-'] + decimal((-n) as nat)
    } else {
        decimal(n as nat)
    }
}

/// Concatenation of `items` with `sep` between consecutive items.
pub open spec fn join_seqs(items: Seq<Seq<char>>, sep: Seq<char>) -> Seq<char>
    decreases items.len(),
{
    if items.len() == 0 {
        Seq::empty()
    } else if items.len() == 1 {
        items[0]
    } else {
        join_seqs(items.drop_last(), sep) + sep + items.last()
    }
}

/// Concatenation of all parts, in order.
pub open spec fn concat_all(parts: Seq<Seq<char>>) -> Seq<char>
    decreases parts.len(),
{
    if parts.len() == 0 {
        Seq::empty()
    } else {
        concat_all(parts.drop_last()) + parts.last()
    }
}

pub proof fn lemma_concat_all_push(parts: Seq<Seq<char>>, last: Seq<char>)
    ensures
        concat_all(parts.push(last)) == concat_all(parts) + last,
{
    assert(parts.push(last).drop_last() =~= parts);
}

/// `"none"` for an empty list, otherwise the items joined by `", "`.
pub open spec fn comma_list_text(values: Seq<Seq<char>>) -> Seq<char> {
    if values.len() == 0 {
        "none"@
    } else {
        join_seqs(values, ", "@)
    }
}

/// Appends one character; `String::push` has no specification in vstd.
#[verifier::external_body]
pub fn push_char(out: &mut String, c: char)
    ensures
        final(out)@ == old(out)@.push(c),
{
    out.push(c);
}

/// Appends the contents of `text`.
pub fn push_string(out: &mut String, text: &String)
    ensures
        final(out)@ == old(out)@ + text@,
{
    out.append(text.as_str());
}

/// Appends the contents of a string slice.
pub fn push_str(out: &mut String, text: &str)
    ensures
        final(out)@ == old(out)@ + text@,
{
    out.append(text);
}

/// A fresh copy of `text`.
pub fn string_from(text: &str) -> (out: String)
    ensures
        out@ == text@,
{
    String::from_str(text)
}

fn digit_of(d: usize) -> (c: char)
    requires
        d < 10,
    ensures
        c == digit_char(d as nat),
{
    if d == 0 { '0' }
    else if d == 1 { '1' }
    else if d == 2 { '2' }
    else if d == 3 { '3' }
    else if d == 4 { '4' }
    else if d == 5 { '5' }
    else if d == 6 { '6' }
    else if d == 7 { '7' }
    else if d == 8 { '8' }
    else { '9' }
}

/// Appends the decimal spelling of `n`.
pub fn push_u128(out: &mut String, n: u128)
    ensures
        final(out)@ == old(out)@ + decimal(n as nat),
    decreases n,
{
    if n < 10 {
        push_char(out, digit_of(n as usize));
    } else {
        push_u128(out, n / 10);
        push_char(out, digit_of((n % 10) as usize));
        proof {
            assert(old(out)@ + decimal(n as nat) =~= old(out)@ + decimal((n / 10) as nat) + seq![
                digit_char((n % 10) as nat),
            ]);
        }
    }
}

/// Appends the decimal spelling of `n`.
pub fn push_usize(out: &mut String, n: usize)
    ensures
        final(out)@ == old(out)@ + decimal(n as nat),
{
    push_u128(out, n as u128);
}

/// Appends the signed decimal spelling of `n`.
pub fn push_i128(out: &mut String, n: i128)
    requires
        n > i128::MIN,
    ensures
        final(out)@ == old(out)@ + signed_decimal(n as int),
{
    if n < 0 {
        push_char(out, '-');
        push_u128(out, (-n) as u128);
        proof {
            assert(final(out)@ =~= old(out)@ + signed_decimal(n as int));
        }
    } else {
        push_u128(out, n as u128);
    }
}

/// The decimal spelling of `n`.
pub fn usize_text(n: usize) -> (out: String)
    ensures
        out@ == decimal(n as nat),
{
    let mut out = String::new();
    push_usize(&mut out, n);
    proof {
        assert(out@ =~= decimal(n as nat));
    }
    out
}

/// Joins `items` with `sep` between consecutive items.
pub fn join_strings(items: &Vec<String>, sep: &str) -> (out: String)
    ensures
        out@ == join_seqs(items@.map_values(|s: String| s@), sep@),
{
    let ghost views = items@.map_values(|s: String| s@);
    let mut out = String::new();
    let mut i: usize = 0;
    while i < items.len()
        invariant
            i <= items.len(),
            views == items@.map_values(|s: String| s@),
            out@ == join_seqs(views.take(i as int), sep@),
        decreases items.len() - i,
    {
        if i > 0 {
            push_str(&mut out, sep);
        }
        push_string(&mut out, &items[i]);
        proof {
            assert(views.take(i + 1).drop_last() =~= views.take(i as int));
            if i == 0 {
                assert(out@ =~= views.take(1)[0]);
            }
        }
        i += 1;
    }
    proof {
        assert(views.take(items.len() as int) =~= views);
    }
    out
}

/// `"none"` for an empty list, otherwise the items joined by `", "`.
pub fn comma_list(values: &Vec<String>) -> (out: String)
    ensures
        out@ == comma_list_text(values@.map_values(|s: String| s@)),
{
    if values.len() == 0 {
        string_from("none")
    } else {
        join_strings(values, ", ")
    }
}

} // verus!
