//! Lists of keyed fractions read as sums per key: the model of coefficient
//! aggregation.

use vstd::prelude::*;
use crate::foundation::rational::{
    lemma_add_congruent, lemma_denominator_product_positive, lemma_rat_add_associative,
    lemma_rat_add_commutative, lemma_same_value_transitive, rat_add, same_value, RationalView,
};

verus! {

/// The contribution of one entry to the total of `key`.
pub open spec fn keyed_part<K>(entry: (K, RationalView), key: K) -> RationalView {
    if entry.0 == key {
        entry.1
    } else {
        (0, 1)
    }
}

/// The sum of the values of the entries filed under `key`.
pub open spec fn keyed_total<K>(entries: Seq<(K, RationalView)>, key: K) -> RationalView
    decreases entries.len(),
{
    if entries.len() == 0 {
        (0, 1)
    } else {
        rat_add(keyed_total(entries.drop_last(), key), keyed_part(entries.last(), key))
    }
}

/// Both lists hold, under every key, totals of the same value.
pub open spec fn same_totals<K>(a: Seq<(K, RationalView)>, b: Seq<(K, RationalView)>) -> bool {
    forall|key: K| same_value(#[trigger] keyed_total(a, key), keyed_total(b, key))
}

/// Adding `(0, 1)` leaves a fraction unchanged, exactly.
proof fn lemma_add_zero_exact(x: RationalView)
    ensures
        rat_add(x, (0, 1)) == x,
{
    assert(x.0 * 1 + 0 * x.1 == x.0) by (nonlinear_arith);
    assert(x.1 * 1 == x.1) by (nonlinear_arith);
}

/// Filing an entry anywhere in the list gives the totals of appending it.
pub proof fn lemma_total_insert<K>(entries: Seq<(K, RationalView)>, index: int, entry: (K, RationalView), key: K)
    requires
        0 <= index <= entries.len(),
    ensures
        keyed_total(entries.insert(index, entry), key) == keyed_total(entries.push(entry), key),
    decreases entries.len(),
{
    if index == entries.len() {
        assert(entries.insert(index, entry) =~= entries.push(entry));
    } else {
        let rest = entries.drop_last();
        let inserted = entries.insert(index, entry);
        assert(inserted.drop_last() =~= rest.insert(index, entry));
        assert(inserted.last() == entries.last());
        lemma_total_insert(rest, index, entry, key);
        assert(rest.push(entry).drop_last() =~= rest);
        assert(entries.push(entry).drop_last() =~= entries);
        let t = keyed_total(rest, key);
        let p = keyed_part(entry, key);
        let q = keyed_part(entries.last(), key);
        lemma_rat_add_associative(t, p, q);
        lemma_rat_add_associative(t, q, p);
        lemma_rat_add_commutative(p, q);
        assert(keyed_total(rest.push(entry), key) == rat_add(t, p));
        assert(keyed_total(inserted, key) == rat_add(keyed_total(rest.insert(index, entry), key), q));
        assert(keyed_total(entries, key) == rat_add(t, q));
        assert(keyed_total(entries.push(entry), key) == rat_add(keyed_total(entries, key), p));
    }
}

/// Adding `amount` to the value of an entry gives the totals of appending
/// `amount` under that entry's key.
pub proof fn lemma_total_accumulate<K>(entries: Seq<(K, RationalView)>, index: int, amount: RationalView, key: K)
    requires
        0 <= index < entries.len(),
    ensures
        keyed_total(
            entries.update(index, (entries[index].0, rat_add(entries[index].1, amount))),
            key,
        ) == keyed_total(entries.push((entries[index].0, amount)), key),
    decreases entries.len(),
{
    let entry_key = entries[index].0;
    let updated = entries.update(index, (entry_key, rat_add(entries[index].1, amount)));
    let rest = entries.drop_last();
    assert(entries.push((entry_key, amount)).drop_last() =~= entries);
    if index == entries.len() - 1 {
        assert(updated.drop_last() =~= rest);
        let t = keyed_total(rest, key);
        assert(keyed_total(entries, key) == rat_add(t, keyed_part(entries[index], key)));
        assert(keyed_total(updated, key) == rat_add(t, keyed_part(updated[index], key)));
        if entry_key == key {
            lemma_rat_add_associative(t, entries[index].1, amount);
        } else {
            lemma_add_zero_exact(t);
            lemma_add_zero_exact(rat_add(t, (0, 1)));
        }
    } else {
        assert(updated.drop_last() =~= rest.update(index, (entry_key, rat_add(rest[index].1, amount))));
        assert(updated.last() == entries.last());
        lemma_total_accumulate(rest, index, amount, key);
        assert(rest.push((entry_key, amount)).drop_last() =~= rest);
        let t = keyed_total(rest, key);
        let p = keyed_part((entry_key, amount), key);
        let q = keyed_part(entries.last(), key);
        lemma_rat_add_associative(t, p, q);
        lemma_rat_add_associative(t, q, p);
        lemma_rat_add_commutative(p, q);
        let rest_updated = rest.update(index, (entry_key, rat_add(rest[index].1, amount)));
        assert(keyed_total(rest.push((entry_key, amount)), key) == rat_add(t, p));
        assert(keyed_total(updated, key) == rat_add(keyed_total(rest_updated, key), q));
        assert(keyed_total(entries, key) == rat_add(t, q));
        assert(keyed_total(entries.push((entry_key, amount)), key) == rat_add(keyed_total(entries, key), p));
    }
}

/// Replacing a value by one of the same value keeps every total's value.
pub proof fn lemma_total_replace<K>(entries: Seq<(K, RationalView)>, index: int, value: RationalView, key: K)
    requires
        0 <= index < entries.len(),
        same_value(value, entries[index].1),
    ensures
        same_value(keyed_total(entries.update(index, (entries[index].0, value)), key), keyed_total(entries, key)),
    decreases entries.len(),
{
    let updated = entries.update(index, (entries[index].0, value));
    let rest = entries.drop_last();
    if index == entries.len() - 1 {
        assert(updated.drop_last() =~= rest);
        let t = keyed_total(rest, key);
        assert(t.0 * t.1 == t.0 * t.1);
        if entries[index].0 == key {
            lemma_add_congruent(t, t, value, entries[index].1);
        } else {
            lemma_add_congruent(t, t, (0, 1), (0, 1));
        }
    } else {
        assert(updated.drop_last() =~= rest.update(index, (rest[index].0, value)));
        assert(updated.last() == entries.last());
        lemma_total_replace(rest, index, value, key);
        let q = keyed_part(entries.last(), key);
        assert(q.0 * q.1 == q.0 * q.1);
        lemma_add_congruent(keyed_total(rest.update(index, (rest[index].0, value)), key), keyed_total(rest, key), q, q);
    }
}

/// Appending an entry of value zero keeps every total's value.
pub proof fn lemma_total_push_zero<K>(entries: Seq<(K, RationalView)>, entry: (K, RationalView), key: K)
    requires
        entry.1.0 == 0,
    ensures
        same_value(keyed_total(entries, key), keyed_total(entries.push(entry), key)),
{
    assert(entries.push(entry).drop_last() =~= entries);
    let t = keyed_total(entries, key);
    let p = keyed_part(entry, key);
    assert(t.0 * (t.1 * p.1) == (t.0 * p.1 + p.0 * t.1) * t.1) by (nonlinear_arith)
        requires
            p.0 == 0,
    ;
}

/// Every value has a positive denominator.
pub open spec fn positive_values<K>(entries: Seq<(K, RationalView)>) -> bool {
    forall|i: int| 0 <= i < entries.len() ==> (#[trigger] entries[i]).1.1 > 0
}

/// Totals of values with positive denominators have positive denominators.
pub proof fn lemma_total_denominator<K>(entries: Seq<(K, RationalView)>, key: K)
    requires
        positive_values(entries),
    ensures
        keyed_total(entries, key).1 > 0,
    decreases entries.len(),
{
    if entries.len() > 0 {
        let rest = entries.drop_last();
        assert(positive_values(rest)) by {
            assert forall|i: int| 0 <= i < rest.len() implies (#[trigger] rest[i]).1.1 > 0 by {
                assert(rest[i] == entries[i]);
            }
        }
        lemma_total_denominator(rest, key);
        assert(entries.last() == entries[entries.len() - 1]);
        lemma_denominator_product_positive(keyed_total(rest, key), keyed_part(entries.last(), key));
    }
}

/// Every list has its own totals.
pub proof fn lemma_same_totals_reflexive<K>(entries: Seq<(K, RationalView)>)
    ensures
        same_totals(entries, entries),
{
    assert forall|key: K| same_value(#[trigger] keyed_total(entries, key), keyed_total(entries, key)) by {
        let t = keyed_total(entries, key);
        assert(t.0 * t.1 == t.0 * t.1);
    }
}

/// One more addition on each side: if `current` has the totals of `base`,
/// and `next` those of `current` with `added` appended, then `next` has the
/// totals of `base` with `entry` appended, for an `entry` of the same key and
/// value as `added`.
pub proof fn lemma_same_totals_step<K>(
    current: Seq<(K, RationalView)>,
    next: Seq<(K, RationalView)>,
    base: Seq<(K, RationalView)>,
    added: (K, RationalView),
    entry: (K, RationalView),
)
    requires
        same_totals(current, base),
        same_totals(next, current.push(added)),
        positive_values(current),
        added.0 == entry.0,
        added.1.1 > 0,
        same_value(added.1, entry.1),
    ensures
        same_totals(next, base.push(entry)),
{
    assert(current.push(added).drop_last() =~= current);
    assert(base.push(entry).drop_last() =~= base);
    assert forall|key: K| same_value(#[trigger] keyed_total(next, key), keyed_total(base.push(entry), key)) by {
        let tc = keyed_total(current, key);
        let tb = keyed_total(base, key);
        let pa = keyed_part(added, key);
        let pe = keyed_part(entry, key);
        assert(same_value(tc, tb));
        assert(same_value(pa, pe));
        lemma_add_congruent(tc, tb, pa, pe);
        lemma_total_denominator(current, key);
        lemma_denominator_product_positive(tc, pa);
        assert(keyed_total(current.push(added), key) == rat_add(tc, pa));
        assert(keyed_total(base.push(entry), key) == rat_add(tb, pe));
        assert(same_value(keyed_total(next, key), keyed_total(current.push(added), key)));
        lemma_same_value_transitive(keyed_total(next, key), rat_add(tc, pa), rat_add(tb, pe));
    }
}

/// Appending keeps denominators positive.
pub proof fn lemma_positive_concat<K>(a: Seq<(K, RationalView)>, b: Seq<(K, RationalView)>)
    requires
        positive_values(a),
        positive_values(b),
    ensures
        positive_values(a + b),
{
    assert forall|t: int| 0 <= t < (a + b).len() implies (#[trigger] (a + b)[t]).1.1 > 0 by {
        if t < a.len() {
            assert((a + b)[t] == a[t]);
        } else {
            assert((a + b)[t] == b[t - a.len()]);
        }
    }
}

/// The totals of two lists one after the other are the sums of their totals.
pub proof fn lemma_total_concat<K>(a: Seq<(K, RationalView)>, b: Seq<(K, RationalView)>, key: K)
    ensures
        keyed_total(a + b, key) == rat_add(keyed_total(a, key), keyed_total(b, key)),
    decreases b.len(),
{
    if b.len() == 0 {
        assert(a + b =~= a);
        let t = keyed_total(a, key);
        assert(t.0 * 1 + 0 * t.1 == t.0) by (nonlinear_arith);
        assert(t.1 * 1 == t.1) by (nonlinear_arith);
    } else {
        let rest = b.drop_last();
        lemma_total_concat(a, rest, key);
        assert((a + b).drop_last() =~= a + rest);
        assert((a + b).last() == b.last());
        lemma_rat_add_associative(keyed_total(a, key), keyed_total(rest, key), keyed_part(b.last(), key));
    }
}

/// A whole list more on each side: if `current` has the totals of `base`,
/// and `next` those of `current` followed by `extra`, then `next` has the
/// totals of `base` followed by `extra`.
pub proof fn lemma_same_totals_append<K>(
    current: Seq<(K, RationalView)>,
    next: Seq<(K, RationalView)>,
    base: Seq<(K, RationalView)>,
    extra: Seq<(K, RationalView)>,
)
    requires
        same_totals(current, base),
        same_totals(next, current + extra),
        positive_values(current),
        positive_values(extra),
    ensures
        same_totals(next, base + extra),
{
    assert forall|key: K| same_value(#[trigger] keyed_total(next, key), keyed_total(base + extra, key)) by {
        let tc = keyed_total(current, key);
        let tb = keyed_total(base, key);
        let tx = keyed_total(extra, key);
        lemma_total_concat(current, extra, key);
        lemma_total_concat(base, extra, key);
        assert(same_value(tc, tb));
        lemma_add_congruent(tc, tb, tx, tx);
        lemma_total_denominator(current, key);
        lemma_total_denominator(extra, key);
        lemma_denominator_product_positive(tc, tx);
        assert(same_value(keyed_total(next, key), keyed_total(current + extra, key)));
        lemma_same_value_transitive(keyed_total(next, key), rat_add(tc, tx), rat_add(tb, tx));
    }
}

/// Having the same totals is symmetric.
pub proof fn lemma_same_totals_symmetric<K>(a: Seq<(K, RationalView)>, b: Seq<(K, RationalView)>)
    requires
        same_totals(a, b),
    ensures
        same_totals(b, a),
{
    assert forall|key: K| same_value(#[trigger] keyed_total(b, key), keyed_total(a, key)) by {
        assert(same_value(keyed_total(a, key), keyed_total(b, key)));
    }
}

/// Having the same totals is transitive through a list of positive values.
pub proof fn lemma_same_totals_transitive<K>(a: Seq<(K, RationalView)>, b: Seq<(K, RationalView)>, c: Seq<(K, RationalView)>)
    requires
        same_totals(a, b),
        same_totals(b, c),
        positive_values(b),
    ensures
        same_totals(a, c),
{
    assert forall|key: K| same_value(#[trigger] keyed_total(a, key), keyed_total(c, key)) by {
        lemma_total_denominator(b, key);
        assert(same_value(keyed_total(a, key), keyed_total(b, key)));
        assert(same_value(keyed_total(b, key), keyed_total(c, key)));
        lemma_same_value_transitive(keyed_total(a, key), keyed_total(b, key), keyed_total(c, key));
    }
}

} // verus!
