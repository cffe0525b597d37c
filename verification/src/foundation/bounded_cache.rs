//! Small deterministic caches for target-specific reconstruction data.
//!
//! [`BoundedCache`] uses insertion-order (FIFO) eviction: reads do not
//! perturb the order, replacing an existing key keeps its position, and
//! inserting a new key at capacity evicts the oldest entry.  Storage is a
//! `VecDeque` with linear lookup, so eviction and iteration are deterministic.

use vstd::prelude::*;
use std::collections::VecDeque;
use vstd::std_specs::cmp::PartialEqSpec;
use vstd::std_specs::iter::IteratorSpec;

verus! {

broadcast use vstd::std_specs::vecdeque::group_vec_dequeue_axioms;

/// Shared bound for caches whose keys contain target/calibration parameters.
pub const TARGET_RECONSTRUCTION_CACHE_CAPACITY: usize = 64;

/// The first index whose key matches `key` (by the key type's equality), if any.
pub open spec fn first_match<K: PartialEq, V>(entries: Seq<(K, V)>, key: K) -> Option<int> {
    if exists|i: int| 0 <= i < entries.len() && entries[i].0.eq_spec(&key) {
        Some(choose|i: int| 0 <= i < entries.len() && entries[i].0.eq_spec(&key) && forall|j: int|
            0 <= j < i ==> !entries[j].0.eq_spec(&key))
    } else {
        None
    }
}

/// No earlier key matches a later one.
pub open spec fn distinct_keys<K: PartialEq, V>(entries: Seq<(K, V)>) -> bool {
    forall|i: int, j: int| 0 <= i < j < entries.len() ==> !(#[trigger] entries[i].0).eq_spec(&(#[trigger] entries[j]).0)
}

/// A fixed-capacity, insertion-ordered cache.
#[derive(Debug, Clone)]
pub struct BoundedCache<K, V> {
    capacity: usize,
    entries: VecDeque<(K, V)>,
}

impl<K, V> View for BoundedCache<K, V> {
    type V = Seq<(K, V)>;

    closed spec fn view(&self) -> Seq<(K, V)> {
        self.entries@
    }
}

impl<K, V> BoundedCache<K, V> {
    pub closed spec fn spec_capacity(&self) -> nat {
        self.capacity as nat
    }

    pub fn new(capacity: usize) -> (c: Self)
        ensures
            c@ == Seq::<(K, V)>::empty(),
            c.spec_capacity() == capacity,
    {
        Self { capacity, entries: VecDeque::new() }
    }

    pub fn len(&self) -> (n: usize)
        ensures
            n == self@.len(),
    {
        self.entries.len()
    }

    /// The entries, oldest first.
    pub fn iter(&self) -> (it: std::collections::vec_deque::Iter<'_, (K, V)>)
        ensures
            it.remaining() == self@.as_ref(),
    {
        self.entries.iter()
    }
}

/// First index in `entries[from..]` whose key equals `key`.
fn find_key<K: PartialEq, V>(entries: &VecDeque<(K, V)>, key: &K) -> (found: Option<usize>)
    requires
        K::obeys_eq_spec(),
    ensures
        found is Some <==> exists|i: int| 0 <= i < entries@.len() && entries@[i].0.eq_spec(key),
        found matches Some(i) ==> i < entries@.len() && entries@[i as int].0.eq_spec(key) && forall|j: int|
            0 <= j < i ==> !entries@[j].0.eq_spec(key),
{
    let mut i: usize = 0;
    while i < entries.len()
        invariant
            i <= entries@.len(),
            K::obeys_eq_spec(),
            forall|j: int| 0 <= j < i ==> !entries@[j].0.eq_spec(key),
        decreases entries@.len() - i,
    {
        if entries[i].0 == *key {
            return Some(i);
        }
        i += 1;
    }
    None
}

impl<K: PartialEq, V> BoundedCache<K, V> {
    /// Well-formed: within capacity, with distinct keys.
    pub open spec fn well_formed(&self) -> bool {
        &&& self@.len() <= self.spec_capacity()
        &&& distinct_keys(self@)
    }

    /// Looks up `key` without changing the insertion order.
    pub fn get(&self, key: &K) -> (value: Option<&V>)
        requires
            K::obeys_eq_spec(),
        ensures
            value is Some <==> first_match(self@, *key) is Some,
            value matches Some(v) ==> *v == self@[first_match(self@, *key)->0].1,
    {
        match find_key(&self.entries, key) {
            Some(i) => Some(&self.entries[i].1),
            None => None,
        }
    }

    /// Insert `value`, returning the entry evicted at the capacity boundary.
    ///
    /// Replacing an existing key is not an eviction and does not change its
    /// FIFO position.  A zero-capacity cache simply returns the supplied entry.
    pub fn insert(&mut self, key: K, value: V) -> (evicted: Option<(K, V)>)
        requires
            K::obeys_eq_spec(),
            old(self).well_formed(),
        ensures
            final(self).well_formed(),
            final(self).spec_capacity() == old(self).spec_capacity(),
            old(self).spec_capacity() == 0 ==> evicted == Some((key, value)) && final(self)@ == old(self)@,
            old(self).spec_capacity() > 0 && first_match(old(self)@, key) is Some ==> ({
                let i = first_match(old(self)@, key)->0;
                &&& evicted is None
                &&& final(self)@ == old(self)@.update(i, (old(self)@[i].0, value))
            }),
            old(self).spec_capacity() > 0 && first_match(old(self)@, key) is None ==> (
                if old(self)@.len() == old(self).spec_capacity() {
                    &&& evicted == Some(old(self)@[0])
                    &&& final(self)@ == old(self)@.drop_first().push((key, value))
                } else {
                    &&& evicted is None
                    &&& final(self)@ == old(self)@.push((key, value))
                }
            ),
    {
        if self.capacity == 0 {
            return Some((key, value));
        }
        match find_key(&self.entries, &key) {
            Some(i) => {
                let ghost before = self.entries@;
                let removed = self.entries.remove(i);
                match removed {
                    Some((old_key, _)) => {
                        self.entries.insert(i, (old_key, value));
                    },
                    None => {},
                }
                proof {
                    assert(self.entries@ =~= before.update(i as int, (before[i as int].0, value)));
                    assert forall|a: int, b: int| 0 <= a < b < self.entries@.len() implies
                        !(#[trigger] self.entries@[a]).0.eq_spec(&(#[trigger] self.entries@[b]).0) by {
                        assert(self.entries@[a].0 == before[a].0);
                        assert(self.entries@[b].0 == before[b].0);
                    }
                }
                None
            },
            None => {
                let ghost before = self.entries@;
                let evicted = if self.entries.len() == self.capacity {
                    self.entries.pop_front()
                } else {
                    None
                };
                self.entries.push_back((key, value));
                proof {
                    if before.len() == self.capacity {
                        assert(before.subrange(1, before.len() as int) =~= before.drop_first());
                    }
                    assert forall|a: int, b: int| 0 <= a < b < self.entries@.len() implies
                        !(#[trigger] self.entries@[a]).0.eq_spec(&(#[trigger] self.entries@[b]).0) by {
                        let shift: int = if before.len() == self.capacity { 1 } else { 0 };
                        assert(self.entries@[a] == before[a + shift]);
                        if b < self.entries@.len() - 1 {
                            assert(self.entries@[b] == before[b + shift]);
                        }
                    }
                }
                evicted
            },
        }
    }
}

} // verus!
