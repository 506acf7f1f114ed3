//! A table of entries under unique `u64` keys, viewed as a `Map`.
//!
//! The runtime keys every piece of shared state — subscriptions, timers,
//! completion slots, suspended task bodies — by an opaque `u64` token.
//! This table stores such entries in insertion order and exposes a
//! mathematical `Map` view; every operation states its effect on that
//! view. The entry order is also exposed (through [`KeyTable::entry_seq`]
//! and the indexed accessors) so that the executor can walk a table.

use vstd::prelude::*;

verus! {

/// The map described by a sequence of key-value entries; later entries
/// win, though a well-formed table never repeats a key.
pub open spec fn map_of<V>(s: Seq<(u64, V)>) -> Map<u64, V>
    decreases s.len(),
{
    if s.len() == 0 {
        Map::empty()
    } else {
        map_of(s.drop_last()).insert(s.last().0, s.last().1)
    }
}

/// No key occurs twice among the entries.
pub open spec fn unique_keys<V>(s: Seq<(u64, V)>) -> bool {
    forall|i: int, j: int|
        #![trigger s[i], s[j]]
        0 <= i < j < s.len() ==> s[i].0 != s[j].0
}

/// A key is in the map of an entry sequence exactly when some entry
/// carries it.
pub proof fn lemma_map_of_contains<V>(s: Seq<(u64, V)>, k: u64)
    ensures
        map_of(s).contains_key(k) <==> exists|i: int| 0 <= i < s.len() && s[i].0 == k,
    decreases s.len(),
{
    if s.len() > 0 {
        lemma_map_of_contains(s.drop_last(), k);
        if s.last().0 == k {
            assert(s[s.len() - 1].0 == k);
        } else {
            if map_of(s).contains_key(k) {
                let i = choose|i: int| 0 <= i < s.drop_last().len() && s.drop_last()[i].0 == k;
                assert(s[i].0 == k);
            }
            if exists|i: int| 0 <= i < s.len() && s[i].0 == k {
                let i = choose|i: int| 0 <= i < s.len() && s[i].0 == k;
                assert(s.drop_last()[i].0 == k);
            }
        }
    }
}

/// Dropping the last entry keeps the keys unique.
pub proof fn lemma_unique_drop_last<V>(s: Seq<(u64, V)>)
    requires
        unique_keys(s),
        s.len() > 0,
    ensures
        unique_keys(s.drop_last()),
{
    assert forall|i: int, j: int|
        #![trigger s.drop_last()[i], s.drop_last()[j]]
        0 <= i < j < s.drop_last().len() implies s.drop_last()[i].0 != s.drop_last()[j].0 by {
        assert(s.drop_last()[i] == s[i]);
        assert(s.drop_last()[j] == s[j]);
    }
}

/// In a table with unique keys, the entry at index `i` is what the map
/// stores under its key.
pub proof fn lemma_map_of_index<V>(s: Seq<(u64, V)>, i: int)
    requires
        unique_keys(s),
        0 <= i < s.len(),
    ensures
        map_of(s).contains_key(s[i].0),
        map_of(s)[s[i].0] == s[i].1,
    decreases s.len(),
{
    if i == s.len() - 1 {
    } else {
        lemma_unique_drop_last(s);
        lemma_map_of_index(s.drop_last(), i);
        assert(s.drop_last()[i] == s[i]);
        assert(s.last().0 != s[i].0);
    }
}

/// Appending an entry under a fresh key inserts it into the map view
/// and keeps the keys unique.
pub proof fn lemma_map_of_push<V>(s: Seq<(u64, V)>, k: u64, v: V)
    requires
        unique_keys(s),
        forall|i: int| 0 <= i < s.len() ==> (#[trigger] s[i]).0 != k,
    ensures
        map_of(s.push((k, v))) == map_of(s).insert(k, v),
        unique_keys(s.push((k, v))),
{
    let t = s.push((k, v));
    assert(t.drop_last() =~= s);
    assert(t.last() == (k, v));
    assert forall|i: int, j: int|
        #![trigger t[i], t[j]]
        0 <= i < j < t.len() implies t[i].0 != t[j].0 by {
        if j < s.len() {
            assert(t[i] == s[i] && t[j] == s[j]);
        } else {
            assert(t[i] == s[i] && t[j] == (k, v));
        }
    }
}

/// Replacing the value at index `i`, key unchanged, overwrites that key
/// in the map view and keeps the keys unique.
pub proof fn lemma_map_of_update<V>(s: Seq<(u64, V)>, i: int, v: V)
    requires
        unique_keys(s),
        0 <= i < s.len(),
    ensures
        map_of(s.update(i, (s[i].0, v))) =~= map_of(s).insert(s[i].0, v),
        unique_keys(s.update(i, (s[i].0, v))),
    decreases s.len(),
{
    let k = s[i].0;
    let t = s.update(i, (k, v));
    assert forall|a: int, b: int|
        #![trigger t[a], t[b]]
        0 <= a < b < t.len() implies t[a].0 != t[b].0 by {
        assert(t[a].0 == s[a].0 && t[b].0 == s[b].0);
    }
    if i == s.len() - 1 {
        assert(t.drop_last() =~= s.drop_last());
        assert(t.last() == (k, v));
        assert(map_of(t) == map_of(s.drop_last()).insert(k, v));
        assert(map_of(s).insert(k, v) =~= map_of(s.drop_last()).insert(k, v));
    } else {
        lemma_unique_drop_last(s);
        assert(t.drop_last() =~= s.drop_last().update(i, (k, v)));
        assert(s.drop_last()[i] == s[i]);
        lemma_map_of_update(s.drop_last(), i, v);
        assert(t.last() == s.last());
        assert(s.last().0 != k);
        assert(map_of(t) == map_of(s.drop_last().update(i, (k, v))).insert(
            s.last().0,
            s.last().1,
        ));
        assert(map_of(t) =~= map_of(s).insert(k, v));
    }
}

/// Removing the entry at index `i` removes its key from the map view
/// and keeps the keys unique.
pub proof fn lemma_map_of_remove<V>(s: Seq<(u64, V)>, i: int)
    requires
        unique_keys(s),
        0 <= i < s.len(),
    ensures
        map_of(s.remove(i)) =~= map_of(s).remove(s[i].0),
        unique_keys(s.remove(i)),
    decreases s.len(),
{
    let k = s[i].0;
    let t = s.remove(i);
    s.remove_ensures(i);
    assert forall|a: int, b: int|
        #![trigger t[a], t[b]]
        0 <= a < b < t.len() implies t[a].0 != t[b].0 by {
        let sa: int = if a < i { a } else { a + 1 };
        let sb: int = if b < i { b } else { b + 1 };
        assert(t[a].0 == s[sa].0 && t[b].0 == s[sb].0);
    }
    lemma_unique_drop_last(s);
    if i == s.len() - 1 {
        assert(t =~= s.drop_last());
        lemma_map_of_contains(s.drop_last(), k);
        assert(forall|j: int|
            0 <= j < s.drop_last().len() ==> (#[trigger] s.drop_last()[j]).0 != k);
        assert(!map_of(s.drop_last()).contains_key(k));
        assert(map_of(s.remove(i)) =~= map_of(s).remove(k));
    } else {
        assert(t.drop_last() =~= s.drop_last().remove(i));
        assert(s.drop_last()[i] == s[i]);
        lemma_map_of_remove(s.drop_last(), i);
        assert(t.last() == s.last());
        assert(s.last().0 != k);
        assert(map_of(t) == map_of(s.drop_last().remove(i)).insert(s.last().0, s.last().1));
        assert(map_of(t) =~= map_of(s).remove(k));
    }
}

/// A table of values under unique `u64` keys.
pub struct KeyTable<V> {
    entries: Vec<(u64, V)>,
}

impl<V> View for KeyTable<V> {
    type V = Map<u64, V>;

    closed spec fn view(&self) -> Map<u64, V> {
        map_of(self.entries@)
    }
}

impl<V> KeyTable<V> {
    /// The stored entries, in insertion order.
    pub closed spec fn entry_seq(self) -> Seq<(u64, V)> {
        self.entries@
    }

    /// Key uniqueness; every operation preserves it.
    pub open spec fn wf(self) -> bool {
        unique_keys(self.entry_seq())
    }

    /// The view is the map described by the entries.
    pub proof fn lemma_view_is_entries(self)
        ensures
            self@ == map_of(self.entry_seq()),
    {
    }

    /// An empty table.
    pub fn new() -> (t: KeyTable<V>)
        ensures
            t.wf(),
            t@ == Map::<u64, V>::empty(),
            t.entry_seq() == Seq::<(u64, V)>::empty(),
    {
        KeyTable { entries: Vec::new() }
    }

    /// The number of entries.
    pub fn len(&self) -> (n: usize)
        ensures
            n == self.entry_seq().len(),
    {
        self.entries.len()
    }

    /// Whether the table holds no entry.
    pub fn is_empty(&self) -> (b: bool)
        ensures
            b <==> self@ == Map::<u64, V>::empty(),
            b <==> self.entry_seq().len() == 0,
    {
        proof {
            if self.entries@.len() > 0 {
                let last = self.entries@.len() - 1;
                lemma_map_of_contains(self.entries@, self.entries@[last].0);
                assert(self@.contains_key(self.entries@[last].0));
            }
        }
        self.entries.len() == 0
    }

    /// The index of the entry carrying `k`, if any.
    fn find(&self, k: u64) -> (r: Option<usize>)
        ensures
            match r {
                Some(i) => i < self.entry_seq().len() && self.entry_seq()[i as int].0 == k,
                None => forall|i: int|
                    0 <= i < self.entry_seq().len() ==> (#[trigger] self.entry_seq()[i]).0 != k,
            },
    {
        let mut i: usize = 0;
        while i < self.entries.len()
            invariant
                i <= self.entries@.len(),
                forall|j: int| 0 <= j < i ==> (#[trigger] self.entries@[j]).0 != k,
            decreases self.entries@.len() - i,
        {
            if self.entries[i].0 == k {
                return Some(i);
            }
            i = i + 1;
        }
        None
    }

    /// Whether the table holds an entry under `k`.
    pub fn contains(&self, k: u64) -> (b: bool)
        requires
            self.wf(),
        ensures
            b == self@.contains_key(k),
    {
        proof {
            lemma_map_of_contains(self.entries@, k);
        }
        self.find(k).is_some()
    }

    /// The value stored under `k`, if any.
    pub fn get(&self, k: u64) -> (r: Option<&V>)
        requires
            self.wf(),
        ensures
            match r {
                Some(v) => self@.contains_key(k) && *v == self@[k],
                None => !self@.contains_key(k),
            },
    {
        proof {
            lemma_map_of_contains(self.entries@, k);
        }
        match self.find(k) {
            Some(i) => {
                proof {
                    lemma_map_of_index(self.entries@, i as int);
                }
                Some(&self.entries[i].1)
            },
            None => None,
        }
    }

    /// Stores `v` under `k`, replacing any previous value.
    pub fn insert(&mut self, k: u64, v: V)
        requires
            old(self).wf(),
        ensures
            final(self).wf(),
            final(self)@ == old(self)@.insert(k, v),
            final(self).entry_seq().len() <= old(self).entry_seq().len() + 1,
    {
        let ghost s = self.entries@;
        match self.find(k) {
            Some(i) => {
                proof {
                    lemma_map_of_update(s, i as int, v);
                }
                self.entries[i] = (k, v);
                proof {
                    assert(self.entries@ =~= s.update(i as int, (k, v)));
                    assert(self@ =~= old(self)@.insert(k, v));
                }
            },
            None => {
                proof {
                    lemma_map_of_push(s, k, v);
                }
                self.entries.push((k, v));
                proof {
                    assert(self.entries@ =~= s.push((k, v)));
                    assert(self@ =~= old(self)@.insert(k, v));
                }
            },
        }
    }

    /// Removes and returns the value stored under `k`, if any.
    pub fn remove(&mut self, k: u64) -> (r: Option<V>)
        requires
            old(self).wf(),
        ensures
            final(self).wf(),
            final(self)@ == old(self)@.remove(k),
            match r {
                Some(v) => old(self)@.contains_key(k) && v == old(self)@[k],
                None => !old(self)@.contains_key(k) && final(self)@ == old(self)@,
            },
    {
        let ghost s = self.entries@;
        proof {
            lemma_map_of_contains(s, k);
        }
        match self.find(k) {
            Some(i) => {
                proof {
                    lemma_map_of_index(s, i as int);
                    lemma_map_of_remove(s, i as int);
                }
                let e = self.entries.remove(i);
                proof {
                    assert(self.entries@ =~= s.remove(i as int));
                    assert(self@ =~= old(self)@.remove(k));
                }
                Some(e.1)
            },
            None => {
                proof {
                    assert(self@ =~= old(self)@.remove(k));
                }
                None
            },
        }
    }

    /// The key of the entry at index `i`, together with the fact that
    /// the map stores that entry's value under it.
    pub fn key_at(&self, i: usize) -> (k: u64)
        requires
            self.wf(),
            i < self.entry_seq().len(),
        ensures
            k == self.entry_seq()[i as int].0,
            self@.contains_key(k),
            self@[k] == self.entry_seq()[i as int].1,
    {
        proof {
            lemma_map_of_index(self.entries@, i as int);
        }
        self.entries[i].0
    }

    /// Replaces the value of the entry at index `i`, key unchanged.
    pub fn set_at(&mut self, i: usize, v: V)
        requires
            old(self).wf(),
            i < old(self).entry_seq().len(),
        ensures
            final(self).wf(),
            final(self).entry_seq() == old(self).entry_seq().update(
                i as int,
                (old(self).entry_seq()[i as int].0, v),
            ),
            final(self)@ == old(self)@.insert(old(self).entry_seq()[i as int].0, v),
    {
        let ghost s = self.entries@;
        let k = self.entries[i].0;
        proof {
            lemma_map_of_update(s, i as int, v);
        }
        self.entries[i] = (k, v);
        proof {
            assert(self.entries@ =~= s.update(i as int, (k, v)));
            assert(self@ =~= old(self)@.insert(k, v));
        }
    }

    /// The keys of all entries, in entry order.
    pub fn keys(&self) -> (ks: Vec<u64>)
        requires
            self.wf(),
        ensures
            ks@.len() == self.entry_seq().len(),
            forall|j: int| 0 <= j < ks@.len() ==> ks@[j] == self.entry_seq()[j].0,
            forall|k: u64| self@.contains_key(k) ==> ks@.contains(k),
    {
        let mut ks: Vec<u64> = Vec::new();
        let mut i: usize = 0;
        while i < self.entries.len()
            invariant
                i <= self.entries@.len(),
                ks@.len() == i,
                forall|j: int| 0 <= j < i ==> ks@[j] == self.entries@[j].0,
            decreases self.entries@.len() - i,
        {
            ks.push(self.entries[i].0);
            i = i + 1;
        }
        proof {
            assert forall|k: u64| self@.contains_key(k) implies ks@.contains(k) by {
                lemma_map_of_contains(self.entries@, k);
                let j = choose|j: int| 0 <= j < self.entries@.len() && self.entries@[j].0 == k;
                assert(ks@[j] == k);
            }
        }
        ks
    }
}

impl<V: Copy> KeyTable<V> {
    /// The entry at index `i`, copied out.
    pub fn entry_at(&self, i: usize) -> (e: (u64, V))
        requires
            self.wf(),
            i < self.entry_seq().len(),
        ensures
            e == self.entry_seq()[i as int],
            self@.contains_key(e.0),
            self@[e.0] == e.1,
    {
        proof {
            lemma_map_of_index(self.entries@, i as int);
        }
        self.entries[i]
    }
}

} // verus!
