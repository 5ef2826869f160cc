//! Small tables keyed by text: at most one entry per key, in insertion
//! order, with lookups, updates and filters.

use vstd::prelude::*;

use crate::text::owned;

verus! {

/// The entries of a table as plain values.
pub open spec fn entry_views<V>(entries: Seq<(String, V)>) -> Seq<(Seq<char>, V)> {
    entries.map_values(|e: (String, V)| (e.0@, e.1))
}

/// The value of the first entry with key `key`.
pub open spec fn lookup<V>(entries: Seq<(Seq<char>, V)>, key: Seq<char>) -> Option<V>
    decreases entries.len(),
{
    if entries.len() == 0 {
        None
    } else if entries[0].0 == key {
        Some(entries[0].1)
    } else {
        lookup(entries.drop_first(), key)
    }
}

/// No key occurs twice.
pub open spec fn distinct_keys<V>(entries: Seq<(Seq<char>, V)>) -> bool {
    forall|i: int, j: int| 0 <= i < j < entries.len() ==> #[trigger] entries[i].0 != #[trigger] entries[j].0
}

/// The entries with `key` set to `value`: an existing entry is updated in
/// place, else one is added at the end.
pub open spec fn with_entry<V>(entries: Seq<(Seq<char>, V)>, key: Seq<char>, value: V) -> Seq<(Seq<char>, V)>
    decreases entries.len(),
{
    if entries.len() == 0 {
        seq![(key, value)]
    } else if entries[0].0 == key {
        entries.update(0, (key, value))
    } else {
        seq![entries[0]] + with_entry(entries.drop_first(), key, value)
    }
}

/// The entries without the one for `key`.
pub open spec fn without_key<V>(entries: Seq<(Seq<char>, V)>, key: Seq<char>) -> Seq<(Seq<char>, V)> {
    entries.filter(|e: (Seq<char>, V)| e.0 != key)
}

pub proof fn lemma_lookup_with_entry<V>(entries: Seq<(Seq<char>, V)>, key: Seq<char>, value: V, other: Seq<char>)
    ensures
        lookup(with_entry(entries, key, value), other) == if other == key {
            Some(value)
        } else {
            lookup(entries, other)
        },
    decreases entries.len(),
{
    if entries.len() == 0 {
        let w = with_entry(entries, key, value);
        assert(w.drop_first() =~= Seq::<(Seq<char>, V)>::empty());
    } else if entries[0].0 == key {
        let w = with_entry(entries, key, value);
        assert(w.drop_first() =~= entries.drop_first());
        if other != key {
            assert(lookup(w, other) == lookup(w.drop_first(), other));
        }
    } else {
        let w = with_entry(entries, key, value);
        assert(w.drop_first() =~= with_entry(entries.drop_first(), key, value));
        lemma_lookup_with_entry(entries.drop_first(), key, value, other);
    }
}

/// A table keyed by text.
pub struct Table<V> {
    entries: Vec<(String, V)>,
}

impl<V: Copy> Table<V> {
    pub closed spec fn view(&self) -> Seq<(Seq<char>, V)> {
        entry_views(self.entries@)
    }

    pub fn new() -> (r: Table<V>)
        ensures
            r.view() == Seq::<(Seq<char>, V)>::empty(),
    {
        let r = Table { entries: Vec::new() };
        assert(r.view() =~= Seq::<(Seq<char>, V)>::empty());
        r
    }

    /// The value for `key`.
    pub fn get(&self, key: &str) -> (r: Option<V>)
        ensures
            r == lookup(self.view(), key@),
    {
        let ghost es = self.view();
        let mut i: usize = 0;
        assert(es.skip(0) =~= es);
        while i < self.entries.len()
            invariant
                i <= self.entries@.len(),
                es == self.view(),
                lookup(es, key@) == lookup(es.skip(i as int), key@),
            decreases self.entries@.len() - i,
        {
            assert(es.skip(i as int).drop_first() =~= es.skip(i + 1));
            assert(es.skip(i as int)[0] == es[i as int]);
            if crate::agent::events::text_eq(self.entries[i].0.as_str(), key) {
                return Some(self.entries[i].1);
            }
            i = i + 1;
        }
        None
    }

    /// Sets the value for `key`, in place when the key is present.
    pub fn set(&mut self, key: &str, value: V)
        ensures
            final(self).view() == with_entry(old(self).view(), key@, value),
    {
        let ghost es = self.view();
        let mut i: usize = 0;
        assert(es.skip(0) =~= es);
        assert(es.take(0) + with_entry(es, key@, value) =~= with_entry(es, key@, value));
        while i < self.entries.len()
            invariant
                i <= self.entries@.len(),
                es == self.view(),
                self.view() == old(self).view(),
                forall|j: int| 0 <= j < i ==> #[trigger] es[j].0 != key@,
                with_entry(es, key@, value) == es.take(i as int) + with_entry(es.skip(i as int), key@, value),
            decreases self.entries@.len() - i,
        {
            let ghost rest = es.skip(i as int);
            assert(rest[0] == es[i as int]);
            if crate::agent::events::text_eq(self.entries[i].0.as_str(), key) {
                self.entries.set(i, (owned(key), value));
                assert(self.view() =~= es.take(i as int) + rest.update(0, (key@, value)));
                assert(rest.update(0, (key@, value)) == with_entry(rest, key@, value));
                return;
            }
            assert(rest.drop_first() =~= es.skip(i + 1));
            assert(es.take(i as int) + (seq![rest[0]] + with_entry(rest.drop_first(), key@, value)) =~= es.take(i + 1)
                + with_entry(es.skip(i + 1), key@, value));
            i = i + 1;
        }
        let ghost before = self.view();
        self.entries.push((owned(key), value));
        assert(es.skip(i as int) =~= Seq::<(Seq<char>, V)>::empty());
        assert(es.take(i as int) =~= es);
        assert(self.view() =~= es + seq![(key@, value)]);
    }

    /// Removes the entries for `key`.
    pub fn remove(&mut self, key: &str)
        ensures
            final(self).view() == without_key(old(self).view(), key@),
    {
        let ghost es = self.view();
        let ghost f = |e: (Seq<char>, V)| e.0 != key@;
        let mut kept: Vec<(String, V)> = Vec::new();
        let mut i: usize = 0;
        proof {
            reveal(Seq::filter);
        }
        assert(entry_views(kept@) =~= es.take(0).filter(f));
        while i < self.entries.len()
            invariant
                i <= self.entries@.len(),
                es == self.view(),
                f == (|e: (Seq<char>, V)| e.0 != key@),
                entry_views(kept@) == es.take(i as int).filter(f),
            decreases self.entries@.len() - i,
        {
            assert(es.take(i + 1).drop_last() =~= es.take(i as int));
            assert(es.take(i + 1).last() == es[i as int]);
            proof {
                reveal(Seq::filter);
            }
            if !crate::agent::events::text_eq(self.entries[i].0.as_str(), key) {
                let ghost prev = kept@;
                kept.push((self.entries[i].0.clone(), self.entries[i].1));
                assert(entry_views(kept@) =~= entry_views(prev).push(es[i as int]));
            }
            i = i + 1;
        }
        assert(es.take(i as int) =~= es);
        self.entries = kept;
    }

    /// Empties the table.
    pub fn clear(&mut self)
        ensures
            final(self).view() == Seq::<(Seq<char>, V)>::empty(),
    {
        self.entries = Vec::new();
        assert(self.view() =~= Seq::<(Seq<char>, V)>::empty());
    }

    /// The number of entries.
    pub fn len(&self) -> (r: usize)
        ensures
            r == self.view().len(),
    {
        self.entries.len()
    }

    /// The key and value of entry `i`.
    pub fn entry(&self, i: usize) -> (r: (&str, V))
        requires
            i < self.view().len(),
        ensures
            r.0@ == self.view()[i as int].0,
            r.1 == self.view()[i as int].1,
    {
        (self.entries[i].0.as_str(), self.entries[i].1)
    }

    /// Keeps only the entries whose `keep` flag is set, in order.
    pub fn keep_flagged(&mut self, keep: &Vec<bool>)
        requires
            keep@.len() == old(self).view().len(),
        ensures
            final(self).view() == flagged(old(self).view(), keep@),
    {
        let ghost es = self.view();
        let mut kept: Vec<(String, V)> = Vec::new();
        let mut i: usize = 0;
        while i < self.entries.len()
            invariant
                i <= self.entries@.len(),
                es == self.view(),
                keep@.len() == es.len(),
                entry_views(kept@) == flagged(es.take(i as int), keep@.take(i as int)),
            decreases self.entries@.len() - i,
        {
            assert(es.take(i + 1).drop_last() =~= es.take(i as int));
            assert(keep@.take(i + 1).drop_last() =~= keep@.take(i as int));
            if keep[i] {
                let ghost prev = kept@;
                kept.push((self.entries[i].0.clone(), self.entries[i].1));
                assert(entry_views(kept@) =~= entry_views(prev).push(es[i as int]));
            }
            i = i + 1;
        }
        assert(es.take(i as int) =~= es);
        assert(keep@.take(i as int) =~= keep@);
        self.entries = kept;
    }
}

/// The entries whose flag is set, in order.
pub open spec fn flagged<V>(entries: Seq<(Seq<char>, V)>, keep: Seq<bool>) -> Seq<(Seq<char>, V)>
    decreases entries.len(),
{
    if entries.len() == 0 || keep.len() != entries.len() {
        seq![]
    } else {
        let rest = flagged(entries.drop_last(), keep.drop_last());
        if keep.last() {
            rest.push(entries.last())
        } else {
            rest
        }
    }
}

} // verus!
