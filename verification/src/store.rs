//! The database table: a map from text keys to values, in which each key
//! occurs at most once.

use vstd::prelude::*;

verus! {

/// The map that a sequence of entries with distinct keys stands for.
pub open spec fn entries_map<V>(entries: Seq<(String, V)>) -> Map<Seq<char>, V> {
    Map::new(
        |k: Seq<char>| exists|i: int| 0 <= i < entries.len() && (#[trigger] entries[i]).0@ == k,
        |k: Seq<char>| entries[choose|i: int| 0 <= i < entries.len() && (#[trigger] entries[i]).0@ == k].1,
    )
}

/// No key occurs twice among the entries.
pub open spec fn keys_distinct<V>(entries: Seq<(String, V)>) -> bool {
    forall|i: int, j: int|
        0 <= i < entries.len() && 0 <= j < entries.len() && i != j ==> (#[trigger] entries[i]).0@
            != (#[trigger] entries[j]).0@
}

/// In a sequence with distinct keys, the entry at `i` is what the map holds
/// under its key.
pub proof fn lemma_entry_in_map<V>(entries: Seq<(String, V)>, i: int)
    requires
        keys_distinct(entries),
        0 <= i < entries.len(),
    ensures
        entries_map(entries).contains_key(entries[i].0@),
        entries_map(entries)[entries[i].0@] == entries[i].1,
{
    let k = entries[i].0@;
    assert(exists|j: int| 0 <= j < entries.len() && (#[trigger] entries[j]).0@ == k);
    let c = choose|j: int| 0 <= j < entries.len() && (#[trigger] entries[j]).0@ == k;
    assert(c == i);
}

/// A table of keyed values; each key occurs at most once.
pub struct Store<V> {
    entries: Vec<(String, V)>,
}

impl<V> View for Store<V> {
    type V = Map<Seq<char>, V>;

    closed spec fn view(&self) -> Map<Seq<char>, V> {
        entries_map(self.entries@)
    }
}

impl<V> Store<V> {
    /// The store's invariant: no key occurs twice.
    pub closed spec fn wf(&self) -> bool {
        keys_distinct(self.entries@)
    }

    /// The keys of the store, in the order in which the store keeps them.
    pub closed spec fn key_order(&self) -> Seq<Seq<char>> {
        self.entries@.map_values(|e: (String, V)| e.0@)
    }

    /// `key_order` lists every key of the store exactly once.
    pub proof fn lemma_key_order(&self)
        requires
            self.wf(),
        ensures
            self.key_order().no_duplicates(),
            self.key_order().to_set() == self@.dom(),
            self.key_order().len() == self@.dom().len(),
            self.key_order().len() == self.size(),
    {
        let ks = self.key_order();
        let s = self.entries@;
        assert forall|k: Seq<char>| ks.to_set().contains(k) <==> self@.dom().contains(k) by {
            if ks.to_set().contains(k) {
                let i = choose|i: int| 0 <= i < ks.len() && ks[i] == k;
                assert(s[i].0@ == k);
            }
            if self@.dom().contains(k) {
                let i = choose|i: int| 0 <= i < s.len() && (#[trigger] s[i]).0@ == k;
                assert(ks[i] == k);
            }
        }
        assert(ks.to_set() =~= self@.dom());
        ks.unique_seq_to_set();
    }

    /// The number of entries.
    pub closed spec fn size(&self) -> nat {
        self.entries@.len()
    }

    /// The number of entries.
    pub fn len(&self) -> (r: usize)
        ensures
            r == self.size(),
    {
        self.entries.len()
    }

    /// The value of the entry at position `i` of `key_order`.
    pub(crate) fn value_at(&self, i: usize) -> (r: &V)
        requires
            self.wf(),
            i < self.size(),
        ensures
            self@.contains_key(self.key_order()[i as int]),
            *r == self@[self.key_order()[i as int]],
    {
        proof {
            lemma_entry_in_map(self.entries@, i as int);
        }
        &self.entries[i].1
    }

    /// Removes every entry.
    pub fn clear(&mut self)
        ensures
            final(self).wf(),
            final(self)@ == Map::<Seq<char>, V>::empty(),
    {
        self.entries = Vec::new();
        assert(self@ =~= Map::<Seq<char>, V>::empty());
    }

    /// An empty store.
    pub fn new() -> (s: Self)
        ensures
            s.wf(),
            s@ == Map::<Seq<char>, V>::empty(),
    {
        let s = Store { entries: Vec::new() };
        assert(s@ =~= Map::<Seq<char>, V>::empty());
        s
    }

    /// The position of `key` among the entries, if it is there.
    fn find(&self, key: &String) -> (r: Option<usize>)
        requires
            self.wf(),
        ensures
            match r {
                Some(i) => i < self.entries@.len() && self.entries@[i as int].0@ == key@,
                None => !self@.contains_key(key@),
            },
    {
        let mut i: usize = 0;
        while i < self.entries.len()
            invariant
                i <= self.entries@.len(),
                forall|j: int| 0 <= j < i ==> (#[trigger] self.entries@[j]).0@ != key@,
            decreases self.entries@.len() - i,
        {
            if self.entries[i].0 == *key {
                return Some(i);
            }
            i = i + 1;
        }
        None
    }

    /// Whether `key` has a value.
    pub fn contains_key(&self, key: &String) -> (r: bool)
        requires
            self.wf(),
        ensures
            r == self@.contains_key(key@),
    {
        match self.find(key) {
            Some(i) => {
                proof {
                    lemma_entry_in_map(self.entries@, i as int);
                }
                true
            },
            None => false,
        }
    }

    /// The value under `key`, if any.
    pub fn get(&self, key: &String) -> (r: Option<&V>)
        requires
            self.wf(),
        ensures
            match r {
                Some(v) => self@.contains_key(key@) && *v == self@[key@],
                None => !self@.contains_key(key@),
            },
    {
        match self.find(key) {
            Some(i) => {
                proof {
                    lemma_entry_in_map(self.entries@, i as int);
                }
                Some(&self.entries[i].1)
            },
            None => None,
        }
    }

    /// Puts `value` under `key`, replacing the value that was there.
    pub fn insert(&mut self, key: String, value: V)
        requires
            old(self).wf(),
        ensures
            final(self).wf(),
            final(self)@ == old(self)@.insert(key@, value),
    {
        let ghost k = key@;
        let ghost before = self.entries@;
        match self.find(&key) {
            Some(i) => {
                self.entries.set(i, (key, value));
                proof {
                    let after = self.entries@;
                    assert(keys_distinct(after)) by {
                        assert forall|a: int, b: int|
                            0 <= a < after.len() && 0 <= b < after.len() && a != b implies (
                            #[trigger] after[a]).0@ != (#[trigger] after[b]).0@ by {
                            assert(before[a].0@ != before[b].0@);
                        }
                    }
                    assert forall|q: Seq<char>| #[trigger]
                        entries_map(after).contains_key(q) == entries_map(before).insert(k, value).contains_key(q) by {
                        if entries_map(after).contains_key(q) {
                            let j = choose|j: int| 0 <= j < after.len() && (#[trigger] after[j]).0@ == q;
                            if j != i {
                                lemma_entry_in_map(before, j);
                            }
                        }
                        if entries_map(before).contains_key(q) {
                            let j = choose|j: int| 0 <= j < before.len() && (#[trigger] before[j]).0@ == q;
                            lemma_entry_in_map(after, j);
                        }
                        if q == k {
                            lemma_entry_in_map(after, i as int);
                        }
                    }
                    assert forall|q: Seq<char>| #[trigger] entries_map(after).contains_key(q) implies
                        entries_map(after)[q] == entries_map(before).insert(k, value)[q] by {
                        let j = choose|j: int| 0 <= j < after.len() && (#[trigger] after[j]).0@ == q;
                        lemma_entry_in_map(after, j);
                        if j != i {
                            lemma_entry_in_map(before, j);
                        }
                    }
                    assert(entries_map(after) =~= entries_map(before).insert(k, value));
                }
            },
            None => {
                self.entries.push((key, value));
                proof {
                    let after = self.entries@;
                    let n = before.len() as int;
                    assert(keys_distinct(after)) by {
                        assert forall|a: int, b: int|
                            0 <= a < after.len() && 0 <= b < after.len() && a != b implies (
                            #[trigger] after[a]).0@ != (#[trigger] after[b]).0@ by {
                            if a < n && b < n {
                                assert(before[a].0@ != before[b].0@);
                            } else if a < n {
                                lemma_entry_in_map(before, a);
                            } else {
                                lemma_entry_in_map(before, b);
                            }
                        }
                    }
                    assert forall|q: Seq<char>| #[trigger]
                        entries_map(after).contains_key(q) == entries_map(before).insert(k, value).contains_key(q) by {
                        if entries_map(after).contains_key(q) {
                            let j = choose|j: int| 0 <= j < after.len() && (#[trigger] after[j]).0@ == q;
                            if j < n {
                                lemma_entry_in_map(before, j);
                            }
                        }
                        if entries_map(before).contains_key(q) {
                            let j = choose|j: int| 0 <= j < before.len() && (#[trigger] before[j]).0@ == q;
                            lemma_entry_in_map(after, j);
                        }
                        if q == k {
                            lemma_entry_in_map(after, n);
                        }
                    }
                    assert forall|q: Seq<char>| #[trigger] entries_map(after).contains_key(q) implies
                        entries_map(after)[q] == entries_map(before).insert(k, value)[q] by {
                        let j = choose|j: int| 0 <= j < after.len() && (#[trigger] after[j]).0@ == q;
                        lemma_entry_in_map(after, j);
                        if j < n {
                            lemma_entry_in_map(before, j);
                        }
                    }
                    assert(entries_map(after) =~= entries_map(before).insert(k, value));
                }
            },
        }
    }

    /// Takes out the entry at position `i` of `key_order`.
    pub(crate) fn remove_at(&mut self, i: usize) -> (r: (String, V))
        requires
            old(self).wf(),
            i < old(self).size(),
        ensures
            final(self).wf(),
            final(self).size() == old(self).size() - 1,
            final(self).key_order() == old(self).key_order().remove(i as int),
            r.0@ == old(self).key_order()[i as int],
            final(self)@ == old(self)@.remove(r.0@),
            old(self)@.contains_key(r.0@),
            old(self)@[r.0@] == r.1,
    {
        let ghost before = self.entries@;
        proof {
            lemma_entry_in_map(before, i as int);
        }
        let r = self.entries.remove(i);
        proof {
            let after = self.entries@;
            let k = r.0@;
            assert forall|a: int| 0 <= a < after.len() implies #[trigger] after[a] == before[if a < i {
                a
            } else {
                a + 1
            }] by {}
            assert(keys_distinct(after)) by {
                assert forall|a: int, b: int|
                    0 <= a < after.len() && 0 <= b < after.len() && a != b implies (
                    #[trigger] after[a]).0@ != (#[trigger] after[b]).0@ by {
                    let a2 = if a < i { a } else { a + 1 };
                    let b2 = if b < i { b } else { b + 1 };
                    assert(after[a] == before[a2]);
                    assert(after[b] == before[b2]);
                    assert(before[a2].0@ != before[b2].0@);
                }
            }
            assert forall|q: Seq<char>| #[trigger] entries_map(after).contains_key(q) implies (
            entries_map(before).remove(k).contains_key(q) && entries_map(after)[q] == entries_map(
                before,
            )[q]) by {
                let j = choose|j: int| 0 <= j < after.len() && (#[trigger] after[j]).0@ == q;
                let j2 = if j < i { j } else { j + 1 };
                assert(after[j] == before[j2]);
                lemma_entry_in_map(after, j);
                lemma_entry_in_map(before, j2);
                assert(before[j2].0@ != before[i as int].0@);
            }
            assert forall|q: Seq<char>| #[trigger]
                entries_map(before).remove(k).contains_key(q) implies entries_map(after).contains_key(
                q,
            ) by {
                let j = choose|j: int| 0 <= j < before.len() && (#[trigger] before[j]).0@ == q;
                assert(j != i);
                let j2 = if j < i { j } else { j - 1 };
                assert(after[j2] == before[j]);
                lemma_entry_in_map(after, j2);
            }
            assert(entries_map(after) =~= entries_map(before).remove(k));
            assert(self.key_order() =~= old(self).key_order().remove(i as int));
        }
        r
    }

    /// Takes the value under `key` out of the store, if there is one.
    pub fn remove(&mut self, key: &String) -> (r: Option<V>)
        requires
            old(self).wf(),
        ensures
            final(self).wf(),
            final(self)@ == old(self)@.remove(key@),
            match r {
                Some(v) => old(self)@.contains_key(key@) && v == old(self)@[key@],
                None => !old(self)@.contains_key(key@),
            },
    {
        match self.find(key) {
            Some(i) => {
                let (_, v) = self.remove_at(i);
                Some(v)
            },
            None => {
                assert(old(self)@.remove(key@) =~= old(self)@);
                None
            },
        }
    }

    /// The keys of the store, in the order of `key_order`.
    pub fn keys(&self) -> (r: Vec<String>)
        requires
            self.wf(),
        ensures
            r@.map_values(|k: String| k@) == self.key_order(),
    {
        let mut r: Vec<String> = Vec::new();
        let mut i: usize = 0;
        while i < self.entries.len()
            invariant
                i <= self.entries@.len(),
                r@.len() == i,
                forall|j: int| 0 <= j < i ==> (#[trigger] r@[j])@ == self.entries@[j].0@,
            decreases self.entries@.len() - i,
        {
            r.push(self.entries[i].0.clone());
            i = i + 1;
        }
        assert(r@.map_values(|k: String| k@) =~= self.key_order());
        r
    }
}

} // verus!
