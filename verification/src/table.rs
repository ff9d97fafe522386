//! A small map keyed by strings, kept as a vector of entries. Lookups find
//! the first entry with the key; insertion replaces that entry or appends a
//! new one, so each key occurs at most once when the table is built by
//! insertion.

use vstd::prelude::*;
use crate::text::chars_of;

verus! {

/// The value stored under `k`: that of the first entry whose key is `k`.
pub open spec fn lookup<V>(entries: Seq<(String, V)>, k: Seq<char>) -> Option<V>
    decreases entries.len(),
{
    if entries.len() == 0 {
        None
    } else if entries[0].0@ == k {
        Some(entries[0].1)
    } else {
        lookup(entries.drop_first(), k)
    }
}

/// The map that a list of entries stands for.
pub open spec fn map_of<V>(entries: Seq<(String, V)>) -> Map<Seq<char>, V> {
    Map::new(|k: Seq<char>| lookup(entries, k) is Some, |k: Seq<char>| lookup(entries, k)->0)
}

#[derive(Clone)]
pub struct StrTable<V> {
    entries: Vec<(String, V)>,
}

impl<V> View for StrTable<V> {
    type V = Map<Seq<char>, V>;

    closed spec fn view(&self) -> Map<Seq<char>, V> {
        map_of(self.entries@)
    }
}

/// Equality of two string slices, character by character.
pub fn text_eq(a: &str, b: &str) -> (r: bool)
    ensures
        r == (a@ == b@),
{
    let x = chars_of(a);
    let y = chars_of(b);
    if x.len() != y.len() {
        return false;
    }
    let mut i: usize = 0;
    while i < x.len()
        invariant
            x.len() == y.len(),
            x@ == a@,
            y@ == b@,
            forall|k: int| 0 <= k < i ==> x@[k] == y@[k],
        decreases x.len() - i,
    {
        if x[i] != y[i] {
            return false;
        }
        i = i + 1;
    }
    assert(x@ =~= y@);
    true
}

proof fn lemma_lookup_found<V>(entries: Seq<(String, V)>, k: Seq<char>, i: int)
    requires
        0 <= i < entries.len(),
        entries[i].0@ == k,
        forall|j: int| 0 <= j < i ==> entries[j].0@ != k,
    ensures
        lookup(entries, k) == Some(entries[i].1),
    decreases i,
{
    if i > 0 {
        lemma_lookup_found(entries.drop_first(), k, i - 1);
    }
}

proof fn lemma_lookup_absent<V>(entries: Seq<(String, V)>, k: Seq<char>)
    requires
        forall|j: int| 0 <= j < entries.len() ==> entries[j].0@ != k,
    ensures
        lookup(entries, k) is None,
    decreases entries.len(),
{
    if entries.len() > 0 {
        lemma_lookup_absent(entries.drop_first(), k);
    }
}

proof fn lemma_lookup_push<V>(entries: Seq<(String, V)>, e: (String, V), k: Seq<char>)
    ensures
        lookup(entries.push(e), k) == (if lookup(entries, k) is Some {
            lookup(entries, k)
        } else if e.0@ == k {
            Some(e.1)
        } else {
            None
        }),
    decreases entries.len(),
{
    if entries.len() > 0 {
        assert(entries.push(e).drop_first() =~= entries.drop_first().push(e));
        lemma_lookup_push(entries.drop_first(), e, k);
    } else {
        assert(entries.push(e).drop_first() =~= entries);
    }
}

proof fn lemma_lookup_update<V>(entries: Seq<(String, V)>, i: int, e: (String, V), k: Seq<char>)
    requires
        0 <= i < entries.len(),
        entries[i].0@ == e.0@,
        forall|j: int| 0 <= j < i ==> entries[j].0@ != e.0@,
    ensures
        lookup(entries.update(i, e), k) == (if k == e.0@ {
            Some(e.1)
        } else {
            lookup(entries, k)
        }),
    decreases i,
{
    if i > 0 {
        assert(entries.update(i, e).drop_first() =~= entries.drop_first().update(i - 1, e));
        lemma_lookup_update(entries.drop_first(), i - 1, e, k);
    } else {
        assert(entries.update(i, e).drop_first() =~= entries.drop_first());
    }
}

impl<V> StrTable<V> {
    /// An empty table.
    pub fn new() -> (t: Self)
        ensures
            t@ == Map::<Seq<char>, V>::empty(),
    {
        let t = StrTable { entries: Vec::new() };
        assert(t@ =~= Map::<Seq<char>, V>::empty());
        t
    }

    /// A table holding the given entries (the first entry of a key wins).
    pub fn from_entries(entries: Vec<(String, V)>) -> (t: Self)
        ensures
            t@ == map_of(entries@),
    {
        StrTable { entries }
    }

    /// The entries of the table; the map they stand for is the table.
    pub fn entries(&self) -> (r: &Vec<(String, V)>)
        ensures
            map_of(r@) == self@,
    {
        &self.entries
    }

    /// Position of the first entry with key `key`.
    fn position(&self, key: &str) -> (r: Option<usize>)
        ensures
            match r {
                Some(i) => i < self.entries@.len() && self.entries@[i as int].0@ == key@
                    && forall|j: int| 0 <= j < i ==> self.entries@[j].0@ != key@,
                None => forall|j: int| 0 <= j < self.entries@.len() ==> self.entries@[j].0@ != key@,
            },
    {
        let mut i: usize = 0;
        while i < self.entries.len()
            invariant
                i <= self.entries@.len(),
                forall|j: int| 0 <= j < i ==> self.entries@[j].0@ != key@,
            decreases self.entries@.len() - i,
        {
            if text_eq(self.entries[i].0.as_str(), key) {
                return Some(i);
            }
            i = i + 1;
        }
        None
    }

    /// The value stored under `key`, if any.
    pub fn get(&self, key: &str) -> (r: Option<&V>)
        ensures
            match r {
                Some(v) => self@.contains_key(key@) && self@[key@] == *v,
                None => !self@.contains_key(key@),
            },
    {
        match self.position(key) {
            Some(i) => {
                proof {
                    lemma_lookup_found(self.entries@, key@, i as int);
                }
                Some(&self.entries[i].1)
            },
            None => {
                proof {
                    lemma_lookup_absent(self.entries@, key@);
                }
                None
            },
        }
    }

    /// Stores `value` under `key`, replacing any value stored there.
    pub fn insert(&mut self, key: String, value: V)
        ensures
            final(self)@ == old(self)@.insert(key@, value),
    {
        let ghost k = key@;
        let ghost old_entries = self.entries@;
        match self.position(key.as_str()) {
            Some(i) => {
                self.entries.set(i, (key, value));
                proof {
                    let e = self.entries@[i as int];
                    assert(self.entries@ =~= old_entries.update(i as int, e));
                    assert forall|q: Seq<char>| #![auto] lookup(self.entries@, q) == (if q == k {
                        Some(value)
                    } else {
                        lookup(old_entries, q)
                    }) by {
                        lemma_lookup_update(old_entries, i as int, e, q);
                    }
                }
            },
            None => {
                self.entries.push((key, value));
                proof {
                    let e = self.entries@.last();
                    assert(self.entries@ =~= old_entries.push(e));
                    lemma_lookup_absent(old_entries, k);
                    assert forall|q: Seq<char>| #![auto] lookup(self.entries@, q) == (if q == k {
                        Some(value)
                    } else {
                        lookup(old_entries, q)
                    }) by {
                        lemma_lookup_push(old_entries, e, q);
                    }
                }
            },
        }
        assert(self@ =~= old(self)@.insert(k, value));
    }
}

} // verus!
