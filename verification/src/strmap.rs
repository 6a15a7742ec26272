//! A map keyed by strings, held as a list of entries in increasing order of
//! their keys, as a `BTreeMap` keeps and walks them.
use vstd::prelude::*;

use crate::text;
use crate::text::Comparison;

verus! {

/// A finite map from strings to values. Its view is the mathematical map
/// from each key's characters to the value stored under it.
#[derive(Debug)]
pub struct StrMap<V> {
    entries: Vec<(String, V)>,
}

/// The keys of the entries increase strictly in the order of `str_lt`.
pub open spec fn keys_sorted<V>(entries: Seq<(String, V)>) -> bool {
    forall|i: int, j: int|
        #![trigger entries[i], entries[j]]
        0 <= i < j < entries.len() ==> text::str_lt(entries[i].0@, entries[j].0@)
}

/// Whether some entry has the key `k`.
pub open spec fn has_key<V>(entries: Seq<(String, V)>, k: Seq<char>) -> bool {
    exists|i: int| 0 <= i < entries.len() && #[trigger] entries[i].0@ == k
}

/// The position of an entry with key `k`, where there is one.
pub open spec fn key_position<V>(entries: Seq<(String, V)>, k: Seq<char>) -> int {
    choose|i: int| 0 <= i < entries.len() && #[trigger] entries[i].0@ == k
}

/// The map that a list of entries with distinct keys stands for.
pub open spec fn entries_map<V>(entries: Seq<(String, V)>) -> Map<Seq<char>, V> {
    Map::new(|k: Seq<char>| has_key(entries, k), |k: Seq<char>| entries[key_position(entries, k)].1)
}

/// In a list with increasing keys, an entry's key finds that entry.
proof fn lemma_sorted_lookup<V>(e: Seq<(String, V)>, i: int)
    requires
        keys_sorted(e),
        0 <= i < e.len(),
    ensures
        has_key(e, e[i].0@),
        key_position(e, e[i].0@) == i,
        entries_map(e).contains_key(e[i].0@),
        entries_map(e)[e[i].0@] == e[i].1,
{
    let k = e[i].0@;
    assert(has_key(e, k));
    let j = key_position(e, k);
    if j != i {
        text::lemma_str_lt_strict_total_order(k, k, k);
        if j < i {
            assert(text::str_lt(e[j].0@, e[i].0@));
        } else {
            assert(text::str_lt(e[i].0@, e[j].0@));
        }
    }
}

/// Putting a new key at the place where the keys before it are smaller and
/// those after it are greater keeps the order and adds the key to the map.
proof fn lemma_sorted_insert<V>(e: Seq<(String, V)>, p: int, key: String, v: V)
    requires
        keys_sorted(e),
        0 <= p <= e.len(),
        forall|i: int| 0 <= i < p ==> text::str_lt(#[trigger] e[i].0@, key@),
        forall|i: int| p <= i < e.len() ==> text::str_lt(key@, #[trigger] e[i].0@),
    ensures
        keys_sorted(e.insert(p, (key, v))),
        entries_map(e.insert(p, (key, v))) == entries_map(e).insert(key@, v),
{
    let k = key@;
    let t = e.insert(p, (key, v));
    assert forall|i: int, j: int| 0 <= i < j < t.len() implies text::str_lt(
        #[trigger] t[i].0@,
        #[trigger] t[j].0@,
    ) by {
        if j < p {
            assert(t[i] == e[i] && t[j] == e[j]);
        } else if j == p {
            assert(t[i] == e[i]);
        } else if i == p {
            assert(t[j] == e[j - 1]);
        } else if i < p {
            assert(t[i] == e[i] && t[j] == e[j - 1]);
            text::lemma_str_lt_strict_total_order(e[i].0@, k, e[j - 1].0@);
        } else {
            assert(t[i] == e[i - 1] && t[j] == e[j - 1]);
        }
    }
    assert forall|q: Seq<char>| #[trigger] has_key(t, q) == (has_key(e, q) || q == k) by {
        if has_key(e, q) {
            let j = key_position(e, q);
            if j < p {
                assert(t[j] == e[j]);
            } else {
                assert(t[j + 1] == e[j]);
            }
        }
        if has_key(t, q) {
            let j = key_position(t, q);
            if j < p {
                assert(t[j] == e[j]);
            } else if j > p {
                assert(t[j] == e[j - 1]);
            }
        }
        if q == k {
            assert(t[p].0@ == q);
        }
    }
    assert forall|q: Seq<char>| has_key(t, q) implies #[trigger] entries_map(t)[q] == entries_map(
        e,
    ).insert(k, v)[q] by {
        let j = key_position(t, q);
        lemma_sorted_lookup(t, j);
        if j < p {
            assert(t[j] == e[j]);
            lemma_sorted_lookup(e, j);
            text::lemma_str_lt_strict_total_order(q, k, k);
        } else if j > p {
            assert(t[j] == e[j - 1]);
            lemma_sorted_lookup(e, j - 1);
            text::lemma_str_lt_strict_total_order(q, k, k);
        }
    }
    assert(entries_map(t) =~= entries_map(e).insert(k, v));
}

/// Replacing the entry of a key that is present keeps the order and stores
/// the new value under the key.
proof fn lemma_sorted_replace<V>(e: Seq<(String, V)>, p: int, key: String, v: V)
    requires
        keys_sorted(e),
        0 <= p < e.len(),
        e[p].0@ == key@,
    ensures
        keys_sorted(e.update(p, (key, v))),
        entries_map(e.update(p, (key, v))) == entries_map(e).insert(key@, v),
{
    let k = key@;
    let t = e.update(p, (key, v));
    assert forall|i: int, j: int| 0 <= i < j < t.len() implies text::str_lt(
        #[trigger] t[i].0@,
        #[trigger] t[j].0@,
    ) by {
        assert(t[i].0@ == e[i].0@ && t[j].0@ == e[j].0@);
    }
    assert forall|q: Seq<char>| #[trigger] has_key(t, q) == has_key(e, q) by {
        if has_key(e, q) {
            let j = key_position(e, q);
            assert(t[j].0@ == e[j].0@);
        }
        if has_key(t, q) {
            let j = key_position(t, q);
            assert(t[j].0@ == e[j].0@);
        }
    }
    lemma_sorted_lookup(e, p);
    assert forall|q: Seq<char>| has_key(t, q) implies #[trigger] entries_map(t)[q] == entries_map(
        e,
    ).insert(k, v)[q] by {
        let j = key_position(t, q);
        lemma_sorted_lookup(t, j);
        if j != p {
            assert(t[j] == e[j]);
            lemma_sorted_lookup(e, j);
            text::lemma_str_lt_strict_total_order(q, k, k);
        }
    }
    assert(entries_map(t) =~= entries_map(e).insert(k, v));
}

impl<V> View for StrMap<V> {
    type V = Map<Seq<char>, V>;

    closed spec fn view(&self) -> Map<Seq<char>, V> {
        entries_map(self.entries@)
    }
}

impl<V> StrMap<V> {
    #[verifier::type_invariant]
    closed spec fn keys_in_order(self) -> bool {
        keys_sorted(self.entries@)
    }

    /// An empty map.
    pub fn new() -> (m: Self)
        ensures
            m@ == Map::<Seq<char>, V>::empty(),
    {
        let m = StrMap { entries: Vec::new() };
        assert(m@ =~= Map::<Seq<char>, V>::empty());
        m
    }

    /// The first position whose key is not below `key`, and whether the key
    /// there is `key`.
    fn locate(&self, key: &str) -> (r: (usize, bool))
        requires
            keys_sorted(self.entries@),
        ensures
            r.0 <= self.entries@.len(),
            forall|i: int| 0 <= i < r.0 ==> text::str_lt(#[trigger] self.entries@[i].0@, key@),
            r.1 ==> r.0 < self.entries@.len() && self.entries@[r.0 as int].0@ == key@,
            !r.1 ==> forall|i: int|
                r.0 <= i < self.entries@.len() ==> text::str_lt(key@, #[trigger] self.entries@[i].0@),
    {
        let mut i: usize = 0;
        while i < self.entries.len()
            invariant
                0 <= i <= self.entries@.len(),
                keys_sorted(self.entries@),
                forall|j: int| 0 <= j < i ==> text::str_lt(#[trigger] self.entries@[j].0@, key@),
            decreases self.entries@.len() - i,
        {
            match text::compare_str(self.entries[i].0.as_str(), key) {
                Comparison::Less => {},
                Comparison::Equal => {
                    return (i, true);
                },
                Comparison::Greater => {
                    proof {
                        let here = self.entries@[i as int].0@;
                        text::lemma_str_lt_strict_total_order(here, key@, key@);
                        assert forall|j: int| i <= j < self.entries@.len() implies text::str_lt(
                            key@,
                            #[trigger] self.entries@[j].0@,
                        ) by {
                            if j > i {
                                text::lemma_str_lt_strict_total_order(key@, here, self.entries@[j].0@);
                            }
                        }
                    }
                    return (i, false);
                },
            }
            i = i + 1;
        }
        (i, false)
    }

    /// The value stored under `key`, if any.
    pub fn get(&self, key: &str) -> (r: Option<&V>)
        ensures
            match r {
                Some(v) => self@.contains_key(key@) && *v == self@[key@],
                None => !self@.contains_key(key@),
            },
    {
        proof {
            use_type_invariant(self);
        }
        let (i, found) = self.locate(key);
        if found {
            proof {
                lemma_sorted_lookup(self.entries@, i as int);
            }
            Some(&self.entries[i].1)
        } else {
            proof {
                let e = self.entries@;
                if has_key(e, key@) {
                    let j = key_position(e, key@);
                    text::lemma_str_lt_strict_total_order(key@, key@, key@);
                    if j < i {
                        assert(text::str_lt(e[j].0@, key@));
                    } else {
                        assert(text::str_lt(key@, e[j].0@));
                    }
                }
            }
            None
        }
    }

    /// Whether a value is stored under `key`.
    pub fn contains_key(&self, key: &str) -> (r: bool)
        ensures
            r == self@.contains_key(key@),
    {
        match self.get(key) {
            Some(_) => true,
            None => false,
        }
    }

    /// Whether the map is empty.
    pub fn is_empty(&self) -> (r: bool)
        ensures
            r == (self@ =~= Map::<Seq<char>, V>::empty()),
    {
        if self.entries.len() == 0 {
            assert(self@ =~= Map::<Seq<char>, V>::empty());
            true
        } else {
            assert(has_key(self.entries@, self.entries@[0].0@));
            assert(self@.contains_key(self.entries@[0].0@));
            false
        }
    }

    /// Stores `value` under `key`, replacing what was stored there.
    pub fn insert(&mut self, key: String, value: V)
        ensures
            final(self)@ == old(self)@.insert(key@, value),
    {
        proof {
            use_type_invariant(&*self);
        }
        let ghost e = self.entries@;
        let ghost k = key;
        let ghost v = value;
        let (i, found) = self.locate(key.as_str());
        let mut entries: Vec<(String, V)> = Vec::new();
        std::mem::swap(&mut entries, &mut self.entries);
        if found {
            entries.set(i, (key, value));
            proof {
                lemma_sorted_replace(e, i as int, k, v);
                assert(entries@ =~= e.update(i as int, (k, v)));
            }
        } else {
            entries.insert(i, (key, value));
            proof {
                lemma_sorted_insert(e, i as int, k, v);
                assert(entries@ =~= e.insert(i as int, (k, v)));
            }
        }
        self.entries = entries;
    }

    /// The entries of the map in increasing order of their keys: each key
    /// once, with the value stored under it.
    pub fn entries(&self) -> (r: &[(String, V)])
        ensures
            keys_sorted(r@),
            forall|k: Seq<char>| #[trigger] self@.contains_key(k) == has_key(r@, k),
            forall|i: int|
                0 <= i < r@.len() ==> #[trigger] self@[r@[i].0@] == r@[i].1,
    {
        proof {
            use_type_invariant(self);
            assert forall|i: int| 0 <= i < self.entries@.len() implies #[trigger] self@[self.entries@[i].0@]
                == self.entries@[i].1 by {
                lemma_sorted_lookup(self.entries@, i);
            }
        }
        self.entries.as_slice()
    }
}

impl<V: Clone> Clone for StrMap<V> {
    /// A copy holding the same keys, each with a clone of its value.
    fn clone(&self) -> (r: Self)
        ensures
            r@.dom() == self@.dom(),
            forall|k: Seq<char>| #[trigger] r@.contains_key(k) ==> cloned::<V>(self@[k], r@[k]),
    {
        proof {
            use_type_invariant(self);
        }
        let mut entries: Vec<(String, V)> = Vec::new();
        let mut i: usize = 0;
        while i < self.entries.len()
            invariant
                0 <= i <= self.entries@.len(),
                keys_sorted(self.entries@),
                entries@.len() == i,
                forall|j: int|
                    0 <= j < i ==> #[trigger] entries@[j].0 == self.entries@[j].0 && cloned::<V>(
                        self.entries@[j].1,
                        entries@[j].1,
                    ),
            decreases self.entries@.len() - i,
        {
            let k = self.entries[i].0.clone();
            let v = self.entries[i].1.clone();
            let ghost before = entries@;
            entries.push((k, v));
            proof {
                assert forall|j: int| 0 <= j < i + 1 implies #[trigger] entries@[j].0
                    == self.entries@[j].0 && cloned::<V>(self.entries@[j].1, entries@[j].1) by {
                    if j < i {
                        assert(entries@[j] == before[j]);
                    }
                }
            }
            i = i + 1;
        }
        proof {
            assert forall|a: int, b: int| 0 <= a < b < entries@.len() implies text::str_lt(
                #[trigger] entries@[a].0@,
                #[trigger] entries@[b].0@,
            ) by {
                assert(entries@[a].0 == self.entries@[a].0 && entries@[b].0 == self.entries@[b].0);
            }
        }
        let r = StrMap { entries };
        proof {
            assert forall|q: Seq<char>| #[trigger] has_key(r.entries@, q) == has_key(self.entries@, q) by {
                if has_key(r.entries@, q) {
                    let j = key_position(r.entries@, q);
                    assert(self.entries@[j].0@ == q);
                }
                if has_key(self.entries@, q) {
                    let j = key_position(self.entries@, q);
                    assert(r.entries@[j].0@ == q);
                }
            }
            assert(r@.dom() =~= self@.dom());
            assert forall|q: Seq<char>| #[trigger] r@.contains_key(q) implies cloned::<V>(self@[q], r@[q]) by {
                let j = key_position(r.entries@, q);
                let j2 = key_position(self.entries@, q);
                assert(r.entries@[j].0@ == q);
                assert(self.entries@[j2].0@ == q);
                assert(self.entries@[j].0@ == q);
                lemma_sorted_lookup(self.entries@, j);
            }
        }
        r
    }
}

impl<V> Default for StrMap<V> {
    fn default() -> (m: Self)
        ensures
            m@ == Map::<Seq<char>, V>::empty(),
    {
        StrMap::new()
    }
}

} // verus!
