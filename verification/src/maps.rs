//! A map from text keys to values that keeps its entries in the order in
//! which their keys were first inserted, so that walking it is repeatable.

use vstd::prelude::*;
use vstd::string::*;

verus! {

/// One entry of a [`StringMap`].
#[derive(Clone, Debug, PartialEq, Eq)]
pub struct MapEntry<V> {
    pub key: String,
    pub value: V,
}

/// An insertion-ordered map keyed by text.
#[derive(Clone, Debug, PartialEq, Eq)]
pub struct StringMap<V> {
    pub entries: Vec<MapEntry<V>>,
}

/// The position of the first of `keys` that equals `key`.
pub open spec fn lookup(keys: Seq<Seq<char>>, key: Seq<char>) -> Option<int>
    decreases keys.len(),
{
    if keys.len() == 0 {
        None
    } else {
        match lookup(keys.drop_last(), key) {
            Some(i) => Some(i),
            None => if keys.last() == key {
                Some(keys.len() - 1)
            } else {
                None
            },
        }
    }
}

/// `lookup` finds the least position that holds the key, and finds one
/// whenever the key is present.
pub proof fn lemma_lookup(keys: Seq<Seq<char>>, key: Seq<char>)
    ensures
        match lookup(keys, key) {
            Some(i) => 0 <= i < keys.len() && keys[i] == key && forall|j: int|
                0 <= j < i ==> keys[j] != key,
            None => forall|j: int| 0 <= j < keys.len() ==> keys[j] != key,
        },
    decreases keys.len(),
{
    if keys.len() > 0 {
        let init = keys.drop_last();
        lemma_lookup(init, key);
        assert(forall|j: int| 0 <= j < init.len() ==> init[j] == keys[j]);
    }
}

/// What is found among a prefix of the keys is found among all of them.
pub proof fn lemma_lookup_prefix(keys: Seq<Seq<char>>, key: Seq<char>, n: int)
    requires
        0 <= n <= keys.len(),
        lookup(keys.take(n), key) is Some,
    ensures
        lookup(keys, key) == lookup(keys.take(n), key),
    decreases keys.len() - n,
{
    if n == keys.len() {
        assert(keys.take(n) == keys);
    } else {
        assert(keys.take(n + 1).drop_last() == keys.take(n));
        lemma_lookup_prefix(keys, key, n + 1);
    }
}

impl<V> StringMap<V> {
    /// The keys, in stored order.
    pub open spec fn keys(&self) -> Seq<Seq<char>> {
        Seq::new(self.entries@.len(), |i: int| self.entries@[i].key@)
    }

    /// The position of the entry that `key` names.
    pub open spec fn position(&self, key: Seq<char>) -> Option<int> {
        lookup(self.keys(), key)
    }

    /// The value stored under `key`.
    pub open spec fn value_of(&self, key: Seq<char>) -> Option<V> {
        match self.position(key) {
            Some(i) => Some(self.entries@[i].value),
            None => None,
        }
    }

    /// Whether some entry has this key.
    pub open spec fn has_key(&self, key: Seq<char>) -> bool {
        self.position(key) is Some
    }

    /// The set of keys.
    pub open spec fn key_set(&self) -> Set<Seq<char>> {
        Set::new(|k: Seq<char>| self.has_key(k))
    }

    /// No key occurs twice.
    pub open spec fn distinct_keys(&self) -> bool {
        forall|i: int, j: int|
            0 <= i < j < self.entries@.len() ==> self.entries@[i].key@ != self.entries@[j].key@
    }

    /// An empty map.
    pub fn new() -> (r: Self)
        ensures
            r.entries@.len() == 0,
            r.distinct_keys(),
    {
        StringMap { entries: Vec::new() }
    }

    /// The number of entries.
    pub fn len(&self) -> (r: usize)
        ensures
            r == self.entries@.len(),
    {
        self.entries.len()
    }

    /// Whether the map has no entry.
    pub fn is_empty(&self) -> (r: bool)
        ensures
            r == (self.entries@.len() == 0),
    {
        self.entries.len() == 0
    }

    /// Whether no key occurs twice.
    pub fn has_distinct_keys(&self) -> (r: bool)
        ensures
            r == self.distinct_keys(),
    {
        let mut j: usize = 0;
        while j < self.entries.len()
            invariant
                j <= self.entries@.len(),
                forall|a: int, b: int|
                    0 <= a < b < j ==> self.entries@[a].key@ != self.entries@[b].key@,
            decreases self.entries@.len() - j,
        {
            let mut i: usize = 0;
            while i < j
                invariant
                    i <= j < self.entries@.len(),
                    forall|a: int|
                        0 <= a < i ==> self.entries@[a].key@ != self.entries@[j as int].key@,
                decreases j - i,
            {
                if self.entries[i].key == self.entries[j].key {
                    return false;
                }
                i += 1;
            }
            j += 1;
        }
        true
    }

    /// The position of the entry that `key` names.
    pub fn find(&self, key: &str) -> (r: Option<usize>)
        ensures
            match r {
                Some(i) => self.position(key@) == Some(i as int) && i < self.entries@.len()
                    && self.entries@[i as int].key@ == key@,
                None => self.position(key@) is None,
            },
    {
        let wanted = key.to_string();
        let mut i: usize = 0;
        assert(self.keys().take(0) == Seq::<Seq<char>>::empty());
        while i < self.entries.len()
            invariant
                i <= self.entries@.len(),
                wanted@ == key@,
                lookup(self.keys().take(i as int), key@) is None,
            decreases self.entries@.len() - i,
        {
            assert(self.keys().take(i + 1).drop_last() == self.keys().take(i as int));
            if self.entries[i].key == wanted {
                proof {
                    lemma_lookup_prefix(self.keys(), key@, i + 1);
                }
                return Some(i);
            }
            i += 1;
        }
        assert(self.keys().take(i as int) == self.keys());
        None
    }

    /// The value stored under `key`.
    pub fn get(&self, key: &str) -> (r: Option<&V>)
        ensures
            match r {
                Some(v) => self.position(key@) is Some && *v == self.entries@[self.position(
                    key@,
                )->0].value,
                None => self.position(key@) is None,
            },
    {
        match self.find(key) {
            Some(i) => Some(&self.entries[i].value),
            None => None,
        }
    }

    /// Whether some entry has this key.
    pub fn contains_key(&self, key: &str) -> (r: bool)
        ensures
            r == self.has_key(key@),
    {
        self.find(key).is_some()
    }

    /// Stores `value` under `key`: in place of the entry that the key had, or
    /// as a new last entry.
    pub fn insert(&mut self, key: String, value: V)
        ensures
            match old(self).position(key@) {
                Some(i) => final(self).entries@ == old(self).entries@.update(
                    i,
                    MapEntry { key, value },
                ),
                None => final(self).entries@ == old(self).entries@.push(MapEntry { key, value }),
            },
            old(self).distinct_keys() ==> final(self).distinct_keys(),
            final(self).keys() == if old(self).has_key(key@) {
                old(self).keys()
            } else {
                old(self).keys().push(key@)
            },
            forall|k: Seq<char>|
                #[trigger] final(self).value_of(k) == if k == key@ {
                    Some(value)
                } else {
                    old(self).value_of(k)
                },
    {
        let ghost before = self.entries@;
        let ghost old_keys = self.keys();
        proof {
            lemma_lookup(old_keys, key@);
        }
        match self.find(key.as_str()) {
            Some(i) => {
                self.entries.set(i, MapEntry { key, value });
                assert(self.keys() == old(self).keys());
                assert forall|k: Seq<char>| #[trigger]
                    self.value_of(k) == if k == key@ {
                        Some(value)
                    } else {
                        old(self).value_of(k)
                    } by {
                    lemma_lookup(old_keys, k);
                }
                assert forall|a: int, b: int| 0 <= a < b < self.entries@.len() implies (
                before[a].key@ != before[b].key@) == (self.entries@[a].key@
                    != self.entries@[b].key@) by {
                    assert(self.keys()[a] == old(self).keys()[a]);
                    assert(self.keys()[b] == old(self).keys()[b]);
                }
            },
            None => {
                proof {
                    lemma_lookup(self.keys(), key@);
                }
                self.entries.push(MapEntry { key, value });
                assert(self.keys() == old(self).keys().push(key@));
                assert(self.keys().drop_last() == old_keys);
                assert forall|k: Seq<char>| #[trigger]
                    self.value_of(k) == if k == key@ {
                        Some(value)
                    } else {
                        old(self).value_of(k)
                    } by {
                    lemma_lookup(old_keys, k);
                }
                assert forall|a: int, b: int|
                    0 <= a < b < self.entries@.len() && old(self).distinct_keys() implies self.entries@[a].key@
                    != self.entries@[b].key@ by {
                    if b == before.len() {
                        assert(old(self).keys()[a] != key@);
                    }
                }
            },
        }
    }
}

} // verus!
