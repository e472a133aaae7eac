//! A map from text keys to values that keeps its keys in the order in which
//! they were first inserted.
//!
//! The keys live in an `IndexMap`, which finds a key by hashing and remembers
//! the order of insertion. Each key is mapped to its place in that order, and
//! the values stand in a vector at the same places.

use vstd::prelude::*;
use indexmap::IndexMap;
use std::collections::hash_map::RandomState;

verus! {

#[verifier::external_type_specification]
#[verifier::external_body]
#[verifier::reject_recursive_types(K)]
#[verifier::reject_recursive_types(V)]
#[verifier::reject_recursive_types(S)]
pub struct ExIndexMap<K, V, S>(IndexMap<K, V, S>);

/// What an `IndexMap` from text to places holds: its key-value pairs in the
/// order of the map.
pub uninterp spec fn key_slots(m: IndexMap<String, usize, RandomState>) -> Seq<(Seq<char>, usize)>;

/// Calls `IndexMap::new`, which makes a map without pairs.
#[verifier::external_body]
fn slots_new() -> (m: IndexMap<String, usize, RandomState>)
    ensures
        key_slots(m) == Seq::<(Seq<char>, usize)>::empty(),
{
    IndexMap::new()
}

/// Calls `IndexMap::get`, which returns the value stored for `key` if the map
/// holds a pair with that key, and `None` if no pair has that key.
#[verifier::external_body]
fn slots_get(m: &IndexMap<String, usize, RandomState>, key: &str) -> (slot: Option<usize>)
    ensures
        match slot {
            Some(v) => exists|i: int|
                0 <= i < key_slots(*m).len() && #[trigger] key_slots(*m)[i] == (key@, v),
            None => forall|i: int|
                0 <= i < key_slots(*m).len() ==> (#[trigger] key_slots(*m)[i]).0 != key@,
        },
{
    m.get(key).copied()
}

/// Calls `IndexMap::insert`. Where a pair with an equal key exists, the pair
/// keeps its place, its value becomes `value` and the older value is
/// returned; where none exists, the new pair is added last in order and
/// `None` is returned.
#[verifier::external_body]
fn slots_insert(
    m: &mut IndexMap<String, usize, RandomState>,
    key: String,
    value: usize,
) -> (older: Option<usize>)
    ensures
        match older {
            Some(v) => exists|i: int|
                0 <= i < key_slots(*old(m)).len() && #[trigger] key_slots(*old(m))[i] == (key@, v)
                    && key_slots(*final(m)) == key_slots(*old(m)).update(i, (key@, value)),
            None => {
                &&& forall|i: int|
                    0 <= i < key_slots(*old(m)).len() ==> (#[trigger] key_slots(*old(m))[i]).0 != key@
                &&& key_slots(*final(m)) == key_slots(*old(m)).push((key@, value))
            },
        },
{
    m.insert(key, value)
}

/// Calls `IndexMap::get_index`, which returns the pair at place `i` of the
/// map's order, for a place below the number of pairs. Hands out the key.
#[verifier::external_body]
fn slots_key(m: &IndexMap<String, usize, RandomState>, i: usize) -> (key: Option<&String>)
    ensures
        match key {
            Some(k) => i < key_slots(*m).len() && k@ == key_slots(*m)[i as int].0,
            None => i >= key_slots(*m).len(),
        },
{
    m.get_index(i).map(|pair| pair.0)
}

/// The place of `key` among `keys`, if it is one of them.
pub open spec fn place_of(keys: Seq<Seq<char>>, key: Seq<char>) -> Option<int> {
    if keys.contains(key) {
        Some(keys.index_of(key))
    } else {
        None
    }
}

/// Among keys without duplicates, the place of the key at place `i` is `i`.
pub proof fn lemma_place_of(keys: Seq<Seq<char>>, i: int)
    requires
        keys.no_duplicates(),
        0 <= i < keys.len(),
    ensures
        place_of(keys, keys[i]) == Some(i),
{
    assert(keys.contains(keys[i]));
}

/// An insertion-ordered map from text keys to values of type `V`.
#[derive(Debug)]
pub struct ShadowMap<V> {
    /// Each key with its place in the order of insertion.
    pub index: IndexMap<String, usize, RandomState>,
    /// The values, each at the place of its key.
    pub items: Vec<V>,
}

impl<V> ShadowMap<V> {
    /// The index holds one key for each value, maps each key to its place,
    /// and holds no key twice.
    pub open spec fn wf(&self) -> bool {
        &&& key_slots(self.index).len() == self.items.len()
        &&& forall|i: int|
            0 <= i < self.items.len() ==> (#[trigger] key_slots(self.index)[i]).1 == i
        &&& self.keys().no_duplicates()
    }

    /// The keys in the order of insertion.
    pub open spec fn keys(&self) -> Seq<Seq<char>> {
        Seq::new(self.items.len() as nat, |i: int| key_slots(self.index)[i].0)
    }

    /// An empty map.
    pub fn new() -> (m: Self)
        ensures
            m.wf(),
            m.items@.len() == 0,
    {
        ShadowMap { index: slots_new(), items: Vec::new() }
    }

    /// The number of pairs.
    pub fn len(&self) -> (n: usize)
        ensures
            n == self.items@.len(),
    {
        self.items.len()
    }

    /// Whether the map holds no pair.
    pub fn is_empty(&self) -> (empty: bool)
        ensures
            empty == (self.items@.len() == 0),
    {
        self.items.len() == 0
    }

    /// The place of `key`, or `None` where the map does not hold it.
    pub fn find(&self, key: &str) -> (place: Option<usize>)
        requires
            self.wf(),
        ensures
            match place {
                Some(i) => i < self.items@.len() && place_of(self.keys(), key@) == Some(i as int)
                    && self.keys()[i as int] == key@,
                None => place_of(self.keys(), key@) is None,
            },
    {
        let slot = slots_get(&self.index, key);
        match slot {
            Some(v) => {
                proof {
                    let i = choose|i: int|
                        0 <= i < key_slots(self.index).len() && #[trigger] key_slots(self.index)[i]
                            == (key@, v);
                    assert(self.keys()[i] == key@);
                    assert(self.keys().contains(key@));
                    assert(self.keys().index_of(key@) == i);
                }
                Some(v)
            },
            None => {
                proof {
                    assert forall|i: int| 0 <= i < self.keys().len() implies self.keys()[i]
                        != key@ by {
                        assert(key_slots(self.index)[i].0 != key@);
                    }
                }
                None
            },
        }
    }

    /// The key at place `i`.
    pub fn key(&self, i: usize) -> (key: &String)
        requires
            self.wf(),
            i < self.items@.len(),
        ensures
            key@ == self.keys()[i as int],
    {
        match slots_key(&self.index, i) {
            Some(k) => k,
            None => {
                proof {
                    assert(false);
                }
                unreached()
            },
        }
    }

    /// The value at place `i`.
    pub fn item(&self, i: usize) -> (item: &V)
        requires
            i < self.items@.len(),
        ensures
            *item == self.items@[i as int],
    {
        &self.items[i]
    }

    /// The value at place `i`, to be changed in place.
    pub fn item_mut(&mut self, i: usize) -> (item: &mut V)
        requires
            i < old(self).items@.len(),
        ensures
            *item == old(self).items@[i as int],
            final(self).items@ == old(self).items@.update(i as int, *final(item)),
            final(self).index == old(self).index,
    {
        &mut self.items[i]
    }

    /// The value stored for `key`, if there is one.
    pub fn get(&self, key: &str) -> (item: Option<&V>)
        requires
            self.wf(),
        ensures
            match item {
                Some(v) => place_of(self.keys(), key@) is Some && *v == self.items@[place_of(
                    self.keys(),
                    key@,
                )->0],
                None => place_of(self.keys(), key@) is None,
            },
    {
        match self.find(key) {
            Some(i) => Some(&self.items[i]),
            None => None,
        }
    }

    /// Stores `value` for `key`. A key that the map holds keeps its place and
    /// the older value is returned; a new key is added last.
    pub fn insert(&mut self, key: String, value: V) -> (older: Option<V>)
        requires
            old(self).wf(),
        ensures
            final(self).wf(),
            match place_of(old(self).keys(), key@) {
                Some(i) => {
                    &&& older == Some(old(self).items@[i])
                    &&& final(self).keys() == old(self).keys()
                    &&& final(self).items@ == old(self).items@.update(i, value)
                },
                None => {
                    &&& older is None
                    &&& final(self).keys() == old(self).keys().push(key@)
                    &&& final(self).items@ == old(self).items@.push(value)
                },
            },
    {
        match self.find(key.as_str()) {
            Some(i) => {
                let mut value = value;
                std::mem::swap(&mut self.items[i], &mut value);
                proof {
                    assert(final(self).keys() =~= old(self).keys());
                }
                Some(value)
            },
            None => {
                let n: usize = self.items.len();
                let ghost before = key_slots(self.index);
                let older = slots_insert(&mut self.index, key, n);
                proof {
                    if older is Some {
                        let i = choose|i: int|
                            0 <= i < before.len() && #[trigger] before[i] == (key@, older->0);
                        assert(old(self).keys()[i] == key@);
                        assert(false);
                    }
                }
                self.items.push(value);
                proof {
                    assert(self.keys() =~= old(self).keys().push(key@));
                    assert(!old(self).keys().contains(key@));
                    assert forall|i: int, j: int|
                        0 <= i < self.keys().len() && 0 <= j < self.keys().len() && i
                            != j implies self.keys()[i] != self.keys()[j] by {
                        if i < n && j < n {
                            assert(old(self).keys()[i] != old(self).keys()[j]);
                        } else if i < n {
                            assert(old(self).keys()[i] != key@);
                        } else {
                            assert(old(self).keys()[j] != key@);
                        }
                    }
                }
                None
            },
        }
    }

    /// Takes the map apart: a copy of its keys, and its values, both in the
    /// order of insertion.
    pub fn into_entries(self) -> (parts: (Vec<String>, Vec<V>))
        requires
            self.wf(),
        ensures
            parts.0@.len() == self.items@.len(),
            forall|i: int| 0 <= i < parts.0@.len() ==> (#[trigger] parts.0@[i])@ == self.keys()[i],
            parts.1 == self.items,
    {
        let mut keys: Vec<String> = Vec::new();
        let n: usize = self.items.len();
        let mut i: usize = 0;
        while i < n
            invariant
                self.wf(),
                n == self.items@.len(),
                0 <= i <= n,
                keys@.len() == i,
                forall|j: int| 0 <= j < i ==> (#[trigger] keys@[j])@ == self.keys()[j],
            decreases n - i,
        {
            keys.push(self.key(i).clone());
            i = i + 1;
        }
        (keys, self.items)
    }
}

}
