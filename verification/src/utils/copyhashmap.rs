//! A hash map from integers to integers, as the object tables of a client use it.

use vstd::prelude::*;
use ahash::AHashMap;

verus! {

#[verifier::external_type_specification]
#[verifier::external_body]
#[verifier::reject_recursive_types(K)]
#[verifier::reject_recursive_types(V)]
#[verifier::reject_recursive_types(S)]
pub struct ExAHashMap<K, V, S>(AHashMap<K, V, S>);

#[verifier::external_type_specification]
#[verifier::external_body]
pub struct ExRandomState(ahash::RandomState);

/// What the map holds: each key that is present, with its value.
pub uninterp spec fn entries(map: AHashMap<u64, usize>) -> Map<u64, usize>;

pub open spec fn no_entries() -> Map<u64, usize> {
    Map::empty()
}

/// The value under a key in a map, where the key is present.
pub open spec fn lookup(m: Map<u64, usize>, key: u64) -> Option<usize> {
    if m.dom().contains(key) {
        Some(m[key])
    } else {
        None
    }
}

/// `AHashMap::new`: the map that it returns holds nothing.
#[verifier::external_body]
pub(crate) fn map_new() -> (map: AHashMap<u64, usize>)
    ensures
        entries(map) == no_entries(),
{
    AHashMap::new()
}

/// `AHashMap::insert`, which hands the pair to the map of the standard library:
/// afterwards the key is present with the new value, every other key is as it was,
/// and the value that the key had before comes back.
#[verifier::external_body]
pub(crate) fn map_insert(map: &mut AHashMap<u64, usize>, key: u64, value: usize) -> (prev: Option<usize>)
    ensures
        entries(*final(map)) == entries(*old(map)).insert(key, value),
        prev == lookup(entries(*old(map)), key),
{
    map.insert(key, value)
}

/// `AHashMap::remove`, which hands the key to the map of the standard library:
/// afterwards the key is absent, every other key is as it was, and the value that
/// the key had comes back.
#[verifier::external_body]
pub(crate) fn map_remove(map: &mut AHashMap<u64, usize>, key: u64) -> (prev: Option<usize>)
    ensures
        entries(*final(map)) == entries(*old(map)).remove(key),
        prev == lookup(entries(*old(map)), key),
{
    map.remove(&key)
}

/// `AHashMap::get`, which asks the map of the standard library: the value under the
/// key, where the key is present.
#[verifier::external_body]
pub(crate) fn map_get(map: &AHashMap<u64, usize>, key: u64) -> (value: Option<usize>)
    ensures
        value == lookup(entries(*map), key),
{
    map.get(&key).copied()
}

/// A map from integer keys to places in a table.
pub struct CopyHashMap {
    pub map: AHashMap<u64, usize>,
}

impl View for CopyHashMap {
    type V = Map<u64, usize>;

    open spec fn view(&self) -> Map<u64, usize> {
        entries(self.map)
    }
}

impl CopyHashMap {
    pub fn new() -> (r: CopyHashMap)
        ensures
            r@ == no_entries(),
    {
        CopyHashMap { map: map_new() }
    }

    /// Puts `value` under `key`, in place of what was there.
    pub fn set(&mut self, key: u64, value: usize)
        ensures
            final(self)@ == old(self)@.insert(key, value),
    {
        let _ = map_insert(&mut self.map, key, value);
    }

    pub fn get(&self, key: u64) -> (r: Option<usize>)
        ensures
            r == lookup(self@, key),
    {
        map_get(&self.map, key)
    }

    /// Takes `key` out and returns what was under it.
    pub fn remove(&mut self, key: u64) -> (r: Option<usize>)
        ensures
            final(self)@ == old(self)@.remove(key),
            r == lookup(old(self)@, key),
    {
        map_remove(&mut self.map, key)
    }

    pub fn contains(&self, key: u64) -> (r: bool)
        ensures
            r == self@.dom().contains(key),
    {
        map_get(&self.map, key).is_some()
    }
}

} // verus!
