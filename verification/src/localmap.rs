//! Storage that is local to one request: values filed under the keys of
//! their types.

use std::collections::HashMap;
use vstd::prelude::*;

verus! {

broadcast use vstd::std_specs::hash::group_hash_axioms;

/// A map from the keys of types to values.
pub struct LocalMap<V> {
    map: HashMap<u64, V>,
}

impl<V> View for LocalMap<V> {
    type V = Map<u64, V>;

    closed spec fn view(&self) -> Map<u64, V> {
        self.map@
    }
}

impl<V> LocalMap<V> {
    /// An empty map.
    pub fn new() -> (m: Self)
        ensures
            m@ == Map::<u64, V>::empty(),
    {
        LocalMap { map: HashMap::new() }
    }

    /// Whether a value is filed under `key`.
    pub fn contains_key(&self, key: u64) -> (b: bool)
        ensures
            b == self@.contains_key(key),
    {
        self.map.contains_key(&key)
    }

    /// The value that is filed under `key`.
    pub fn get(&self, key: u64) -> (r: Option<&V>)
        ensures
            match r {
                Some(v) => self@.contains_key(key) && *v == self@[key],
                None => !self@.contains_key(key),
            },
    {
        self.map.get(&key)
    }

    /// Files `value` under `key` and returns the value that was there.
    pub fn insert(&mut self, key: u64, value: V) -> (r: Option<V>)
        ensures
            final(self)@ == old(self)@.insert(key, value),
            match r {
                Some(v) => old(self)@.contains_key(key) && v == old(self)@[key],
                None => !old(self)@.contains_key(key),
            },
    {
        self.map.insert(key, value)
    }

    /// Takes out the value that is filed under `key`.
    pub fn remove(&mut self, key: u64) -> (r: Option<V>)
        ensures
            final(self)@ == old(self)@.remove(key),
            match r {
                Some(v) => old(self)@.contains_key(key) && v == old(self)@[key],
                None => !old(self)@.contains_key(key),
            },
    {
        self.map.remove(&key)
    }

    /// The value that is filed under `key`, after `value` is filed there if
    /// nothing was.
    pub fn get_or_insert(&mut self, key: u64, value: V) -> (r: &V)
        ensures
            final(self)@ == if old(self)@.contains_key(key) {
                old(self)@
            } else {
                old(self)@.insert(key, value)
            },
            *r == final(self)@[key],
            final(self)@.contains_key(key),
    {
        if !self.map.contains_key(&key) {
            self.map.insert(key, value);
        }
        let found = self.map.get(&key);
        found.unwrap()
    }
}

} // verus!
