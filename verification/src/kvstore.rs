//! A string-keyed, string-valued dictionary.

use vstd::hash_map::StringHashMap;
use vstd::prelude::*;
use vstd::string::*;

verus! {

/// The view of an optional string: `None` stays `None`, a string becomes its characters.
pub open spec fn opt_str_view(o: Option<String>) -> Option<Seq<char>> {
    match o {
        Some(s) => Some(s@),
        None => None,
    }
}

/// What the dictionary `m` holds under `key`, if anything.
pub open spec fn lookup(m: Map<Seq<char>, Seq<char>>, key: Seq<char>) -> Option<Seq<char>> {
    if m.contains_key(key) {
        Some(m[key])
    } else {
        None
    }
}

/// A dictionary from keys to values, both strings.
pub struct KVStore {
    data: StringHashMap<String>,
}

impl View for KVStore {
    type V = Map<Seq<char>, Seq<char>>;

    closed spec fn view(&self) -> Map<Seq<char>, Seq<char>> {
        self.data@.map_values(|v: String| v@)
    }
}

impl KVStore {
    /// An empty store.
    pub fn new() -> (store: Self)
        ensures
            store@ == Map::<Seq<char>, Seq<char>>::empty(),
    {
        let store = KVStore { data: StringHashMap::new() };
        assert(store@ =~= Map::<Seq<char>, Seq<char>>::empty());
        store
    }

    /// The value stored under `key`, if any.
    pub fn get(&self, key: &str) -> (value: Option<String>)
        ensures
            opt_str_view(value) == lookup(self@, key@),
    {
        match self.data.get(key) {
            Some(v) => Some(v.clone()),
            None => None,
        }
    }

    /// Stores `val` under `key` and returns the value it replaces, if any.
    pub fn set(&mut self, key: &str, val: &str) -> (previous: Option<String>)
        ensures
            final(self)@ == old(self)@.insert(key@, val@),
            opt_str_view(previous) == lookup(old(self)@, key@),
    {
        let previous = self.get(key);
        self.data.insert(String::from_str(key), String::from_str(val));
        assert(self@ =~= old(self)@.insert(key@, val@));
        previous
    }

    /// Removes `key` and returns the value it held, if any.
    pub fn delete(&mut self, key: &str) -> (removed: Option<String>)
        ensures
            final(self)@ == old(self)@.remove(key@),
            opt_str_view(removed) == lookup(old(self)@, key@),
    {
        let removed = self.get(key);
        self.data.remove(key);
        assert(self@ =~= old(self)@.remove(key@));
        removed
    }
}

} // verus!
