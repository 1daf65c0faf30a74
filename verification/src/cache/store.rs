//! The keyed store of one shard: a hash map from key text to value text.
//!
//! The map itself is `hashbrown::HashMap<String, String>`. Nothing is proved
//! of it here: each function of the store states what the map's own
//! documentation and source promise, over the entries that the map holds.

use vstd::prelude::*;

verus! {

/// The store of one shard. It owns a `hashbrown::HashMap<String, String>`.
#[verifier::external_body]
#[derive(Debug)]
pub struct Store {
    map: hashbrown::HashMap<String, String>,
}

/// Entries as a mathematical map from key text to value text.
pub type Entries = Map<Seq<char>, Seq<char>>;

/// The entries that a store holds, keys and values as text.
pub uninterp spec fn store_entries(store: Store) -> Map<Seq<char>, Seq<char>>;

/// The text of an optional value.
pub open spec fn text_of(value: Option<String>) -> Option<Seq<char>> {
    match value {
        Some(text) => Some(text@),
        None => None,
    }
}

/// The value that `key` maps to, if any.
pub open spec fn lookup(entries: Entries, key: Seq<char>) -> Option<Seq<char>> {
    if entries.contains_key(key) {
        Some(entries[key])
    } else {
        None
    }
}

impl Store {
    /// `hashbrown::HashMap::new`: the new map holds no entry.
    #[verifier::external_body]
    pub(crate) fn new() -> (store: Store)
        ensures
            store_entries(store) == Entries::empty(),
    {
        Store { map: hashbrown::HashMap::new() }
    }

    /// `hashbrown::HashMap::insert`: afterwards the key maps to the new value
    /// and every other entry is as before; the value that the key had is
    /// returned, or nothing if the key was not held.
    #[verifier::external_body]
    pub(crate) fn insert(&mut self, key: String, value: String) -> (previous: Option<String>)
        ensures
            store_entries(*final(self)) == store_entries(*old(self)).insert(key@, value@),
            text_of(previous) == lookup(store_entries(*old(self)), key@),
    {
        self.map.insert(key, value)
    }

    /// `hashbrown::HashMap::get`: a reference to the value that the key maps
    /// to, or nothing if the key is not held.
    #[verifier::external_body]
    pub(crate) fn get(&self, key: &str) -> (found: Option<&String>)
        ensures
            match found {
                Some(value) => lookup(store_entries(*self), key@) == Some(value@),
                None => lookup(store_entries(*self), key@) is None,
            },
    {
        self.map.get(key)
    }

    /// `hashbrown::HashMap::remove`: afterwards the key is not held and every
    /// other entry is as before; the value that the key had is returned, or
    /// nothing if the key was not held.
    #[verifier::external_body]
    pub(crate) fn remove(&mut self, key: &str) -> (removed: Option<String>)
        ensures
            store_entries(*final(self)) == store_entries(*old(self)).remove(key@),
            text_of(removed) == lookup(store_entries(*old(self)), key@),
    {
        self.map.remove(key)
    }

    /// `hashbrown::HashMap::len`: the number of entries held.
    #[verifier::external_body]
    pub(crate) fn len(&self) -> (count: usize)
        ensures
            count == store_entries(*self).len(),
    {
        self.map.len()
    }

    /// `hashbrown::HashMap::keys`, each key handed out as a copy: every key
    /// held comes out exactly once, in an order that is not fixed.
    #[verifier::external_body]
    pub(crate) fn keys(&self) -> (keys: Vec<String>)
        ensures
            keys.deep_view().no_duplicates(),
            keys.deep_view().to_set() == store_entries(*self).dom(),
    {
        self.map.keys().cloned().collect()
    }
}

} // verus!
