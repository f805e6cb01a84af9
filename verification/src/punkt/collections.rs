//! The `hashbrown` collections that hold a trained model, each behind the operations
//! the model uses, with what each does to the collection's contents.

use hashbrown::{HashMap, HashSet};
use vstd::prelude::*;

verus! {

/// A set of strings, held in a `hashbrown::HashSet<String>`.
#[verifier::external_body]
#[derive(Debug)]
pub struct StringSet {
    set: HashSet<String>,
}

/// The strings a [`StringSet`] holds.
pub uninterp spec fn string_set_contents(s: StringSet) -> Set<Seq<char>>;

impl StringSet {
    /// `HashSet::new`: an empty set.
    #[verifier::external_body]
    pub fn new() -> (r: Self)
        ensures
            string_set_contents(r) == Set::<Seq<char>>::empty(),
    {
        StringSet { set: HashSet::new() }
    }

    /// `HashSet::contains`: whether an equal string is held.
    #[verifier::external_body]
    pub fn contains(&self, s: &str) -> (b: bool)
        ensures
            b == string_set_contents(*self).contains(s@),
    {
        self.set.contains(s)
    }

    /// `HashSet::insert`: adds the string; true iff no equal string was held.
    #[verifier::external_body]
    pub fn insert(&mut self, s: String) -> (b: bool)
        ensures
            string_set_contents(*final(self)) == string_set_contents(*old(self)).insert(s@),
            b == !string_set_contents(*old(self)).contains(s@),
    {
        self.set.insert(s)
    }

    /// `HashSet::remove`: removes an equal string; true iff one was held.
    #[verifier::external_body]
    pub fn remove(&mut self, s: &str) -> (b: bool)
        ensures
            string_set_contents(*final(self)) == string_set_contents(*old(self)).remove(s@),
            b == string_set_contents(*old(self)).contains(s@),
    {
        self.set.remove(s)
    }
}

/// A map from strings to sets of strings, held in a `hashbrown::HashMap<String, StringSet>`.
#[verifier::external_body]
#[derive(Debug)]
pub struct StringSetMap {
    map: HashMap<String, StringSet>,
}

/// The key-to-set mapping a [`StringSetMap`] holds.
pub uninterp spec fn string_set_map_contents(m: StringSetMap) -> Map<Seq<char>, Set<Seq<char>>>;

/// The set a map holds for `key`, or the empty set.
pub open spec fn bucket(m: Map<Seq<char>, Set<Seq<char>>>, key: Seq<char>) -> Set<Seq<char>> {
    if m.contains_key(key) {
        m[key]
    } else {
        Set::empty()
    }
}

impl StringSetMap {
    /// `HashMap::new`: an empty map.
    #[verifier::external_body]
    pub fn new() -> (r: Self)
        ensures
            string_set_map_contents(r).dom() == Set::<Seq<char>>::empty(),
    {
        StringSetMap { map: HashMap::new() }
    }

    /// `HashMap::get`: the set held for `key`, if any.
    #[verifier::external_body]
    pub fn get(&self, key: &str) -> (r: Option<&StringSet>)
        ensures
            match r {
                Some(s) => string_set_map_contents(*self).contains_key(key@) && string_set_contents(*s)
                    == string_set_map_contents(*self)[key@],
                None => !string_set_map_contents(*self).contains_key(key@),
            },
    {
        self.map.get(key)
    }

    /// `HashMap::contains_key`.
    #[verifier::external_body]
    pub fn contains_key(&self, key: &str) -> (b: bool)
        ensures
            b == string_set_map_contents(*self).contains_key(key@),
    {
        self.map.contains_key(key)
    }

    /// `HashMap::insert`: maps `key` to `set`, replacing any set held for it.
    #[verifier::external_body]
    pub fn insert(&mut self, key: String, set: StringSet)
        ensures
            string_set_map_contents(*final(self)) == string_set_map_contents(*old(self)).insert(
                key@,
                string_set_contents(set),
            ),
    {
        self.map.insert(key, set);
    }

    /// `HashMap::entry(key).or_insert(empty set)`, then `HashSet::insert(value)` into
    /// that set: adds `value` to the set held for `key`, creating it if absent; true iff
    /// `value` was not in it.
    #[verifier::external_body]
    pub fn insert_into_bucket(&mut self, key: String, value: String) -> (b: bool)
        ensures
            string_set_map_contents(*final(self)) == string_set_map_contents(*old(self)).insert(
                key@,
                bucket(string_set_map_contents(*old(self)), key@).insert(value@),
            ),
            b == !bucket(string_set_map_contents(*old(self)), key@).contains(value@),
    {
        self.map.entry(key).or_insert(StringSet { set: HashSet::new() }).set.insert(value)
    }
}

/// A map from strings to bytes, held in a `hashbrown::HashMap<String, u8>`.
#[verifier::external_body]
#[derive(Debug)]
pub struct ByteMap {
    map: HashMap<String, u8>,
}

/// The key-to-byte mapping a [`ByteMap`] holds.
pub uninterp spec fn byte_map_contents(m: ByteMap) -> Map<Seq<char>, u8>;

impl ByteMap {
    /// `HashMap::new`: an empty map.
    #[verifier::external_body]
    pub fn new() -> (r: Self)
        ensures
            byte_map_contents(r).dom() == Set::<Seq<char>>::empty(),
    {
        ByteMap { map: HashMap::new() }
    }

    /// `HashMap::get`, copied out: the byte held for `key`, if any.
    #[verifier::external_body]
    pub fn get(&self, key: &str) -> (r: Option<u8>)
        ensures
            match r {
                Some(b) => byte_map_contents(*self).contains_key(key@) && byte_map_contents(*self)[key@]
                    == b,
                None => !byte_map_contents(*self).contains_key(key@),
            },
    {
        self.map.get(key).copied()
    }

    /// `HashMap::insert`: maps `key` to `value`, replacing any byte held for it.
    #[verifier::external_body]
    pub fn insert(&mut self, key: String, value: u8)
        ensures
            byte_map_contents(*final(self)) == byte_map_contents(*old(self)).insert(key@, value),
    {
        self.map.insert(key, value);
    }
}

} // verus!
