//! The server's key/value store: a `dashmap::DashMap` from keys to the UTF-8
//! bytes of their values, seen through `contents`.

use bytes::Bytes;
use dashmap::DashMap;
use vstd::prelude::*;
use vstd::utf8::encode_utf8;

use crate::text::views;

verus! {

broadcast use vstd::string::group_string_axioms;

#[verifier::external_type_specification]
#[verifier::external_body]
#[verifier::reject_recursive_types(K)]
#[verifier::reject_recursive_types(V)]
#[verifier::reject_recursive_types(S)]
pub struct ExDashMap<K, V, S>(DashMap<K, V, S>);

#[verifier::external_type_specification]
#[verifier::external_body]
pub struct ExBytes(Bytes);

/// What a `DashMap<String, Bytes>` holds: each key's characters mapped to the
/// bytes of its value.
pub uninterp spec fn contents(m: DashMap<String, Bytes>) -> Map<Seq<char>, Seq<u8>>;

/// The contents of a store that holds no key.
pub open spec fn no_entries() -> Map<Seq<char>, Seq<u8>> {
    Map::empty()
}

/// `DashMap::new` makes a map that holds nothing.
#[verifier::external_body]
fn map_new() -> (m: DashMap<String, Bytes>)
    ensures
        contents(m) == no_entries(),
{
    DashMap::new()
}

/// `DashMap::insert` maps `key` to the value, replacing any value it had. The value
/// is stored as `Bytes::from(value)`, which holds the UTF-8 bytes of the string.
#[verifier::external_body]
fn map_insert(m: &mut DashMap<String, Bytes>, key: String, value: String)
    ensures
        contents(*final(m)) == contents(*old(m)).insert(key@, encode_utf8(value@)),
{
    m.insert(key, Bytes::from(value));
}

/// `DashMap::get` finds the value of `key`, handed out here as a copy of its bytes.
#[verifier::external_body]
fn map_get(m: &DashMap<String, Bytes>, key: &str) -> (r: Option<Vec<u8>>)
    ensures
        match r {
            Some(v) => contents(*m).contains_key(key@) && v@ == contents(*m)[key@],
            None => !contents(*m).contains_key(key@),
        },
{
    m.get(key).map(|entry| entry.value().to_vec())
}

/// `DashMap::remove` takes `key` out of the map and hands back the value it had,
/// here as a copy of its bytes.
#[verifier::external_body]
fn map_remove(m: &mut DashMap<String, Bytes>, key: &str) -> (r: Option<Vec<u8>>)
    ensures
        contents(*final(m)) == contents(*old(m)).remove(key@),
        match r {
            Some(v) => contents(*old(m)).contains_key(key@) && v@ == contents(*old(m))[key@],
            None => !contents(*old(m)).contains_key(key@),
        },
{
    m.remove(key).map(|(_, value)| value.to_vec())
}

/// `DashMap::shrink_to_fit` releases spare capacity and keeps what the map holds.
#[verifier::external_body]
fn map_shrink_to_fit(m: &mut DashMap<String, Bytes>)
    ensures
        contents(*final(m)) == contents(*old(m)),
{
    m.shrink_to_fit();
}

/// `DashMap::clear` removes every entry.
#[verifier::external_body]
fn map_clear(m: &mut DashMap<String, Bytes>)
    ensures
        contents(*final(m)) == no_entries(),
{
    m.clear();
}

/// `DashMap::len` counts the entries.
#[verifier::external_body]
fn map_len(m: &DashMap<String, Bytes>) -> (n: usize)
    ensures
        n == contents(*m).len(),
{
    m.len()
}

/// `DashMap::iter` visits every entry once; here each visit yields a copy of the key.
/// The order of the visit follows the map's hashing, which is seeded anew in each
/// process, so nothing is said of it.
#[verifier::external_body]
fn map_keys(m: &DashMap<String, Bytes>) -> (keys: Vec<String>)
    ensures
        views(keys@).no_duplicates(),
        views(keys@).to_set() == contents(*m).dom(),
{
    m.iter().map(|entry| entry.key().clone()).collect()
}

/// The key/value store that a server shares between its connections.
pub struct Store {
    map: DashMap<String, Bytes>,
}

impl View for Store {
    type V = Map<Seq<char>, Seq<u8>>;

    closed spec fn view(&self) -> Map<Seq<char>, Seq<u8>> {
        contents(self.map)
    }
}

impl Store {
    /// A store holds finitely many keys.
    pub closed spec fn wf(&self) -> bool {
        self@.dom().finite()
    }

    /// An empty store.
    pub fn new() -> (s: Store)
        ensures
            s.wf(),
            s@ == no_entries(),
    {
        Store { map: map_new() }
    }

    /// Maps `key` to the UTF-8 bytes of `value`.
    pub fn set(&mut self, key: String, value: String)
        requires
            old(self).wf(),
        ensures
            final(self).wf(),
            final(self)@ == old(self)@.insert(key@, encode_utf8(value@)),
    {
        map_insert(&mut self.map, key, value);
    }

    /// The bytes stored under `key`, if any.
    pub fn get(&self, key: &str) -> (r: Option<Vec<u8>>)
        ensures
            match r {
                Some(v) => self@.contains_key(key@) && v@ == self@[key@],
                None => !self@.contains_key(key@),
            },
    {
        map_get(&self.map, key)
    }

    /// Removes `key`; says whether it was there. Spare capacity is released after a removal.
    pub fn delete(&mut self, key: &str) -> (found: bool)
        requires
            old(self).wf(),
        ensures
            final(self).wf(),
            found == old(self)@.contains_key(key@),
            final(self)@ == old(self)@.remove(key@),
    {
        match map_remove(&mut self.map, key) {
            Some(_) => {
                map_shrink_to_fit(&mut self.map);
                true
            },
            None => false,
        }
    }

    /// The number of keys.
    pub fn len(&self) -> (n: usize)
        requires
            self.wf(),
        ensures
            n == self@.len(),
    {
        map_len(&self.map)
    }

    /// Every key once, in an order that nothing fixes.
    pub fn keys(&self) -> (keys: Vec<String>)
        ensures
            views(keys@).no_duplicates(),
            views(keys@).to_set() == self@.dom(),
    {
        map_keys(&self.map)
    }

    /// Removes every key.
    pub fn clear(&mut self)
        ensures
            final(self).wf(),
            final(self)@ == no_entries(),
    {
        map_clear(&mut self.map);
    }
}

} // verus!
