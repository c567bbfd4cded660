//! The insertion-ordered hash map of the `indexmap` crate, keyed by byte
//! strings and mapping them to positions, behind trusted wrappers.

use indexmap::IndexMap;
use vstd::prelude::*;

verus! {

#[verifier::external_type_specification]
#[verifier::external_body]
#[verifier::reject_recursive_types(K)]
#[verifier::reject_recursive_types(V)]
#[verifier::reject_recursive_types(S)]
pub struct ExIndexMap<K, V, S>(IndexMap<K, V, S>);

/// An `IndexMap` from byte strings to positions.
pub type ByteIndexMap = IndexMap<Vec<u8>, usize>;

/// What an `IndexMap` from byte strings to positions holds: each key, by its
/// bytes, with its value.
pub uninterp spec fn index_map_entries(m: ByteIndexMap) -> Map<Seq<u8>, usize>;

/// Calls `IndexMap::new`, which returns a map that holds nothing.
#[verifier::external_body]
pub(crate) fn index_map_new() -> (r: ByteIndexMap)
    ensures
        index_map_entries(r).dom() == Set::<Seq<u8>>::empty(),
{
    IndexMap::new()
}

/// Calls `IndexMap::contains_key`, which tells whether a key equal to `key`
/// (the same bytes: `Vec`'s `==`) is in the map.
#[verifier::external_body]
pub(crate) fn index_map_contains_key(m: &ByteIndexMap, key: &Vec<u8>) -> (r: bool)
    ensures
        r == index_map_entries(*m).dom().contains(key@),
{
    m.contains_key(key)
}

/// Calls `IndexMap::get`, which returns the value stored under a key equal to
/// `key`, or `None` where there is none. The value is copied out.
#[verifier::external_body]
pub(crate) fn index_map_get(m: &ByteIndexMap, key: &Vec<u8>) -> (r: Option<usize>)
    ensures
        r is Some <==> index_map_entries(*m).dom().contains(key@),
        r matches Some(v) ==> v == index_map_entries(*m)[key@],
{
    m.get(key).copied()
}

/// Calls `IndexMap::insert`: where a key equal to `key` is present, its value
/// is replaced and the old value returned; else the pair is added and `None`
/// returned. Either way the map then maps `key` to `value`, and every other
/// key as before.
#[verifier::external_body]
pub(crate) fn index_map_insert(m: &mut ByteIndexMap, key: Vec<u8>, value: usize) -> (r: Option<usize>)
    ensures
        index_map_entries(*final(m)) == index_map_entries(*old(m)).insert(key@, value),
        r is Some <==> index_map_entries(*old(m)).dom().contains(key@),
        r matches Some(v) ==> v == index_map_entries(*old(m))[key@],
{
    m.insert(key, value)
}

} // verus!
