//! Concurrent maps: what the library relies on of [`dashmap::DashMap`].
//!
//! The methods of a `DashMap` take a shared reference. The functions here take an exclusive one
//! wherever a map changes, so that nothing else can change it unseen.

use ahash::AHasher;
use dashmap::DashMap;
use std::hash::BuildHasherDefault;
use vstd::prelude::*;

verus! {

/// The map type of the `dashmap` crate.
#[verifier::external_type_specification]
#[verifier::external_body]
#[verifier::reject_recursive_types(K)]
#[verifier::reject_recursive_types(V)]
#[verifier::reject_recursive_types(S)]
pub struct ExDashMap<K, V, S>(DashMap<K, V, S>);

/// The hash function of the `ahash` crate.
#[verifier::external_type_specification]
#[verifier::external_body]
pub struct ExAHasher(AHasher);

/// The standard library's maker of hashers in their default state.
#[verifier::external_type_specification]
#[verifier::external_body]
#[verifier::reject_recursive_types(H)]
pub struct ExBuildHasherDefault<H>(BuildHasherDefault<H>);

/// A map from the identifiers of streams to the numbers of their links.
pub type StreamMap = DashMap<u32, u64, BuildHasherDefault<AHasher>>;

/// The entries of a stream map.
pub uninterp spec fn streams_of(m: StreamMap) -> Map<u32, u64>;

/// `DashMap::default` makes an empty map.
#[verifier::external_body]
pub(crate) fn streams_new() -> (m: StreamMap)
    ensures
        (streams_of(m) == Map::<u32, u64>::empty()),
{
    DashMap::default()
}

/// `DashMap::contains_key` tells whether a key has an entry.
#[verifier::external_body]
pub(crate) fn streams_contain(m: &StreamMap, id: u32) -> (b: bool)
    ensures
        b == streams_of(*m).dom().contains(id),
{
    m.contains_key(&id)
}

/// `DashMap::get` finds the value of a key's entry, if there is one.
#[verifier::external_body]
pub(crate) fn streams_get(m: &StreamMap, id: u32) -> (r: Option<u64>)
    ensures
        r == (if streams_of(*m).dom().contains(id) {
            Some(streams_of(*m)[id])
        } else {
            None
        }),
{
    m.get(&id).map(|entry| *entry.value())
}

/// `DashMap::insert` makes or replaces a key's entry and returns the value that it replaced.
#[verifier::external_body]
pub(crate) fn streams_insert(m: &mut StreamMap, id: u32, link: u64) -> (r: Option<u64>)
    ensures
        streams_of(*final(m)) == streams_of(*old(m)).insert(id, link),
        r == (if streams_of(*old(m)).dom().contains(id) {
            Some(streams_of(*old(m))[id])
        } else {
            None
        }),
{
    m.insert(id, link)
}

/// `DashMap::remove` takes a key's entry out, if there is one, and returns it.
#[verifier::external_body]
pub(crate) fn streams_remove(m: &mut StreamMap, id: u32) -> (r: Option<u64>)
    ensures
        streams_of(*final(m)) == streams_of(*old(m)).remove(id),
        r == (if streams_of(*old(m)).dom().contains(id) {
            Some(streams_of(*old(m))[id])
        } else {
            None
        }),
{
    m.remove(&id).map(|entry| entry.1)
}

/// A map from addresses to their texts. An address is its family and its bits.
pub type RuleMap = DashMap<(u8, u128), String>;

/// The entries of a rule map.
pub uninterp spec fn rules_of(m: RuleMap) -> Map<(u8, u128), Seq<char>>;

/// `DashMap::new` makes an empty map.
#[verifier::external_body]
pub(crate) fn rules_new() -> (m: RuleMap)
    ensures
        (rules_of(m) == Map::<(u8, u128), Seq<char>>::empty()),
{
    DashMap::new()
}

/// `DashMap::contains_key` tells whether a key has an entry.
#[verifier::external_body]
pub(crate) fn rules_contain(m: &RuleMap, address: (u8, u128)) -> (b: bool)
    ensures
        b == rules_of(*m).dom().contains(address),
{
    m.contains_key(&address)
}

/// `DashMap::insert` makes or replaces a key's entry.
#[verifier::external_body]
pub(crate) fn rules_insert(m: &mut RuleMap, address: (u8, u128), text: String)
    ensures
        rules_of(*final(m)) == rules_of(*old(m)).insert(address, text@),
{
    m.insert(address, text);
}

/// `DashMap::iter` walks over the entries, each once, in an order of its own.
#[verifier::external_body]
pub(crate) fn rules_list(m: &RuleMap) -> (v: Vec<((u8, u128), String)>)
    ensures
        forall|i: int|
            #![trigger v@[i]]
            0 <= i < v@.len() ==> rules_of(*m).dom().contains(v@[i].0) && rules_of(*m)[v@[i].0]
                == v@[i].1@,
        forall|i: int, j: int|
            #![trigger v@[i], v@[j]]
            0 <= i < j < v@.len() ==> v@[i].0 != v@[j].0,
        forall|k: (u8, u128)| #[trigger]
            rules_of(*m).dom().contains(k) ==> exists|i: int|
                0 <= i < v@.len() && (#[trigger] v@[i]).0 == k,
{
    m.iter().map(|entry| (*entry.key(), entry.value().clone())).collect()
}

/// `DashMap::clear` takes all entries out.
#[verifier::external_body]
pub(crate) fn rules_clear(m: &mut RuleMap)
    ensures
        (rules_of(*final(m)) == Map::<(u8, u128), Seq<char>>::empty()),
{
    m.clear();
}

} // verus!
