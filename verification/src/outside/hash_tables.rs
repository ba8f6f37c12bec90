//! `ahash::AHashMap` and `ahash::AHashSet` over integer keys.
//!
//! Both are thin wrappers of std's `HashMap`/`HashSet` with a randomly seeded
//! hasher; their contents are seen as a `Map` and a `Set`. The order in which
//! a set is walked depends on that seed and is not stated.
use vstd::prelude::*;
use ahash::{AHashMap, AHashSet};

verus! {

#[verifier::external_type_specification]
#[verifier::external_body]
#[verifier::reject_recursive_types(K)]
#[verifier::reject_recursive_types(V)]
#[verifier::reject_recursive_types(S)]
pub struct ExAHashMap<K, V, S>(AHashMap<K, V, S>);

#[verifier::external_type_specification]
#[verifier::external_body]
#[verifier::reject_recursive_types(T)]
#[verifier::reject_recursive_types(S)]
pub struct ExAHashSet<T, S>(AHashSet<T, S>);

#[verifier::external_type_specification]
#[verifier::external_body]
pub struct ExAhashRandomState(ahash::RandomState);

/// An integer-keyed map of small integers.
pub type IdMap = AHashMap<u64, u32>;

/// A set of integers.
pub type IdSet = AHashSet<u64>;

/// The key-value pairs held by an integer-keyed map.
pub uninterp spec fn id_map_contents(m: IdMap) -> Map<u64, u32>;

/// The elements held by an integer set.
pub uninterp spec fn id_set_contents(s: IdSet) -> Set<u64>;

/// `AHashMap::new`: an empty map.
#[verifier::external_body]
pub(crate) fn id_map_new() -> (m: IdMap)
    ensures
        id_map_contents(m).dom() == Set::<u64>::empty(),
{
    AHashMap::new()
}

/// `AHashMap::get`: the value stored under `k`, if any.
#[verifier::external_body]
pub(crate) fn id_map_get(m: &IdMap, k: u64) -> (r: Option<u32>)
    ensures
        r == (if id_map_contents(*m).contains_key(k) {
            Some(id_map_contents(*m)[k])
        } else {
            None
        }),
{
    m.get(&k).copied()
}

/// `AHashMap::insert`: `k` now maps to `v`; every other entry stays.
#[verifier::external_body]
pub(crate) fn id_map_insert(m: &mut IdMap, k: u64, v: u32)
    ensures
        id_map_contents(*final(m)) == id_map_contents(*old(m)).insert(k, v),
{
    m.insert(k, v);
}

/// `AHashMap::remove`: `k` is gone; every other entry stays. Returns the value
/// it had.
#[verifier::external_body]
pub(crate) fn id_map_remove(m: &mut IdMap, k: u64) -> (r: Option<u32>)
    ensures
        id_map_contents(*final(m)) == id_map_contents(*old(m)).remove(k),
        r == (if id_map_contents(*old(m)).contains_key(k) {
            Some(id_map_contents(*old(m))[k])
        } else {
            None
        }),
{
    m.remove(&k)
}

/// `AHashSet::new`: an empty set.
#[verifier::external_body]
pub(crate) fn id_set_new() -> (s: IdSet)
    ensures
        id_set_contents(s) == Set::<u64>::empty(),
{
    AHashSet::new()
}

/// `AHashSet::insert`.
#[verifier::external_body]
pub(crate) fn id_set_insert(s: &mut IdSet, k: u64)
    ensures
        id_set_contents(*final(s)) == id_set_contents(*old(s)).insert(k),
{
    s.insert(k);
}

/// `AHashSet::remove`.
#[verifier::external_body]
pub(crate) fn id_set_remove(s: &mut IdSet, k: u64)
    ensures
        id_set_contents(*final(s)) == id_set_contents(*old(s)).remove(k),
{
    s.remove(&k);
}

/// `AHashSet::iter`, collected: every element once, in the set's own
/// (seed-dependent) order.
#[verifier::external_body]
pub(crate) fn id_set_elements(s: &IdSet) -> (v: Vec<u64>)
    ensures
        v@.no_duplicates(),
        v@.to_set() == id_set_contents(*s),
{
    s.iter().copied().collect()
}

} // verus!

verus! {

/// Archetype signatures to archetype indices.
pub type SigMap = AHashMap<crate::ecs::archetype::ArchetypeSignature, u32>;

/// The pairs held, keyed by the signature's ids. Signatures are compared and
/// hashed by their ids alone (derived `Eq` and `Hash`), so a lookup finds the
/// entry whose ids are equal.
pub uninterp spec fn sig_map_contents(m: SigMap) -> Map<Seq<u32>, u32>;

/// `AHashMap::new`: an empty map.
#[verifier::external_body]
pub(crate) fn sig_map_new() -> (m: SigMap)
    ensures
        sig_map_contents(m).dom() == Set::<Seq<u32>>::empty(),
{
    AHashMap::new()
}

/// `AHashMap::get`.
#[verifier::external_body]
pub(crate) fn sig_map_get(m: &SigMap, k: &crate::ecs::archetype::ArchetypeSignature) -> (r: Option<u32>)
    ensures
        r == (if sig_map_contents(*m).contains_key(k@) {
            Some(sig_map_contents(*m)[k@])
        } else {
            None
        }),
{
    m.get(k).copied()
}

/// `AHashMap::insert`.
#[verifier::external_body]
pub(crate) fn sig_map_insert(m: &mut SigMap, k: crate::ecs::archetype::ArchetypeSignature, v: u32)
    ensures
        sig_map_contents(*final(m)) == sig_map_contents(*old(m)).insert(k@, v),
{
    m.insert(k, v);
}

} // verus!

verus! {

/// Path texts to small indices.
pub type PathIndex = AHashMap<String, usize>;

/// The pairs held, keyed by the path's characters. `String` compares and
/// hashes its bytes, so two keys are the same exactly when their texts are.
pub uninterp spec fn path_index_contents(m: PathIndex) -> Map<Seq<char>, usize>;

/// `AHashMap::new`: an empty map.
#[verifier::external_body]
pub(crate) fn path_index_new() -> (m: PathIndex)
    ensures
        path_index_contents(m).dom() == Set::<Seq<char>>::empty(),
{
    AHashMap::new()
}

/// `AHashMap::get`, looked up by a `&str`.
#[verifier::external_body]
pub(crate) fn path_index_get(m: &PathIndex, k: &str) -> (r: Option<usize>)
    ensures
        r == (if path_index_contents(*m).contains_key(k@) {
            Some(path_index_contents(*m)[k@])
        } else {
            None
        }),
{
    m.get(k).copied()
}

/// `AHashMap::insert`: `k` now maps to `v`; every other entry stays.
#[verifier::external_body]
pub(crate) fn path_index_insert(m: &mut PathIndex, k: String, v: usize)
    ensures
        path_index_contents(*final(m)) == path_index_contents(*old(m)).insert(k@, v),
{
    m.insert(k, v);
}

} // verus!
