//! `slotmap::SlotMap` as the entity allocator's backing store.
//!
//! The map is seen through the versions of its slots: slot `i` holds an odd
//! version while occupied and an even one while vacant; slot 0 is a sentinel.
//! A key packs `version << 32 | index` into a `u64` (`KeyData::as_ffi`).
use vstd::prelude::*;
use slotmap::{DefaultKey, Key, KeyData, SlotMap};

verus! {

/// A slot map of unit values, keyed by `DefaultKey`. The map is private
/// and reached only through the wrappers below, which state what each
/// operation does to `slot_versions`.
#[verifier::external_body]
pub struct Slots {
    map: SlotMap<DefaultKey, ()>,
}

/// The version of every slot of the map, by slot index.
pub uninterp spec fn slot_versions(m: Slots) -> Seq<u32>;

/// Index half of a packed key.
pub open spec fn key_index(bits: u64) -> int {
    (bits % 0x1_0000_0000) as int
}

/// Version half of a packed key, forced odd as `KeyData::from_ffi` does.
pub open spec fn key_version(bits: u64) -> int {
    let v = (bits / 0x1_0000_0000) as int;
    if v % 2 == 0 { v + 1 } else { v }
}

/// Packs an index and a version into a key.
pub open spec fn pack_key(index: int, version: int) -> u64 {
    (version * 0x1_0000_0000 + index) as u64
}

/// A key is live when its slot exists and holds exactly its version.
pub open spec fn key_live(versions: Seq<u32>, bits: u64) -> bool {
    &&& key_index(bits) < versions.len()
    &&& versions[key_index(bits)] as int == key_version(bits)
}

/// Number of occupied (odd-version) slots.
pub open spec fn count_occupied(versions: Seq<u32>) -> nat
    decreases versions.len(),
{
    if versions.len() == 0 {
        0
    } else {
        count_occupied(versions.drop_last())
            + if versions.last() % 2 == 1 { 1nat } else { 0nat }
    }
}

/// What one insertion does: it either reopens a vacant slot other than the
/// sentinel, bumping its version to the next odd one, or appends a fresh slot
/// with version 1.
pub open spec fn insert_step(before: Seq<u32>, after: Seq<u32>, bits: u64) -> bool {
    let i = key_index(bits);
    ||| (1 <= i < before.len() && before[i] % 2 == 0
        && after == before.update(i, (before[i] + 1) as u32)
        && bits == pack_key(i, before[i] + 1))
    ||| (i == before.len() && after == before.push(1u32) && bits == pack_key(i, 1))
}

/// What one removal of a live key does: the slot's version moves on by one,
/// wrapping at `u32::MAX`.
pub open spec fn remove_step(before: Seq<u32>, after: Seq<u32>, bits: u64) -> bool {
    let i = key_index(bits);
    let v = before[i];
    after == before.update(i, if v == u32::MAX { 0u32 } else { (v + 1) as u32 })
}

/// `SlotMap::with_key`: a new map holds only the vacant sentinel slot 0.
#[verifier::external_body]
pub(crate) fn slot_map_new() -> (m: Slots)
    ensures
        slot_versions(m) == seq![0u32],
{
    Slots { map: SlotMap::with_key() }
}

/// `SlotMap::insert`: the new key's slot is either a reopened vacant slot
/// (taken from the free list, which never holds the sentinel slot 0) or a new
/// one at the end (`insert_step`); the key is returned packed by
/// `KeyData::as_ffi`. The map panics when it already has `u32::MAX` slots,
/// which `requires` leaves out.
#[verifier::external_body]
pub(crate) fn slot_map_insert(m: &mut Slots) -> (bits: u64)
    requires
        slot_versions(*old(m)).len() < u32::MAX,
    ensures
        insert_step(slot_versions(*old(m)), slot_versions(*final(m)), bits),
{
    m.map.insert(()).data().as_ffi()
}

/// `SlotMap::remove`: returns whether the key was live; a live key's slot
/// version moves on by one (`wrapping_add`), anything else leaves the map as
/// it was.
#[verifier::external_body]
pub(crate) fn slot_map_remove(m: &mut Slots, bits: u64) -> (removed: bool)
    ensures
        removed == key_live(slot_versions(*old(m)), bits),
        removed ==> remove_step(slot_versions(*old(m)), slot_versions(*final(m)), bits),
        !removed ==> slot_versions(*final(m)) == slot_versions(*old(m)),
{
    m.map.remove(DefaultKey::from(KeyData::from_ffi(bits))).is_some()
}

/// `SlotMap::contains_key`: the key's slot exists and holds its version.
#[verifier::external_body]
pub(crate) fn slot_map_contains(m: &Slots, bits: u64) -> (live: bool)
    ensures
        live == key_live(slot_versions(*m), bits),
{
    m.map.contains_key(DefaultKey::from(KeyData::from_ffi(bits)))
}

/// `SlotMap::len`: the number of occupied slots.
#[verifier::external_body]
pub(crate) fn slot_map_len(m: &Slots) -> (n: usize)
    ensures
        n == count_occupied(slot_versions(*m)),
{
    m.map.len()
}

} // verus!
