//! Entity identity: generation-tagged handles, allocated and recycled by a
//! slot map.
use vstd::prelude::*;
use crate::outside::slot_map::{count_occupied, key_index, key_version, pack_key, insert_step, key_live, remove_step, slot_map_contains, slot_map_insert, slot_map_len, slot_map_new, slot_map_remove, slot_versions, Slots};

verus! {

/// Opaque entity identifier: `generation << 32 | index`, as the slot map
/// packs its keys.
#[derive(Clone, Copy, PartialEq, Eq, Structural, Hash, Debug)]
pub struct Entity {
    bits: u64,
}

impl View for Entity {
    type V = u64;

    closed spec fn view(&self) -> u64 {
        self.bits
    }
}

/// Two handles are the same handle exactly when they pack the same bits.
pub broadcast proof fn lemma_entity_view_injective(a: Entity, b: Entity)
    ensures
        #![trigger a@, b@]
        (a@ == b@) == (a == b),
{
}

/// Packed bits that a live handle can have: the generation half is odd.
pub open spec fn handle_bits(b: u64) -> bool {
    (b / 0x1_0000_0000) % 2 == 1
}

impl Entity {
    /// Every handle that exists carries an odd (occupied) generation, as the
    /// slot map hands out.
    #[verifier::type_invariant]
    pub closed spec fn valid(self) -> bool {
        (self.bits / 0x1_0000_0000) % 2 == 1
    }

    /// The packed handle.
    pub fn to_bits(self) -> (b: u64)
        ensures
            b == self@,
            handle_bits(b),
    {
        proof { use_type_invariant(&self); }
        self.bits
    }

    /// The handle with the given packed bits.
    pub(crate) fn from_bits(bits: u64) -> (e: Entity)
        requires
            handle_bits(bits),
        ensures
            e@ == bits,
            e.valid(),
    {
        Entity { bits }
    }

    pub proof fn lemma_valid_bits(self)
        ensures
            self.valid() == handle_bits(self@),
    {
    }
}

/// Allocator states that can arise: the sentinel slot 0 is present and
/// vacant, and the slot count fits a `u32` index.
pub open spec fn slots_ok(v: Seq<u32>) -> bool {
    &&& 1 <= v.len() <= u32::MAX
    &&& v[0] % 2 == 0
}

/// Allocates and recycles entity ids.
pub struct EntityAllocator {
    slots: Slots,
}

impl View for EntityAllocator {
    type V = Seq<u32>;

    closed spec fn view(&self) -> Seq<u32> {
        slot_versions(self.slots)
    }
}

impl EntityAllocator {
    /// Whether `e` is live in the allocator state `versions`.
    pub open spec fn live(versions: Seq<u32>, e: Entity) -> bool {
        key_live(versions, e@)
    }

    pub fn new() -> (a: Self)
        ensures
            a@ == seq![0u32],
            slots_ok(a@),
    {
        EntityAllocator { slots: slot_map_new() }
    }

    /// Allocates a new entity: it was dead before and is alive now; no other
    /// entity changes state.
    pub fn allocate(&mut self) -> (e: Entity)
        requires
            old(self)@.len() < u32::MAX,
        ensures
            insert_step(old(self)@, final(self)@, e@),
            e.valid(),
            !Self::live(old(self)@, e),
            Self::live(final(self)@, e),
            forall|k: u64| #![trigger key_live(final(self)@, k)]
                handle_bits(k) && k != e@ ==> key_live(final(self)@, k) == key_live(old(self)@, k),
            count_occupied(final(self)@) == count_occupied(old(self)@) + 1,
            slots_ok(old(self)@) ==> slots_ok(final(self)@),
    {
        let bits = slot_map_insert(&mut self.slots);
        proof {
            lemma_insert_step(old(self)@, self@, bits);
        }
        Entity { bits }
    }

    /// Frees an entity; `false` when it was already dead.
    pub fn free(&mut self, entity: Entity) -> (was_alive: bool)
        ensures
            was_alive == Self::live(old(self)@, entity),
            was_alive ==> remove_step(old(self)@, final(self)@, entity@),
            !was_alive ==> final(self)@ == old(self)@,
            !Self::live(final(self)@, entity),
            forall|k: u64| #![trigger key_live(final(self)@, k)]
                handle_bits(k) && k != entity@ ==> key_live(final(self)@, k) == key_live(old(self)@, k),
            count_occupied(final(self)@) == count_occupied(old(self)@) - (if was_alive { 1int } else { 0int }),
            slots_ok(old(self)@) ==> slots_ok(final(self)@),
    {
        proof { use_type_invariant(&entity); }
        let removed = slot_map_remove(&mut self.slots, entity.bits);
        proof {
            if removed {
                lemma_remove_step(old(self)@, self@, entity);
            }
        }
        removed
    }

    pub fn is_alive(&self, entity: Entity) -> (alive: bool)
        ensures
            alive == Self::live(self@, entity),
    {
        slot_map_contains(&self.slots, entity.bits)
    }

    /// Number of live entities.
    pub fn len(&self) -> (n: usize)
        ensures
            n == count_occupied(self@),
    {
        slot_map_len(&self.slots)
    }

    pub fn is_empty(&self) -> (b: bool)
        ensures
            b == (count_occupied(self@) == 0),
    {
        slot_map_len(&self.slots) == 0
    }
}

/// A released handle stays dead across the next allocation, whether that
/// allocation reopens the handle's own slot (under a newer generation) or
/// any other.
pub proof fn law_released_handle_stays_dead(
    v0: Seq<u32>,
    v1: Seq<u32>,
    v2: Seq<u32>,
    e: Entity,
    fresh: u64,
)
    requires
        e.valid(),
        EntityAllocator::live(v0, e),
        remove_step(v0, v1, e@),
        insert_step(v1, v2, fresh),
        v1.len() < u32::MAX,
    ensures
        !EntityAllocator::live(v1, e),
        !EntityAllocator::live(v2, e),
        fresh != e@,
{
    lemma_remove_step(v0, v1, e);
    lemma_insert_step(v1, v2, fresh);
    reveal(Entity::valid);
    let i = key_index(e@);
    let j = key_index(fresh);
    if j == i {
        let ev = e@ / 0x1_0000_0000;
        assert(v0[i] == ev);
        lemma_key_parts(fresh, j, v1[i] + 1);
        assert(fresh / 0x1_0000_0000 != ev);
    }
}

/// Packed handles that are live in allocator state `v`.
pub open spec fn live_handles(v: Seq<u32>) -> Set<u64> {
    Set::new(|k: u64| handle_bits(k) && key_live(v, k))
}

/// Indices of the occupied slots.
pub open spec fn occupied_indices(v: Seq<u32>) -> Set<int> {
    Set::new(|i: int| 0 <= i < v.len() && v[i] % 2 == 1)
}

proof fn lemma_occupied_indices(v: Seq<u32>)
    ensures
        occupied_indices(v).finite(),
        occupied_indices(v).len() == count_occupied(v),
    decreases v.len(),
{
    if v.len() == 0 {
        assert(occupied_indices(v) =~= Set::<int>::empty());
    } else {
        let w = v.drop_last();
        lemma_occupied_indices(w);
        let last = v.len() - 1;
        if v[last] % 2 == 1 {
            assert(occupied_indices(v) =~= occupied_indices(w).insert(last));
        } else {
            assert(occupied_indices(v) =~= occupied_indices(w));
        }
    }
}

/// The live handles are exactly one per occupied slot; with the sentinel
/// slot vacant there are fewer of them than slots.
pub proof fn lemma_live_handles(v: Seq<u32>)
    requires
        1 <= v.len() <= u32::MAX,
        v[0] % 2 == 0,
    ensures
        live_handles(v).finite(),
        live_handles(v).len() == count_occupied(v),
        count_occupied(v) < v.len(),
{
    lemma_occupied_indices(v);
    let occ = occupied_indices(v);
    let g = |i: int| pack_key(i, v[i] as int);
    assert forall|i: int, j: int| occ.contains(i) && occ.contains(j) && #[trigger] g(i) == #[trigger] g(j) implies i == j by {
        lemma_key_parts(g(i), i, v[i] as int);
        lemma_key_parts(g(j), j, v[j] as int);
    }
    assert(vstd::relations::injective_on(g, occ));
    assert forall|k: u64| live_handles(v).contains(k) == occ.map(g).contains(k) by {
        if live_handles(v).contains(k) {
            let i = key_index(k);
            assert(occ.contains(i));
            lemma_key_parts(g(i), i, v[i] as int);
            assert(k == g(i)) by (nonlinear_arith)
                requires
                    k % 0x1_0000_0000 == i,
                    k / 0x1_0000_0000 == v[i],
                    g(i) == pack_key(i, v[i] as int),
                    0 <= v[i] < 0x1_0000_0000,
                    0 <= i < 0x1_0000_0000;
        }
        if occ.map(g).contains(k) {
            let i = choose|i: int| occ.contains(i) && g(i) == k;
            lemma_key_parts(k, i, v[i] as int);
        }
    }
    assert(live_handles(v) =~= occ.map(g));
    vstd::set_lib::lemma_map_size(occ, live_handles(v), g);
    vstd::set_lib::lemma_int_range(0, v.len() as int);
    assert(occ.remove(0) == occ);
    assert(occ.subset_of(vstd::set_lib::set_int_range(1, v.len() as int)));
    vstd::set_lib::lemma_int_range(1, v.len() as int);
    vstd::set_lib::lemma_len_subset(occ, vstd::set_lib::set_int_range(1, v.len() as int));
}

/// Occupied-slot count after one slot changes.
proof fn lemma_count_update(s: Seq<u32>, i: int, v: u32)
    requires
        0 <= i < s.len(),
    ensures
        count_occupied(s.update(i, v)) == count_occupied(s)
            - (if s[i] % 2 == 1 { 1int } else { 0int }) + (if v % 2 == 1 { 1int } else { 0int }),
    decreases s.len(),
{
    let t = s.update(i, v);
    if i == s.len() - 1 {
        assert(t.drop_last() =~= s.drop_last());
    } else {
        lemma_count_update(s.drop_last(), i, v);
        assert(t.drop_last() =~= s.drop_last().update(i, v));
    }
}

proof fn lemma_key_parts(bits: u64, i: int, v: int)
    requires
        0 <= i < 0x1_0000_0000,
        0 <= v < 0x1_0000_0000,
        bits == pack_key(i, v),
    ensures
        key_index(bits) == i,
        bits / 0x1_0000_0000 == v,
{
    assert(v * 0x1_0000_0000 + i < 0x1_0000_0000_0000_0000) by (nonlinear_arith)
        requires 0 <= i < 0x1_0000_0000, 0 <= v < 0x1_0000_0000;
    assert(0 <= v * 0x1_0000_0000 + i) by (nonlinear_arith)
        requires 0 <= i < 0x1_0000_0000, 0 <= v < 0x1_0000_0000;
    assert((v * 0x1_0000_0000 + i) % 0x1_0000_0000 == i) by (nonlinear_arith)
        requires 0 <= i < 0x1_0000_0000, 0 <= v;
    assert((v * 0x1_0000_0000 + i) / 0x1_0000_0000 == v) by (nonlinear_arith)
        requires 0 <= i < 0x1_0000_0000, 0 <= v;
}

/// One allocation: the new key was dead and is now live, no valid handle
/// other than it changes state, and one more slot is occupied.
proof fn lemma_insert_step(before: Seq<u32>, after: Seq<u32>, bits: u64)
    requires
        insert_step(before, after, bits),
        before.len() < u32::MAX,
    ensures
        (bits / 0x1_0000_0000) % 2 == 1,
        !key_live(before, bits),
        key_live(after, bits),
        forall|k: u64| #![trigger key_live(after, k)]
            handle_bits(k) && k != bits ==> key_live(after, k) == key_live(before, k),
        count_occupied(after) == count_occupied(before) + 1,
{
    let i = key_index(bits);
    if 0 <= i < before.len() && before[i] % 2 == 0 && after == before.update(i, (before[i] + 1) as u32)
        && bits == pack_key(i, before[i] + 1) {
        lemma_key_parts(bits, i, before[i] + 1);
        lemma_count_update(before, i, (before[i] + 1) as u32);
    } else {
        lemma_key_parts(bits, i, 1);
        assert(after.drop_last() =~= before);
    }
    assert forall|k: u64| #![trigger key_live(after, k)]
        handle_bits(k) && k != bits implies key_live(after, k) == key_live(before, k) by {
        let xi = key_index(k);
        if xi == i {
            lemma_key_parts(k, xi, (k / 0x1_0000_0000) as int);
            assert(k == pack_key(xi, (k / 0x1_0000_0000) as int)) by (nonlinear_arith)
                requires k % 0x1_0000_0000 == xi;
        }
    }
}

/// One release of a live handle: it is dead now, nothing else changes state,
/// and one slot fewer is occupied.
proof fn lemma_remove_step(before: Seq<u32>, after: Seq<u32>, e: Entity)
    requires
        key_live(before, e@),
        remove_step(before, after, e@),
        e.valid(),
    ensures
        !key_live(after, e@),
        forall|k: u64| #![trigger key_live(after, k)]
            handle_bits(k) && k != e@ ==> key_live(after, k) == key_live(before, k),
        count_occupied(after) == count_occupied(before) - 1,
{
    let i = key_index(e@);
    let v = before[i];
    let nv: u32 = if v == u32::MAX { 0u32 } else { (v + 1) as u32 };
    lemma_count_update(before, i, nv);
    assert forall|k: u64| #![trigger key_live(after, k)]
        handle_bits(k) && k != e@ implies key_live(after, k) == key_live(before, k) by {
        reveal(Entity::valid);
        if key_index(k) == i {
            if key_live(before, k) {
                let xb = k;
                let eb = e@;
                assert(xb / 0x1_0000_0000 == eb / 0x1_0000_0000);
                assert(xb == eb) by (nonlinear_arith)
                    requires
                        xb % 0x1_0000_0000 == eb % 0x1_0000_0000,
                        xb / 0x1_0000_0000 == eb / 0x1_0000_0000;
            }
        }
    }
}

} // verus!
