//! Component type ids and the registry that hands them out.
//!
//! Each component type gets a compact `ComponentId` the first time it is
//! seen; the same type always gets the same id back. Types are told apart by
//! a 64-bit type key that the caller derives from the type.
use vstd::prelude::*;
use crate::outside::hash_tables::{id_map_contents, id_map_get, id_map_insert, id_map_new, IdMap};

verus! {

/// A compact numeric id for a component type, usable as a dense index.
#[derive(Debug, Clone, Copy, PartialEq, Eq, Structural, Hash, PartialOrd, Ord)]
pub struct ComponentId(pub u32);

impl ComponentId {
    /// Gets or assigns the id of the type with key `type_key` in `registry`.
    pub fn of(registry: &mut ComponentRegistry, type_key: u64) -> (id: ComponentId)
        requires
            old(registry).wf(),
            !old(registry).assigned().contains_key(type_key) ==> old(registry).next_id() < u32::MAX,
        ensures
            final(registry).wf(),
            (id, final(registry).assigned(), final(registry).next_id())
                == ComponentRegistry::register_step(old(registry).assigned(), old(registry).next_id(), type_key),
    {
        registry.id_for(type_key)
    }

    pub fn as_index(self) -> (i: usize)
        ensures
            i == self.0,
    {
        self.0 as usize
    }
}

/// Type key → component id, and the next id to assign.
pub struct ComponentRegistry {
    map: IdMap,
    next: u32,
}

impl ComponentRegistry {
    /// Ids assigned so far, by type key.
    pub closed spec fn assigned(&self) -> Map<u64, u32> {
        id_map_contents(self.map)
    }

    /// The id the next new type gets.
    pub closed spec fn next_id(&self) -> u32 {
        self.next
    }

    /// Every assigned id is below `next`, and no two keys share one.
    pub closed spec fn wf(&self) -> bool {
        let m = id_map_contents(self.map);
        &&& forall|k: u64| #[trigger] m.contains_key(k) ==> m[k] < self.next
        &&& forall|k1: u64, k2: u64| #[trigger] m.contains_key(k1) && #[trigger] m.contains_key(k2) && k1 != k2
                ==> m[k1] != m[k2]
    }

    /// One lookup: a known key keeps its id; a new key gets `next`.
    pub open spec fn register_step(assigned: Map<u64, u32>, next: u32, key: u64) -> (ComponentId, Map<u64, u32>, u32) {
        if assigned.contains_key(key) {
            (ComponentId(assigned[key]), assigned, next)
        } else {
            (ComponentId(next), assigned.insert(key, next), (next + 1) as u32)
        }
    }

    pub fn new() -> (r: Self)
        ensures
            r.wf(),
            r.assigned().dom() == Set::<u64>::empty(),
            r.next_id() == 0,
    {
        ComponentRegistry { map: id_map_new(), next: 0 }
    }

    /// How many types have ids so far; also the id the next new type gets.
    pub fn len(&self) -> (n: u32)
        ensures
            n == self.next_id(),
    {
        self.next
    }

    /// Gets or assigns the id for `type_key`.
    pub fn id_for(&mut self, type_key: u64) -> (id: ComponentId)
        requires
            old(self).wf(),
            !old(self).assigned().contains_key(type_key) ==> old(self).next_id() < u32::MAX,
        ensures
            final(self).wf(),
            (id, final(self).assigned(), final(self).next_id())
                == Self::register_step(old(self).assigned(), old(self).next_id(), type_key),
    {
        if let Some(id) = id_map_get(&self.map, type_key) {
            return ComponentId(id);
        }
        let id = self.next;
        self.next = self.next + 1;
        id_map_insert(&mut self.map, type_key, id);
        ComponentId(id)
    }
}

/// Asking twice for the same type gives the same id, and the second asking
/// changes nothing.
pub proof fn law_ids_are_stable(assigned: Map<u64, u32>, next: u32, key: u64)
    ensures
        ({
            let (id1, a1, n1) = ComponentRegistry::register_step(assigned, next, key);
            let (id2, a2, n2) = ComponentRegistry::register_step(a1, n1, key);
            id1 == id2 && a2 == a1 && n2 == n1
        }),
{
}

/// Different types get different ids.
pub proof fn law_distinct_types_distinct_ids(
    assigned: Map<u64, u32>,
    next: u32,
    k1: u64,
    k2: u64,
)
    requires
        forall|k: u64| #[trigger] assigned.contains_key(k) ==> assigned[k] < next,
        forall|a: u64, b: u64| #[trigger] assigned.contains_key(a) && #[trigger] assigned.contains_key(b) && a != b
            ==> assigned[a] != assigned[b],
        next < u32::MAX - 1,
        k1 != k2,
    ensures
        ({
            let (id1, a1, n1) = ComponentRegistry::register_step(assigned, next, k1);
            let (id2, a2, n2) = ComponentRegistry::register_step(a1, n1, k2);
            id1 != id2
        }),
{
}

} // verus!

verus! {

/// Some key has id `v`.
pub open spec fn id_taken(a: Map<u64, u32>, v: u32) -> bool {
    exists|k: u64| #[trigger] a.contains_key(k) && a[k] == v
}

/// The ids handed out, one per lookup, when the keys `keys` are looked up in
/// turn in a fresh registry; with the final assignment and next id.
pub open spec fn register_all(keys: Seq<u64>) -> (Seq<ComponentId>, Map<u64, u32>, u32)
    decreases keys.len(),
{
    if keys.len() == 0 {
        (Seq::empty(), Map::empty(), 0u32)
    } else {
        let (ids, a, n) = register_all(keys.drop_last());
        let (id, a2, n2) = ComponentRegistry::register_step(a, n, keys.last());
        (ids.push(id), a2, n2)
    }
}

/// Over a whole run of lookups from a fresh registry, ids are dense, stable
/// and one per type: two lookups get the same id exactly when they are for
/// the same type key, the keys seen are exactly the keys assigned, and the
/// ids assigned are exactly `0, 1, ..., next - 1`.
pub proof fn law_ids_dense_and_one_per_type(keys: Seq<u64>)
    requires
        keys.len() < u32::MAX,
    ensures
        ({
            let (ids, a, n) = register_all(keys);
            &&& ids.len() == keys.len()
            &&& n <= keys.len()
            &&& forall|i: int| 0 <= i < keys.len() ==> a.contains_key(keys[i]) && #[trigger] ids[i] == ComponentId(a[keys[i]])
            &&& forall|i: int, j: int| 0 <= i < keys.len() && 0 <= j < keys.len() ==>
                (#[trigger] ids[i] == #[trigger] ids[j] <==> keys[i] == keys[j])
            &&& forall|k: u64| #[trigger] a.contains_key(k) <==> keys.contains(k)
            &&& forall|k: u64| #[trigger] a.contains_key(k) ==> a[k] < n
            &&& forall|k1: u64, k2: u64| #[trigger] a.contains_key(k1) && #[trigger] a.contains_key(k2) && k1 != k2
                ==> a[k1] != a[k2]
            &&& forall|v: u32| v < n ==> #[trigger] id_taken(a, v)
        }),
    decreases keys.len(),
{
    let (ids, a, n) = register_all(keys);
    if keys.len() > 0 {
        let prev = keys.drop_last();
        law_ids_dense_and_one_per_type(prev);
        let (ids0, a0, n0) = register_all(prev);
        let key = keys.last();
        assert(forall|i: int| 0 <= i < prev.len() ==> prev[i] == keys[i]);
        // Values already assigned never change.
        assert forall|k: u64| #[trigger] a0.contains_key(k) implies a.contains_key(k) && a[k] == a0[k] by {
            if k == key {
                assert(a0.contains_key(key));
            }
        }
        assert forall|i: int| 0 <= i < keys.len() implies a.contains_key(keys[i]) && #[trigger] ids[i] == ComponentId(a[keys[i]]) by {
            if i < prev.len() {
                assert(ids[i] == ids0[i]);
                assert(a0.contains_key(prev[i]));
            }
        }
        assert forall|k1: u64, k2: u64| #[trigger] a.contains_key(k1) && #[trigger] a.contains_key(k2) && k1 != k2
            implies a[k1] != a[k2] by {
            if a0.contains_key(k1) && a0.contains_key(k2) {
                assert(a0[k1] != a0[k2]);
            }
        }
        assert forall|i: int, j: int| 0 <= i < keys.len() && 0 <= j < keys.len() implies
            (#[trigger] ids[i] == #[trigger] ids[j] <==> keys[i] == keys[j]) by {
            assert(ids[i] == ComponentId(a[keys[i]]));
            assert(ids[j] == ComponentId(a[keys[j]]));
            if keys[i] != keys[j] {
                assert(a[keys[i]] != a[keys[j]]);
            }
        }
        assert forall|k: u64| #[trigger] a.contains_key(k) <==> keys.contains(k) by {
            if keys.contains(k) && k != key {
                let i = choose|i: int| 0 <= i < keys.len() && keys[i] == k;
                if i == keys.len() - 1 {
                    assert(keys[i] == key);
                }
                assert(prev.contains(k));
            }
            if a.contains_key(k) && k != key {
                assert(a0.contains_key(k));
                let i = choose|i: int| 0 <= i < prev.len() && prev[i] == k;
                assert(keys[i] == k);
            }
            if k == key {
                assert(keys[keys.len() - 1] == key);
            }
        }
        assert forall|v: u32| v < n implies #[trigger] id_taken(a, v) by {
            if v < n0 {
                assert(id_taken(a0, v));
                let k = choose|k: u64| #[trigger] a0.contains_key(k) && a0[k] == v;
                assert(a.contains_key(k) && a[k] == v);
            } else {
                assert(!a0.contains_key(key));
                assert(a.contains_key(key) && a[key] == v);
            }
        }
    }
}

} // verus!
