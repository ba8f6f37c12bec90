//! Archetypes: entities grouped by their exact set of component types.
//!
//! A signature is the sorted, repeat-free list of component ids. The registry
//! maps each signature to one archetype and records which archetype every
//! entity is in; a query for a set of components only visits archetypes whose
//! signature holds all of them.
use vstd::prelude::*;
use crate::ecs::component::ComponentId;
use crate::ecs::entity::{handle_bits, Entity};
use crate::outside::hash_tables::{
    id_map_contents, id_map_get, id_map_insert, id_map_new, id_map_remove, id_set_contents,
    id_set_elements, id_set_insert, id_set_new, id_set_remove, sig_map_contents, sig_map_get,
    sig_map_insert, sig_map_new, IdMap, IdSet, SigMap,
};
use crate::outside::slice_ops::{binary_search_u32, dedup_sorted_u32, sort_unstable_u32, sorted_u32, strictly_sorted_u32};
use crate::outside::small_vec::{small_ids, small_ids_as_slice, small_ids_clone, small_ids_from_vec, small_ids_to_vec, SmallIds};

verus! {

/// The sorted, repeat-free set of component ids that defines an archetype.
#[derive(PartialEq, Eq, Hash, Debug)]
pub struct ArchetypeSignature {
    ids: SmallIds,
}

impl View for ArchetypeSignature {
    type V = Seq<u32>;

    closed spec fn view(&self) -> Seq<u32> {
        small_ids(self.ids)
    }
}

/// The raw ids of a list of component ids.
pub open spec fn raw_ids(ids: Seq<ComponentId>) -> Seq<u32> {
    ids.map_values(|c: ComponentId| c.0)
}

proof fn lemma_strict_is_sorted(s: Seq<u32>)
    requires
        strictly_sorted_u32(s),
    ensures
        sorted_u32(s),
{
    assert forall|i: int, j: int| 0 <= i <= j < s.len() implies s[i] <= s[j] by {
        if i < j {
            assert(s[i] < s[j]);
        }
    }
}

impl ArchetypeSignature {
    /// Sorted with no repeats.
    pub open spec fn wf(&self) -> bool {
        strictly_sorted_u32(self@)
    }

    /// The signature of exactly the given ids, in any order, repeats ignored.
    pub fn new(ids: Vec<ComponentId>) -> (s: Self)
        ensures
            s.wf(),
            s@.to_set() == raw_ids(ids@).to_set(),
    {
        let mut raw: Vec<u32> = Vec::new();
        let mut i: usize = 0;
        while i < ids.len()
            invariant
                i <= ids.len(),
                raw@ == raw_ids(ids@).take(i as int),
            decreases ids.len() - i,
        {
            raw.push(ids[i].0);
            i = i + 1;
            assert(raw@ =~= raw_ids(ids@).take(i as int));
        }
        assert(raw@ =~= raw_ids(ids@));
        let ghost before = raw@;
        sort_unstable_u32(&mut raw);
        proof {
            assert forall|x: u32| raw@.to_set().contains(x) == before.to_set().contains(x) by {
                assert(raw@.to_multiset().count(x) == before.to_multiset().count(x));
                raw@.to_multiset_ensures();
                before.to_multiset_ensures();
            }
            assert(raw@.to_set() =~= before.to_set());
        }
        dedup_sorted_u32(&mut raw);
        ArchetypeSignature { ids: small_ids_from_vec(raw) }
    }

    /// Whether `id` is in the signature.
    pub fn contains(&self, id: ComponentId) -> (b: bool)
        requires
            self.wf(),
        ensures
            b == self@.contains(id.0),
    {
        proof { lemma_strict_is_sorted(self@); }
        let s = small_ids_as_slice(&self.ids);
        binary_search_u32(s, id.0).is_ok()
    }

    /// This signature with `id` added.
    pub fn with(&self, id: ComponentId) -> (s: Self)
        requires
            self.wf(),
        ensures
            s.wf(),
            s@.to_set() == self@.to_set().insert(id.0),
    {
        proof { lemma_strict_is_sorted(self@); }
        let mut ids = small_ids_to_vec(&self.ids);
        let found = binary_search_u32(ids.as_slice(), id.0);
        match found {
            Err(pos) => {
                let ghost before = ids@;
                ids.insert(pos, id.0);
                proof {
                    assert forall|i: int, j: int| 0 <= i < j < ids@.len() implies ids@[i] < ids@[j] by {
                        if j < pos {
                        } else if j == pos {
                        } else if i < pos {
                            assert(ids@[j] == before[j - 1]);
                        } else if i == pos {
                            assert(ids@[j] == before[j - 1]);
                        } else {
                            assert(ids@[i] == before[i - 1]);
                            assert(ids@[j] == before[j - 1]);
                        }
                    }
                    assert forall|x: u32| ids@.contains(x) == before.to_set().insert(id.0).contains(x) by {
                        if ids@.contains(x) {
                            let k = choose|k: int| 0 <= k < ids@.len() && ids@[k] == x;
                            if k < pos {
                                assert(before[k] == x);
                            } else if k > pos {
                                assert(before[k - 1] == x);
                            }
                        }
                        if before.contains(x) {
                            let k = choose|k: int| 0 <= k < before.len() && before[k] == x;
                            if k < pos {
                                assert(ids@[k] == x);
                            } else {
                                assert(ids@[k + 1] == x);
                            }
                        }
                        if x == id.0 {
                            assert(ids@[pos as int] == x);
                        }
                    }
                    assert(ids@.to_set() =~= before.to_set().insert(id.0));
                }
            },
            Ok(_) => {
                assert(ids@.to_set() =~= self@.to_set().insert(id.0));
            },
        }
        ArchetypeSignature { ids: small_ids_from_vec(ids) }
    }

    /// This signature with `id` taken out.
    pub fn without(&self, id: ComponentId) -> (s: Self)
        requires
            self.wf(),
        ensures
            s.wf(),
            s@.to_set() == self@.to_set().remove(id.0),
    {
        proof { lemma_strict_is_sorted(self@); }
        let mut ids = small_ids_to_vec(&self.ids);
        let found = binary_search_u32(ids.as_slice(), id.0);
        match found {
            Ok(pos) => {
                let ghost before = ids@;
                let _ = ids.remove(pos);
                proof {
                    assert forall|i: int, j: int| 0 <= i < j < ids@.len() implies ids@[i] < ids@[j] by {
                        if j < pos {
                        } else if i < pos {
                            assert(ids@[j] == before[j + 1]);
                        } else {
                            assert(ids@[i] == before[i + 1]);
                            assert(ids@[j] == before[j + 1]);
                        }
                    }
                    assert forall|x: u32| ids@.contains(x) == before.to_set().remove(id.0).contains(x) by {
                        if ids@.contains(x) {
                            let k = choose|k: int| 0 <= k < ids@.len() && ids@[k] == x;
                            if k < pos {
                                assert(before[k] == x);
                                assert(x < id.0);
                            } else {
                                assert(before[k + 1] == x);
                                assert(x > id.0);
                            }
                        }
                        if before.contains(x) && x != id.0 {
                            let k = choose|k: int| 0 <= k < before.len() && before[k] == x;
                            if k < pos {
                                assert(ids@[k] == x);
                            } else {
                                assert(k != pos);
                                assert(ids@[k - 1] == x);
                            }
                        }
                    }
                    assert(ids@.to_set() =~= before.to_set().remove(id.0));
                }
            },
            Err(_) => {
                assert(ids@.to_set() =~= self@.to_set().remove(id.0));
            },
        }
        ArchetypeSignature { ids: small_ids_from_vec(ids) }
    }

    /// A copy of this signature.
    pub fn duplicate(&self) -> (s: Self)
        ensures
            s@ == self@,
    {
        ArchetypeSignature { ids: small_ids_clone(&self.ids) }
    }

    /// The ids, in order.
    pub fn ids(&self) -> (v: Vec<ComponentId>)
        ensures
            raw_ids(v@) == self@,
    {
        let raw = small_ids_to_vec(&self.ids);
        let mut out: Vec<ComponentId> = Vec::new();
        let mut i: usize = 0;
        while i < raw.len()
            invariant
                i <= raw.len(),
                out@.len() == i,
                forall|j: int| 0 <= j < i ==> #[trigger] out@[j].0 == raw@[j],
            decreases raw.len() - i,
        {
            out.push(ComponentId(raw[i]));
            i = i + 1;
        }
        assert(raw_ids(out@) =~= raw@);
        out
    }
}

/// Numeric handle of a registered archetype; its index in the registry.
#[derive(Debug, Clone, Copy, PartialEq, Eq, Structural, Hash)]
pub struct ArchetypeId(pub u32);

/// One archetype: its id, its signature and the entities currently in it.
pub struct Archetype {
    id: ArchetypeId,
    signature: ArchetypeSignature,
    entities: IdSet,
}

impl Archetype {
    pub closed spec fn arch_id(&self) -> ArchetypeId {
        self.id
    }

    pub closed spec fn sig(&self) -> Seq<u32> {
        self.signature@
    }

    /// Packed handles of the entities in this archetype.
    pub closed spec fn members(&self) -> Set<u64> {
        id_set_contents(self.entities)
    }

    pub closed spec fn wf(&self) -> bool {
        &&& self.signature.wf()
        &&& forall|k: u64| #[trigger] self.members().contains(k) ==> handle_bits(k)
    }

    pub fn id(&self) -> (r: ArchetypeId)
        ensures
            r == self.arch_id(),
    {
        self.id
    }

    pub fn signature(&self) -> (r: &ArchetypeSignature)
        ensures
            r@ == self.sig(),
    {
        &self.signature
    }

    /// The entities in this archetype, each once, in no stated order.
    pub fn entities(&self) -> (v: Vec<Entity>)
        requires
            self.wf(),
        ensures
            v@.map_values(|e: Entity| e@).to_set() == self.members(),
            v@.map_values(|e: Entity| e@).no_duplicates(),
    {
        let raw = id_set_elements(&self.entities);
        let mut out: Vec<Entity> = Vec::new();
        let mut i: usize = 0;
        while i < raw.len()
            invariant
                self.wf(),
                raw@.to_set() == self.members(),
                i <= raw.len(),
                out@.len() == i,
                forall|j: int| 0 <= j < i ==> #[trigger] out@[j]@ == raw@[j],
            decreases raw.len() - i,
        {
            assert(raw@.to_set().contains(raw@[i as int]));
            out.push(Entity::from_bits(raw[i]));
            i = i + 1;
        }
        assert(out@.map_values(|e: Entity| e@) =~= raw@);
        out
    }
}

/// All required ids occur in the signature.
pub open spec fn has_all(sig: Seq<u32>, required: Seq<ComponentId>) -> bool {
    forall|j: int| 0 <= j < required.len() ==> sig.contains(#[trigger] required[j].0)
}

/// Signatures to archetypes, and each entity's current archetype.
pub struct ArchetypeRegistry {
    archetypes: Vec<Archetype>,
    sig_to_id: SigMap,
    entity_archetype: IdMap,
}

impl ArchetypeRegistry {
    /// Signature of each archetype, by index.
    pub closed spec fn sigs(&self) -> Seq<Seq<u32>> {
        self.archetypes@.map_values(|a: Archetype| a.signature@)
    }

    /// Each placed entity's archetype index, by packed handle.
    pub closed spec fn placement(&self) -> Map<u64, u32> {
        id_map_contents(self.entity_archetype)
    }

    /// The signature of the archetype that holds packed handle `k`.
    pub open spec fn signature_of(&self, k: u64) -> Seq<u32> {
        self.sigs()[self.placement()[k] as int]
    }

    pub closed spec fn wf(&self) -> bool {
        let sm = sig_map_contents(self.sig_to_id);
        let pl = id_map_contents(self.entity_archetype);
        &&& self.archetypes.len() <= u32::MAX
        &&& forall|i: int| 0 <= i < self.archetypes.len() ==>
                (#[trigger] self.archetypes@[i]).id.0 == i && self.archetypes@[i].wf()
        &&& forall|i: int| 0 <= i < self.archetypes.len() ==>
                #[trigger] sm.contains_key(self.archetypes@[i].signature@)
                && sm[self.archetypes@[i].signature@] == i
        &&& forall|s: Seq<u32>| #[trigger] sm.contains_key(s) ==>
                sm[s] < self.archetypes.len() && self.archetypes@[sm[s] as int].signature@ == s
        &&& forall|k: u64| #[trigger] pl.contains_key(k) ==>
                pl[k] < self.archetypes.len() && self.archetypes@[pl[k] as int].members().contains(k)
        &&& forall|i: int, k: u64| 0 <= i < self.archetypes.len()
                && #[trigger] self.archetypes@[i].members().contains(k) ==>
                pl.contains_key(k) && pl[k] == i
    }

    /// What `wf` gives callers: signatures are well formed and distinct, and
    /// every placed handle is a live-handle shape in a real archetype.
    pub proof fn lemma_wf(&self)
        requires
            self.wf(),
        ensures
            forall|i: int| 0 <= i < self.sigs().len() ==> strictly_sorted_u32(#[trigger] self.sigs()[i]),
            forall|i: int, j: int| 0 <= i < j < self.sigs().len() ==> self.sigs()[i] != self.sigs()[j],
            forall|k: u64| #[trigger] self.placement().contains_key(k) ==>
                self.placement()[k] < self.sigs().len() && handle_bits(k),
    {
        let sm = sig_map_contents(self.sig_to_id);
        assert forall|i: int| 0 <= i < self.sigs().len() implies strictly_sorted_u32(#[trigger] self.sigs()[i]) by {
            assert(self.archetypes@[i].wf());
        }
        assert forall|i: int, j: int| 0 <= i < j < self.sigs().len() implies self.sigs()[i] != self.sigs()[j] by {
            assert(sm.contains_key(self.archetypes@[i].signature@));
            assert(sm.contains_key(self.archetypes@[j].signature@));
        }
        assert forall|k: u64| #[trigger] self.placement().contains_key(k) implies
            self.placement()[k] < self.sigs().len() && handle_bits(k) by {
            let i = self.placement()[k] as int;
            assert(self.archetypes@[i].wf());
            assert(self.archetypes@[i].members().contains(k));
        }
    }

    pub fn new() -> (r: Self)
        ensures
            r.wf(),
            r.sigs().len() == 0,
            r.placement().dom() == Set::<u64>::empty(),
    {
        let r = ArchetypeRegistry {
            archetypes: Vec::new(),
            sig_to_id: sig_map_new(),
            entity_archetype: id_map_new(),
        };
        assert(r.sigs() =~= Seq::<Seq<u32>>::empty());
        r
    }

    /// The archetype of `sig`, created (empty) if it did not exist.
    pub fn get_or_create(&mut self, sig: ArchetypeSignature) -> (id: ArchetypeId)
        requires
            old(self).wf(),
            sig.wf(),
            old(self).sigs().len() < u32::MAX,
        ensures
            final(self).wf(),
            final(self).sigs() == (if old(self).sigs().contains(sig@) {
                old(self).sigs()
            } else {
                old(self).sigs().push(sig@)
            }),
            id.0 < final(self).sigs().len(),
            final(self).sigs()[id.0 as int] == sig@,
            final(self).placement() == old(self).placement(),
    {
        let ghost sm0 = sig_map_contents(self.sig_to_id);
        if let Some(id) = sig_map_get(&self.sig_to_id, &sig) {
            proof {
                assert(self.sigs()[id as int] == sig@);
            }
            return ArchetypeId(id);
        }
        proof {
            assert(!old(self).sigs().contains(sig@)) by {
                if old(self).sigs().contains(sig@) {
                    let i = choose|i: int| 0 <= i < old(self).sigs().len() && old(self).sigs()[i] == sig@;
                    assert(sm0.contains_key(self.archetypes@[i].signature@));
                }
            }
        }
        let id = ArchetypeId(self.archetypes.len() as u32);
        let copy = sig.duplicate();
        self.archetypes.push(Archetype { id, signature: copy, entities: id_set_new() });
        sig_map_insert(&mut self.sig_to_id, sig, id.0);
        proof {
            let n = old(self).archetypes.len();
            let sm = sig_map_contents(self.sig_to_id);
            let pl = id_map_contents(self.entity_archetype);
            assert(self.sigs() =~= old(self).sigs().push(sig@));
            assert forall|i: int| 0 <= i < self.archetypes.len() implies
                (#[trigger] self.archetypes@[i]).id.0 == i && self.archetypes@[i].wf() by {
                if i < n {
                    assert(self.archetypes@[i] == old(self).archetypes@[i]);
                }
            }
            assert forall|i: int| 0 <= i < self.archetypes.len() implies
                #[trigger] sm.contains_key(self.archetypes@[i].signature@)
                && sm[self.archetypes@[i].signature@] == i by {
                if i < n {
                    assert(self.archetypes@[i] == old(self).archetypes@[i]);
                    assert(sm0.contains_key(old(self).archetypes@[i].signature@));
                    assert(old(self).sigs()[i] == old(self).archetypes@[i].signature@);
                }
            }
            assert forall|s: Seq<u32>| #[trigger] sm.contains_key(s) implies
                sm[s] < self.archetypes.len() && self.archetypes@[sm[s] as int].signature@ == s by {
                if s != sig@ {
                    assert(sm0.contains_key(s));
                }
            }
            assert forall|k: u64| #[trigger] pl.contains_key(k) implies
                pl[k] < self.archetypes.len() && self.archetypes@[pl[k] as int].members().contains(k) by {
                assert(self.archetypes@[pl[k] as int] == old(self).archetypes@[pl[k] as int]);
            }
            assert forall|i: int, k: u64| 0 <= i < self.archetypes.len()
                && #[trigger] self.archetypes@[i].members().contains(k) implies
                pl.contains_key(k) && pl[k] == i by {
                if i < n {
                    assert(self.archetypes@[i] == old(self).archetypes@[i]);
                }
            }
        }
        id
    }

    /// Moves `entity` out of its current archetype (if any) into the one of
    /// `new_sig`, creating that archetype if needed.
    pub fn move_entity(&mut self, entity: Entity, new_sig: ArchetypeSignature) -> (id: ArchetypeId)
        requires
            old(self).wf(),
            new_sig.wf(),
            old(self).sigs().len() < u32::MAX,
        ensures
            final(self).wf(),
            final(self).sigs() == (if old(self).sigs().contains(new_sig@) {
                old(self).sigs()
            } else {
                old(self).sigs().push(new_sig@)
            }),
            id.0 < final(self).sigs().len(),
            final(self).sigs()[id.0 as int] == new_sig@,
            final(self).placement() == old(self).placement().insert(entity@, id.0),
    {
        let bits = entity.to_bits();
        self.detach(bits);
        let id = self.get_or_create(new_sig);
        self.attach(bits, id.0);
        id
    }

    /// Takes packed handle `bits` out of its archetype, if it is in one.
    fn detach(&mut self, bits: u64) -> (was: Option<u32>)
        requires
            old(self).wf(),
        ensures
            final(self).wf(),
            final(self).sigs() == old(self).sigs(),
            final(self).placement() == old(self).placement().remove(bits),
            was == (if old(self).placement().contains_key(bits) {
                Some(old(self).placement()[bits])
            } else {
                None
            }),
    {
        let ghost pl0 = id_map_contents(self.entity_archetype);
        let r = id_map_remove(&mut self.entity_archetype, bits);
        if let Some(old_id) = r {
            let i = old_id as usize;
            let mut a = self.archetypes.remove(i);
            id_set_remove(&mut a.entities, bits);
            self.archetypes.insert(i, a);
            proof {
                let pl = id_map_contents(self.entity_archetype);
                assert forall|j: int| 0 <= j < self.archetypes.len() implies
                    (#[trigger] self.archetypes@[j]) == (if j == i { self.archetypes@[j] } else { old(self).archetypes@[j] }) by {
                }
                assert(self.sigs() =~= old(self).sigs());
                assert forall|j: int| 0 <= j < self.archetypes.len() implies
                    (#[trigger] self.archetypes@[j]).id.0 == j && self.archetypes@[j].wf() by {
                    assert(old(self).archetypes@[j].wf());
                }
                assert forall|k: u64| #[trigger] pl.contains_key(k) implies
                    pl[k] < self.archetypes.len() && self.archetypes@[pl[k] as int].members().contains(k) by {
                    assert(pl0.contains_key(k));
                }
                assert forall|j: int, k: u64| 0 <= j < self.archetypes.len()
                    && #[trigger] self.archetypes@[j].members().contains(k) implies
                    pl.contains_key(k) && pl[k] == j by {
                    assert(old(self).archetypes@[j].members().contains(k));
                }
                assert(self.wf());
            }
        } else {
            assert(id_map_contents(self.entity_archetype) =~= pl0.remove(bits));
        }
        r
    }

    /// Puts unplaced packed handle `bits` into archetype `id`.
    fn attach(&mut self, bits: u64, id: u32)
        requires
            old(self).wf(),
            !old(self).placement().contains_key(bits),
            id < old(self).sigs().len(),
            handle_bits(bits),
        ensures
            final(self).wf(),
            final(self).sigs() == old(self).sigs(),
            final(self).placement() == old(self).placement().insert(bits, id),
    {
        let ghost pl0 = id_map_contents(self.entity_archetype);
        let i = id as usize;
        let mut a = self.archetypes.remove(i);
        id_set_insert(&mut a.entities, bits);
        self.archetypes.insert(i, a);
        id_map_insert(&mut self.entity_archetype, bits, id);
        proof {
            let pl = id_map_contents(self.entity_archetype);
            assert forall|j: int| 0 <= j < self.archetypes.len() implies
                (#[trigger] self.archetypes@[j]) == (if j == i { self.archetypes@[j] } else { old(self).archetypes@[j] }) by {
            }
            assert(self.sigs() =~= old(self).sigs());
            assert forall|j: int| 0 <= j < self.archetypes.len() implies
                (#[trigger] self.archetypes@[j]).id.0 == j && self.archetypes@[j].wf() by {
                assert(old(self).archetypes@[j].wf());
                if j == i {
                    assert forall|k: u64| #[trigger] self.archetypes@[j].members().contains(k) implies handle_bits(k) by {
                        if k != bits {
                            assert(old(self).archetypes@[j].members().contains(k));
                        }
                    }
                }
            }
            assert forall|k: u64| #[trigger] pl.contains_key(k) implies
                pl[k] < self.archetypes.len() && self.archetypes@[pl[k] as int].members().contains(k) by {
                if k != bits {
                    assert(pl0.contains_key(k));
                }
            }
            assert forall|j: int, k: u64| 0 <= j < self.archetypes.len()
                && #[trigger] self.archetypes@[j].members().contains(k) implies
                pl.contains_key(k) && pl[k] == j by {
                if !(j == i && k == bits) {
                    assert(old(self).archetypes@[j].members().contains(k));
                }
            }
        }
    }

    /// Removes `entity` from the registry (on despawn).
    pub fn remove_entity(&mut self, entity: Entity)
        requires
            old(self).wf(),
        ensures
            final(self).wf(),
            final(self).sigs() == old(self).sigs(),
            final(self).placement() == old(self).placement().remove(entity@),
    {
        let _ = self.detach(entity.to_bits());
    }

    /// The current archetype of `entity`.
    pub fn archetype_of(&self, entity: Entity) -> (r: Option<ArchetypeId>)
        requires
            self.wf(),
        ensures
            r == (if self.placement().contains_key(entity@) {
                Some(ArchetypeId(self.placement()[entity@]))
            } else {
                None
            }),
    {
        match id_map_get(&self.entity_archetype, entity.to_bits()) {
            Some(i) => Some(ArchetypeId(i)),
            None => None,
        }
    }

    /// Number of archetypes registered.
    pub fn archetype_total(&self) -> (n: usize)
        ensures
            n == self.sigs().len(),
    {
        self.archetypes.len()
    }

    /// The archetype with id `id`, if registered.
    pub fn get(&self, id: ArchetypeId) -> (r: Option<&Archetype>)
        requires
            self.wf(),
        ensures
            r is Some == (id.0 < self.sigs().len()),
            r matches Some(a) ==> a.arch_id() == id && a.sig() == self.sigs()[id.0 as int] && a.wf()
                && forall|k: u64| a.members().contains(k) <==>
                    (self.placement().contains_key(k) && self.placement()[k] == id.0),
    {
        let i = id.0 as usize;
        if i < self.archetypes.len() {
            let a = &self.archetypes[i];
            proof {
                assert forall|k: u64| a.members().contains(k) <==>
                    (self.placement().contains_key(k) && self.placement()[k] == id.0) by {
                    if self.placement().contains_key(k) {
                        assert(id_map_contents(self.entity_archetype).contains_key(k));
                    }
                }
            }
            Some(a)
        } else {
            None
        }
    }

    /// The signature of the archetype that `entity` is in.
    pub fn current_signature(&self, entity: Entity) -> (r: Option<&ArchetypeSignature>)
        requires
            self.wf(),
        ensures
            r is Some == self.placement().contains_key(entity@),
            r matches Some(s) ==> s@ == self.signature_of(entity@) && s.wf(),
    {
        match id_map_get(&self.entity_archetype, entity.to_bits()) {
            Some(i) => {
                proof { assert(id_map_contents(self.entity_archetype).contains_key(entity@)); }
                let a = &self.archetypes[i as usize];
                proof { assert(a.wf()); }
                Some(&a.signature)
            },
            None => None,
        }
    }

    /// `a` is the registered archetype it claims to be, and its signature
    /// holds every id in `required`.
    pub open spec fn lists(&self, a: &Archetype, required: Seq<ComponentId>) -> bool {
        &&& a.wf()
        &&& a.arch_id().0 < self.sigs().len()
        &&& a.sig() == self.sigs()[a.arch_id().0 as int]
        &&& has_all(a.sig(), required)
        &&& forall|k: u64| a.members().contains(k) <==>
                (self.placement().contains_key(k) && self.placement()[k] == a.arch_id().0)
    }

    /// The archetypes whose signature holds every id in `required`, in
    /// registration order.
    pub fn matching_archetypes(&self, required: &[ComponentId]) -> (r: Vec<&Archetype>)
        requires
            self.wf(),
        ensures
            forall|j: int| 0 <= j < r.len() ==> self.lists(#[trigger] r@[j], required@),
            forall|i: int| 0 <= i < self.sigs().len() && has_all(self.sigs()[i], required@) ==>
                exists|j: int| 0 <= j < r.len() && (#[trigger] r@[j]).arch_id().0 == i,
            forall|j1: int, j2: int| 0 <= j1 < j2 < r.len() ==> r@[j1].arch_id().0 < r@[j2].arch_id().0,
    {
        let mut out: Vec<&Archetype> = Vec::new();
        let mut i: usize = 0;
        assert(self.sigs().len() == self.archetypes.len());
        while i < self.archetypes.len()
            invariant
                self.wf(),
                self.sigs().len() == self.archetypes.len(),
                i <= self.archetypes.len(),
                forall|j: int| 0 <= j < out.len() ==> self.lists(#[trigger] out@[j], required@),
                forall|j: int| 0 <= j < out.len() ==> (#[trigger] out@[j]).arch_id().0 < i,
                forall|m: int| 0 <= m < i && has_all(self.sigs()[m], required@) ==>
                    exists|j: int| 0 <= j < out.len() && (#[trigger] out@[j]).arch_id().0 == m,
                forall|j1: int, j2: int| 0 <= j1 < j2 < out.len() ==> out@[j1].arch_id().0 < out@[j2].arch_id().0,
            decreases self.archetypes.len() - i,
        {
            let a = &self.archetypes[i];
            let mut all = true;
            let mut q: usize = 0;
            while q < required.len()
                invariant
                    a.wf(),
                    q <= required.len(),
                    all == forall|j: int| 0 <= j < q ==> a.sig().contains(#[trigger] required@[j].0),
                decreases required.len() - q,
            {
                if !a.signature.contains(required[q]) {
                    all = false;
                }
                q = q + 1;
            }
            let ghost out0 = out@;
            proof {
                assert(a.wf());
                assert(a.arch_id().0 == i);
                assert(a.sig() == self.sigs()[i as int]);
            }
            if all {
                proof {
                    assert(has_all(a.sig(), required@));
                    assert forall|k: u64| a.members().contains(k) <==>
                        (self.placement().contains_key(k) && self.placement()[k] == a.arch_id().0) by {
                        if self.placement().contains_key(k) {
                            assert(id_map_contents(self.entity_archetype).contains_key(k));
                        }
                    }
                    assert(self.lists(a, required@));
                }
                out.push(a);
            }
            proof {
                assert forall|j: int| 0 <= j < out.len() implies self.lists(#[trigger] out@[j], required@)
                    && out@[j].arch_id().0 < i + 1 by {
                    if j < out0.len() {
                        assert(out@[j] == out0[j]);
                    }
                }
                assert forall|m: int| 0 <= m < i + 1 && has_all(self.sigs()[m], required@) implies
                    exists|j: int| 0 <= j < out.len() && (#[trigger] out@[j]).arch_id().0 == m by {
                    if m == i {
                        assert(out@[out.len() - 1].arch_id().0 == m);
                    } else {
                        let j = choose|j: int| 0 <= j < out0.len() && (#[trigger] out0[j]).arch_id().0 == m;
                        assert(out@[j] == out0[j]);
                    }
                }
            }
            i = i + 1;
        }
        out
    }
}

} // verus!
