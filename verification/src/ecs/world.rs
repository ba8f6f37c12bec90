//! `World`: entities, their components and the archetype index over them.
//!
//! Components of every type share one value type `V` and are told apart by
//! their `ComponentId`; each id has its own dense storage. The archetype
//! registry groups live entities by the exact set of ids they hold.
use vstd::prelude::*;
use crate::ecs::archetype::{has_all, ArchetypeRegistry, ArchetypeSignature};
use crate::ecs::component::ComponentId;
use crate::ecs::entity::{handle_bits, lemma_live_handles, live_handles, slots_ok, Entity, EntityAllocator};
use crate::ecs::storage::ComponentStorage;
use crate::outside::hash_tables::{id_map_contents, id_map_get, id_map_insert, id_map_new, IdMap};
use crate::outside::slot_map::{count_occupied, key_live, remove_step};

verus! {

broadcast use crate::ecs::entity::lemma_entity_view_injective;

pub struct World<V> {
    allocator: EntityAllocator,
    /// Component id → index of its storage.
    storage_of: IdMap,
    storages: Vec<ComponentStorage<V>>,
    /// Component id of each storage.
    storage_ids: Vec<u32>,
    archetypes: ArchetypeRegistry,
}

impl<V> World<V> {
    /// The allocator's slot versions.
    pub closed spec fn slots(&self) -> Seq<u32> {
        self.allocator@
    }

    pub open spec fn alive(&self, e: Entity) -> bool {
        EntityAllocator::live(self.slots(), e)
    }

    /// Components of type `c`, by packed entity handle.
    pub closed spec fn components(&self, c: u32) -> Map<u64, V> {
        let m = id_map_contents(self.storage_of);
        if m.contains_key(c as u64) {
            self.storages@[m[c as u64] as int].contents()
        } else {
            Map::empty()
        }
    }

    pub open spec fn holds(&self, e: Entity, c: ComponentId) -> bool {
        self.components(c.0).contains_key(e@)
    }

    /// Components of every type at once.
    pub open spec fn components_all(&self) -> Map<u32, Map<u64, V>> {
        Map::new(|c: u32| true, |c: u32| self.components(c))
    }

    /// Whether packed handle `k` is placed in an archetype.
    pub closed spec fn placed(&self, k: u64) -> bool {
        self.archetypes.placement().contains_key(k)
    }

    /// The component ids of the archetype that packed handle `k` is in.
    pub closed spec fn signature_set(&self, k: u64) -> Set<u32> {
        self.archetypes.signature_of(k).to_set()
    }

    /// Number of component storages created so far.
    pub closed spec fn storage_count(&self) -> nat {
        self.storages.len() as nat
    }

    /// Number of archetypes registered so far.
    pub closed spec fn archetype_count(&self) -> nat {
        self.archetypes.sigs().len()
    }

    pub closed spec fn wf(&self) -> bool {
        let m = id_map_contents(self.storage_of);
        &&& self.storages.len() == self.storage_ids.len()
        &&& self.storages.len() <= u32::MAX
        &&& forall|c: u64| #[trigger] m.contains_key(c) ==>
                m[c] < self.storages.len() && self.storage_ids@[m[c] as int] as u64 == c
        &&& forall|i: int| 0 <= i < self.storages.len() ==>
                #[trigger] m.contains_key(self.storage_ids@[i] as u64) && m[self.storage_ids@[i] as u64] == i
        &&& forall|i: int| 0 <= i < self.storages.len() ==> (#[trigger] self.storages@[i]).wf()
        &&& self.archetypes.wf()
        &&& slots_ok(self.slots())
        &&& forall|k: u64| #[trigger] self.placed(k) ==> key_live(self.slots(), k)
        &&& forall|k: u64| handle_bits(k) && #[trigger] key_live(self.slots(), k) ==> self.placed(k)
        &&& forall|c: u32, k: u64|
                #![trigger self.components(c).contains_key(k)]
                #![trigger self.signature_set(k).contains(c)]
                self.components(c).contains_key(k) <==> (self.placed(k) && self.signature_set(k).contains(c))
    }

    /// A read gives back the last write: once `insert(e, c, v)` has run (as
    /// its contract states the change), `get(e, c)` finds `v`, while every
    /// other entity's `c` and every other component type read as before.
    pub proof fn law_read_after_write(before: &Self, after: &Self, e: Entity, c: ComponentId, v: V)
        requires
            after.components(c.0) == before.components(c.0).insert(e@, v),
            forall|c2: u32| c2 != c.0 ==> #[trigger] after.components(c2) == before.components(c2),
        ensures
            after.components(c.0).contains_key(e@),
            after.components(c.0)[e@] == v,
            forall|k: u64| k != e@ ==> (#[trigger] after.components(c.0).contains_key(k)
                == before.components(c.0).contains_key(k)),
            forall|k: u64| k != e@ && before.components(c.0).contains_key(k) ==> #[trigger] after.components(c.0)[k]
                == before.components(c.0)[k],
            forall|c2: u32| c2 != c.0 ==> #[trigger] after.components(c2) == before.components(c2),
    {
    }

    /// An entity's archetype lists exactly the component types it holds.
    pub proof fn law_archetype_matches_components(&self, e: Entity, c: ComponentId)
        requires
            self.wf(),
            e.valid(),
            self.alive(e),
        ensures
            self.placed(e@),
            self.holds(e, c) == self.signature_set(e@).contains(c.0),
    {
        e.lemma_valid_bits();
    }

    /// No component type is held by more entities than are alive, which is
    /// fewer than `u32::MAX`.
    pub proof fn lemma_component_count(&self, c: u32)
        requires
            self.wf(),
        ensures
            self.components(c).dom().finite(),
            self.components(c).dom().len() <= count_occupied(self.slots()),
            count_occupied(self.slots()) < u32::MAX,
    {
        lemma_live_handles(self.slots());
        self.archetypes.lemma_wf();
        assert forall|k: u64| self.components(c).dom().contains(k) implies live_handles(self.slots()).contains(k) by {
            assert(self.components(c).contains_key(k));
            assert(self.signature_set(k).contains(c));
            assert(self.placed(k));
        }
        vstd::set_lib::lemma_len_subset(self.components(c).dom(), live_handles(self.slots()));
    }

    /// A dead entity holds no components.
    pub proof fn lemma_dead_holds_nothing(&self, e: Entity)
        requires
            self.wf(),
            !self.alive(e),
        ensures
            forall|c: u32| !(#[trigger] self.components(c)).contains_key(e@),
    {
        assert forall|c: u32| !(#[trigger] self.components(c)).contains_key(e@) by {
            if self.components(c).contains_key(e@) {
                assert(self.signature_set(e@).contains(c));
                assert(self.placed(e@));
            }
        }
    }

    pub fn new() -> (w: Self)
        ensures
            w.wf(),
            w.slots() == seq![0u32],
            forall|c: u32| (#[trigger] w.components(c)).dom() == Set::<u64>::empty(),
            w.archetype_count() == 0,
            w.storage_count() == 0,
    {
        let w = World {
            allocator: EntityAllocator::new(),
            storage_of: id_map_new(),
            storages: Vec::new(),
            storage_ids: Vec::new(),
            archetypes: ArchetypeRegistry::new(),
        };
        proof {
            assert forall|c: u32| (#[trigger] w.components(c)).dom() == Set::<u64>::empty() by {
                assert(w.components(c).dom() =~= Set::<u64>::empty());
            }
            assert forall|k: u64| handle_bits(k) && #[trigger] key_live(w.slots(), k) implies w.placed(k) by {
                assert(w.slots() == seq![0u32]);
            }
        }
        w
    }

    /// Index of the storage of `c`, if it has one.
    fn storage_index(&self, c: ComponentId) -> (r: Option<usize>)
        requires
            self.wf(),
        ensures
            r matches Some(i) ==> i < self.storages.len()
                && self.components(c.0) == self.storages@[i as int].contents(),
            r is None ==> self.components(c.0) == Map::<u64, V>::empty(),
    {
        match id_map_get(&self.storage_of, c.0 as u64) {
            Some(i) => Some(i as usize),
            None => None,
        }
    }

    /// Spawns an entity with no components.
    pub fn spawn(&mut self) -> (e: Entity)
        requires
            old(self).wf(),
            old(self).slots().len() < u32::MAX,
            old(self).archetype_count() < u32::MAX,
        ensures
            final(self).wf(),
            e.valid(),
            !old(self).alive(e),
            final(self).alive(e),
            forall|k: u64| #![trigger key_live(final(self).slots(), k)]
                handle_bits(k) && k != e@ ==> key_live(final(self).slots(), k) == key_live(old(self).slots(), k),
            forall|c: u32| #[trigger] final(self).components(c) == old(self).components(c),
            final(self).signature_set(e@) == Set::<u32>::empty(),
            count_occupied(final(self).slots()) == count_occupied(old(self).slots()) + 1,
            final(self).archetype_count() <= old(self).archetype_count() + 1,
            final(self).storage_count() == old(self).storage_count(),
            final(self).slots().len() <= old(self).slots().len() + 1,
    {
        let e = self.allocator.allocate();
        let sig = ArchetypeSignature::new(Vec::new());
        proof {
            assert(sig@.to_set() =~= Set::<u32>::empty());
            assert(!old(self).placed(e@)) by {
                if old(self).placed(e@) {
                    assert(key_live(old(self).slots(), e@));
                }
            }
        }
        let _ = self.archetypes.move_entity(e, sig);
        proof {
            let ghost w0 = *old(self);
            self.archetypes.lemma_wf();
            w0.archetypes.lemma_wf();
            assert forall|c: u32| #[trigger] self.components(c) == w0.components(c) by {
            }
            assert forall|k: u64| #[trigger] self.placed(k) implies key_live(self.slots(), k) by {
                if k != e@ {
                    assert(w0.placed(k));
                }
            }
            assert forall|k: u64| handle_bits(k) && #[trigger] key_live(self.slots(), k) implies self.placed(k) by {
                if k != e@ {
                    assert(key_live(w0.slots(), k));
                }
            }
            assert forall|k: u64| #[trigger] w0.placed(k) implies self.signature_set(k) == w0.signature_set(k) by {
                assert(w0.archetypes.placement()[k] < w0.archetypes.sigs().len());
            }
            assert forall|c: u32, k: u64|
                #![trigger self.components(c).contains_key(k)]
                #![trigger self.signature_set(k).contains(c)]
                self.components(c).contains_key(k) <==> (self.placed(k) && self.signature_set(k).contains(c)) by {
                if k == e@ {
                    assert(!w0.components(c).contains_key(k));
                } else if w0.placed(k) {
                    assert(self.signature_set(k) == w0.signature_set(k));
                }
            }
        }
        e
    }

    pub fn is_alive(&self, entity: Entity) -> (b: bool)
        ensures
            b == self.alive(entity),
    {
        self.allocator.is_alive(entity)
    }

    /// Number of live entities.
    pub fn entity_count(&self) -> (n: usize)
        ensures
            n == count_occupied(self.slots()),
    {
        self.allocator.len()
    }

    /// The component `c` of `entity`, if it has one.
    pub fn get(&self, entity: Entity, c: ComponentId) -> (r: Option<&V>)
        requires
            self.wf(),
        ensures
            r == (if self.components(c.0).contains_key(entity@) {
                Some(&self.components(c.0)[entity@])
            } else {
                None
            }),
    {
        match self.storage_index(c) {
            Some(i) => self.storages[i].get(entity),
            None => None,
        }
    }

    /// Whether `entity` has component `c`.
    pub fn has(&self, entity: Entity, c: ComponentId) -> (b: bool)
        requires
            self.wf(),
        ensures
            b == self.components(c.0).contains_key(entity@),
    {
        match self.storage_index(c) {
            Some(i) => self.storages[i].contains(entity),
            None => false,
        }
    }

    /// How many entities have component `c`.
    pub fn component_count(&self, c: ComponentId) -> (n: usize)
        requires
            self.wf(),
        ensures
            n == self.components(c.0).dom().len(),
    {
        match self.storage_index(c) {
            Some(i) => self.storages[i].len(),
            None => 0,
        }
    }

    /// How many archetypes have been registered.
    pub fn archetype_total(&self) -> (n: usize)
        requires
            self.wf(),
        ensures
            n == self.archetype_count(),
    {
        self.archetypes.archetype_total()
    }

    /// How many component storages have been created.
    pub fn storage_total(&self) -> (n: usize)
        ensures
            n == self.storage_count(),
    {
        self.storages.len()
    }

    /// Index of the storage of `c`, created empty if it has none.
    fn storage_index_or_create(&mut self, c: ComponentId) -> (i: usize)
        requires
            old(self).wf(),
            old(self).storage_count() < u32::MAX,
        ensures
            final(self).wf(),
            i < final(self).storages.len(),
            final(self).components(c.0) == final(self).storages@[i as int].contents(),
            final(self).storage_ids@[i as int] == c.0,
            forall|c2: u32| #[trigger] final(self).components(c2) == old(self).components(c2),
            final(self).slots() == old(self).slots(),
            final(self).archetypes == old(self).archetypes,
            final(self).storage_count() <= old(self).storage_count() + 1,
    {
        match id_map_get(&self.storage_of, c.0 as u64) {
            Some(i) => {
                proof {
                    assert(id_map_contents(self.storage_of).contains_key(c.0 as u64));
                }
                i as usize
            },
            None => {
                let i = self.storages.len();
                self.storages.push(ComponentStorage::new());
                self.storage_ids.push(c.0);
                id_map_insert(&mut self.storage_of, c.0 as u64, i as u32);
                proof {
                    let m0 = id_map_contents(old(self).storage_of);
                    let m = id_map_contents(self.storage_of);
                    assert forall|c2: u64| #[trigger] m.contains_key(c2) implies
                        m[c2] < self.storages.len() && self.storage_ids@[m[c2] as int] as u64 == c2 by {
                        if c2 != c.0 as u64 {
                            assert(m0.contains_key(c2));
                        }
                    }
                    assert forall|j: int| 0 <= j < self.storages.len() implies
                        #[trigger] m.contains_key(self.storage_ids@[j] as u64) && m[self.storage_ids@[j] as u64] == j by {
                        if j < i {
                            assert(self.storage_ids@[j] == old(self).storage_ids@[j]);
                            assert(m0.contains_key(old(self).storage_ids@[j] as u64));
                        }
                    }
                    assert forall|j: int| 0 <= j < self.storages.len() implies (#[trigger] self.storages@[j]).wf() by {
                        if j < i {
                            assert(self.storages@[j] == old(self).storages@[j]);
                        }
                    }
                    assert forall|c2: u32| #[trigger] self.components(c2) == old(self).components(c2) by {
                        if c2 == c.0 {
                            assert(self.components(c2) =~= old(self).components(c2));
                        } else {
                            if m0.contains_key(c2 as u64) {
                                assert(self.storages@[m0[c2 as u64] as int] == old(self).storages@[m0[c2 as u64] as int]);
                            }
                        }
                    }
                    assert forall|c2: u32, k: u64|
                        #![trigger self.components(c2).contains_key(k)]
                        #![trigger self.signature_set(k).contains(c2)]
                        self.components(c2).contains_key(k) <==> (self.placed(k) && self.signature_set(k).contains(c2)) by {
                        assert(self.components(c2) == old(self).components(c2));
                        assert(old(self).components(c2).contains_key(k) <==> (old(self).placed(k) && old(self).signature_set(k).contains(c2)));
                    }
                    assert forall|k: u64| #[trigger] self.placed(k) implies key_live(self.slots(), k) by {
                        assert(old(self).placed(k));
                    }
                    assert forall|k: u64| handle_bits(k) && #[trigger] key_live(self.slots(), k) implies self.placed(k) by {
                        assert(key_live(old(self).slots(), k));
                    }
                    assert(self.wf());
                }
                i
            },
        }
    }

    /// The signature `entity` has now, or the empty one.
    fn signature_now(&self, entity: Entity) -> (s: ArchetypeSignature)
        requires
            self.wf(),
        ensures
            s.wf(),
            s@.to_set() == (if self.placed(entity@) { self.signature_set(entity@) } else { Set::<u32>::empty() }),
    {
        match self.archetypes.current_signature(entity) {
            Some(sig) => sig.duplicate(),
            None => {
                let s = ArchetypeSignature::new(Vec::new());
                assert(s@.to_set() =~= Set::<u32>::empty());
                s
            },
        }
    }

    /// Inserts or overwrites component `c` of `entity`, moving the entity to
    /// the archetype that includes `c`.
    pub fn insert(&mut self, entity: Entity, c: ComponentId, value: V)
        requires
            old(self).wf(),
            old(self).alive(entity),
            old(self).archetype_count() < u32::MAX,
            old(self).storage_count() < u32::MAX,
        ensures
            final(self).wf(),
            final(self).slots() == old(self).slots(),
            final(self).components(c.0) == old(self).components(c.0).insert(entity@, value),
            forall|c2: u32| c2 != c.0 ==> #[trigger] final(self).components(c2) == old(self).components(c2),
            final(self).signature_set(entity@) == old(self).signature_set(entity@).insert(c.0),
            final(self).archetype_count() <= old(self).archetype_count() + 1,
            final(self).storage_count() <= old(self).storage_count() + 1,
    {
        proof {
            use_type_invariant(&entity);
            entity.lemma_valid_bits();
            self.archetypes.lemma_wf();
        }
        let i = self.storage_index_or_create(c);
        let ghost w0 = *self;
        let now = self.signature_now(entity);
        let new_sig = now.with(c);
        let _ = self.archetypes.move_entity(entity, new_sig);
        let ghost w1 = *self;
        proof {
            w0.archetypes.lemma_wf();
            assert forall|k: u64| #[trigger] w0.placed(k) && k != entity@ implies
                w1.placed(k) && w1.signature_set(k) == w0.signature_set(k) by {
                assert(w0.archetypes.placement()[k] < w0.archetypes.sigs().len());
            }
        }
        let ghost w2 = *self;
        proof {
            self.storages@[i as int].lemma_dense_order();
            w0.lemma_component_count(c.0);
        }
        self.storages[i].insert(entity, value);
        proof {
            let m = id_map_contents(self.storage_of);
            assert forall|j: int| 0 <= j < self.storages.len() implies (#[trigger] self.storages@[j]).wf() by {
                if j != i {
                    assert(self.storages@[j] == w2.storages@[j]);
                }
            }
            assert forall|c2: u32| c2 != c.0 implies #[trigger] self.components(c2) == w2.components(c2) by {
                if m.contains_key(c2 as u64) {
                    assert(m[c2 as u64] != i);
                    assert(self.storages@[m[c2 as u64] as int] == w2.storages@[m[c2 as u64] as int]);
                }
            }
            assert(self.components(c.0) == w2.storages@[i as int].contents().insert(entity@, value));
            assert forall|k: u64| #[trigger] self.placed(k) implies key_live(self.slots(), k) by {
                if k != entity@ {
                    assert(w0.placed(k));
                }
            }
            assert forall|k: u64| handle_bits(k) && #[trigger] key_live(self.slots(), k) implies self.placed(k) by {
                assert(w0.placed(k));
            }
            assert forall|c2: u32, k: u64|
                #![trigger self.components(c2).contains_key(k)]
                #![trigger self.signature_set(k).contains(c2)]
                self.components(c2).contains_key(k) <==> (self.placed(k) && self.signature_set(k).contains(c2)) by {
                assert(w0.components(c2).contains_key(k) <==> (w0.placed(k) && w0.signature_set(k).contains(c2)));
                if k != entity@ && w0.placed(k) {
                    assert(w1.signature_set(k) == w0.signature_set(k));
                }
            }
        }
    }

    /// Removes component `c` from `entity`, returning it; the entity moves to
    /// the archetype without `c`. A dead entity is left alone (`None`).
    pub fn remove(&mut self, entity: Entity, c: ComponentId) -> (r: Option<V>)
        requires
            old(self).wf(),
            old(self).archetype_count() < u32::MAX,
            old(self).storage_count() < u32::MAX,
        ensures
            final(self).wf(),
            final(self).slots() == old(self).slots(),
            r == (if old(self).alive(entity) && old(self).components(c.0).contains_key(entity@) {
                Some(old(self).components(c.0)[entity@])
            } else {
                None
            }),
            final(self).components(c.0) == (if old(self).alive(entity) {
                old(self).components(c.0).remove(entity@)
            } else {
                old(self).components(c.0)
            }),
            forall|c2: u32| c2 != c.0 ==> #[trigger] final(self).components(c2) == old(self).components(c2),
            old(self).alive(entity) ==>
                final(self).signature_set(entity@) == old(self).signature_set(entity@).remove(c.0),
            final(self).archetype_count() <= old(self).archetype_count() + 1,
            final(self).storage_count() <= old(self).storage_count() + 1,
    {
        if !self.allocator.is_alive(entity) {
            return None;
        }
        proof {
            use_type_invariant(&entity);
            entity.lemma_valid_bits();
        }
        let i = self.storage_index_or_create(c);
        let ghost w0 = *self;
        let now = self.signature_now(entity);
        let new_sig = now.without(c);
        let _ = self.archetypes.move_entity(entity, new_sig);
        let ghost w1 = *self;
        proof {
            w0.archetypes.lemma_wf();
            assert forall|k: u64| #[trigger] w0.placed(k) && k != entity@ implies
                w1.placed(k) && w1.signature_set(k) == w0.signature_set(k) by {
                assert(w0.archetypes.placement()[k] < w0.archetypes.sigs().len());
            }
        }
        let ghost w2 = *self;
        let r = self.storages[i].remove(entity);
        proof {
            let m = id_map_contents(self.storage_of);
            assert forall|j: int| 0 <= j < self.storages.len() implies (#[trigger] self.storages@[j]).wf() by {
                if j != i {
                    assert(self.storages@[j] == w2.storages@[j]);
                }
            }
            assert forall|c2: u32| c2 != c.0 implies #[trigger] self.components(c2) == w2.components(c2) by {
                if m.contains_key(c2 as u64) {
                    assert(m[c2 as u64] != i);
                    assert(self.storages@[m[c2 as u64] as int] == w2.storages@[m[c2 as u64] as int]);
                }
            }
            assert forall|k: u64| #[trigger] self.placed(k) implies key_live(self.slots(), k) by {
                if k != entity@ {
                    assert(w0.placed(k));
                }
            }
            assert forall|k: u64| handle_bits(k) && #[trigger] key_live(self.slots(), k) implies self.placed(k) by {
                assert(w0.placed(k));
            }
            assert forall|c2: u32, k: u64|
                #![trigger self.components(c2).contains_key(k)]
                #![trigger self.signature_set(k).contains(c2)]
                self.components(c2).contains_key(k) <==> (self.placed(k) && self.signature_set(k).contains(c2)) by {
                assert(w0.components(c2).contains_key(k) <==> (w0.placed(k) && w0.signature_set(k).contains(c2)));
                if k != entity@ && w0.placed(k) {
                    assert(w1.signature_set(k) == w0.signature_set(k));
                }
            }
        }
        r
    }

    /// Despawns `entity` and drops all its components; `false` when it was
    /// already dead.
    pub fn despawn(&mut self, entity: Entity) -> (was_alive: bool)
        requires
            old(self).wf(),
        ensures
            final(self).wf(),
            was_alive == old(self).alive(entity),
            !final(self).alive(entity),
            forall|c: u32| #[trigger] final(self).components(c) == old(self).components(c).remove(entity@),
            was_alive ==> count_occupied(final(self).slots()) == count_occupied(old(self).slots()) - 1,
            was_alive ==> remove_step(old(self).slots(), final(self).slots(), entity@),
            !was_alive ==> final(self).slots() == old(self).slots(),
            forall|k: u64| #![trigger key_live(final(self).slots(), k)]
                handle_bits(k) && k != entity@ ==> key_live(final(self).slots(), k) == key_live(old(self).slots(), k),
            final(self).archetype_count() == old(self).archetype_count(),
            final(self).storage_count() == old(self).storage_count(),
    {
        proof {
            use_type_invariant(&entity);
            entity.lemma_valid_bits();
        }
        if !self.allocator.is_alive(entity) {
            proof {
                assert forall|c: u32| #[trigger] self.components(c) == old(self).components(c).remove(entity@) by {
                    if self.components(c).contains_key(entity@) {
                        assert(self.placed(entity@));
                    }
                    assert(self.components(c) =~= old(self).components(c).remove(entity@));
                }
            }
            return false;
        }
        let ghost w0 = *self;
        let mut j: usize = 0;
        while j < self.storages.len()
            invariant
                j <= self.storages.len(),
                self.storages.len() == w0.storages.len(),
                self.storage_of == w0.storage_of,
                self.storage_ids == w0.storage_ids,
                self.archetypes == w0.archetypes,
                self.allocator == w0.allocator,
                forall|m: int| 0 <= m < self.storages.len() ==> (#[trigger] self.storages@[m]).wf(),
                forall|m: int| 0 <= m < j ==>
                    (#[trigger] self.storages@[m]).contents() == w0.storages@[m].contents().remove(entity@),
                forall|m: int| j <= m < self.storages.len() ==> #[trigger] self.storages@[m] == w0.storages@[m],
            decreases self.storages.len() - j,
        {
            let ghost before = self.storages@;
            let _ = self.storages[j].remove(entity);
            proof {
                assert forall|m: int| 0 <= m < self.storages.len() && m != j implies
                    #[trigger] self.storages@[m] == before[m] by {
                }
            }
            j = j + 1;
        }
        let ghost w1 = *self;
        self.archetypes.remove_entity(entity);
        let _ = self.allocator.free(entity);
        proof {
            let m = id_map_contents(self.storage_of);
            w0.archetypes.lemma_wf();
            assert forall|c: u32| #[trigger] self.components(c) == w0.components(c).remove(entity@) by {
                if m.contains_key(c as u64) {
                    let ix = m[c as u64] as int;
                    assert(self.storages@[ix].contents() == w0.storages@[ix].contents().remove(entity@));
                } else {
                    assert(self.components(c) =~= w0.components(c).remove(entity@));
                }
            }
            assert forall|k: u64| #[trigger] w0.placed(k) && k != entity@ implies
                self.placed(k) && self.signature_set(k) == w0.signature_set(k) by {
            }
            assert forall|k: u64| #[trigger] self.placed(k) implies key_live(self.slots(), k) by {
                assert(w0.placed(k));
                assert(handle_bits(k));
            }
            assert forall|k: u64| handle_bits(k) && #[trigger] key_live(self.slots(), k) implies self.placed(k) by {
                assert(key_live(w0.slots(), k));
                assert(w0.placed(k));
            }
            assert forall|c2: u32, k: u64|
                #![trigger self.components(c2).contains_key(k)]
                #![trigger self.signature_set(k).contains(c2)]
                self.components(c2).contains_key(k) <==> (self.placed(k) && self.signature_set(k).contains(c2)) by {
                assert(w0.components(c2).contains_key(k) <==> (w0.placed(k) && w0.signature_set(k).contains(c2)));
                assert(self.components(c2) == w0.components(c2).remove(entity@));
            }
        }
        true
    }

    /// `w` is `w0` with only the storage at `i` changed, to a well-formed one
    /// with the same owners.
    spec fn storage_rewritten(w0: World<V>, w: World<V>, i: int) -> bool {
        &&& w.storages.len() == w0.storages.len()
        &&& w.storage_ids == w0.storage_ids
        &&& w.storage_of == w0.storage_of
        &&& w.archetypes == w0.archetypes
        &&& w.allocator == w0.allocator
        &&& 0 <= i < w.storages.len()
        &&& forall|j: int| 0 <= j < w.storages.len() && j != i ==> w.storages@[j] == w0.storages@[j]
        &&& w.storages@[i].wf()
        &&& w.storages@[i].contents().dom() == w0.storages@[i].contents().dom()
    }

    proof fn lemma_storage_rewritten(w0: World<V>, w: World<V>, i: int, c: ComponentId)
        requires
            w0.wf(),
            Self::storage_rewritten(w0, w, i),
            w0.storage_ids@[i] == c.0,
        ensures
            w.wf(),
            w.components(c.0) == w.storages@[i].contents(),
            w0.components(c.0) == w0.storages@[i].contents(),
            forall|c2: u32| c2 != c.0 ==> #[trigger] w.components(c2) == w0.components(c2),
            w.slots() == w0.slots(),
            forall|k: u64| #[trigger] w.placed(k) == w0.placed(k),
            forall|k: u64| #[trigger] w.signature_set(k) == w0.signature_set(k),
            w.archetype_count() == w0.archetype_count(),
            w.storage_count() == w0.storage_count(),
    {
        let m = id_map_contents(w.storage_of);
        assert(m.contains_key(c.0 as u64));
        assert forall|c2: u32| c2 != c.0 implies #[trigger] w.components(c2) == w0.components(c2) by {
            if m.contains_key(c2 as u64) {
                assert(m[c2 as u64] != i);
                assert(w.storages@[m[c2 as u64] as int] == w0.storages@[m[c2 as u64] as int]);
            }
        }
        assert forall|j: int| 0 <= j < w.storages.len() implies (#[trigger] w.storages@[j]).wf() by {
            if j != i {
                assert(w.storages@[j] == w0.storages@[j]);
            }
        }
        assert forall|c2: u32, k: u64|
            #![trigger w.components(c2).contains_key(k)]
            #![trigger w.signature_set(k).contains(c2)]
            w.components(c2).contains_key(k) <==> (w.placed(k) && w.signature_set(k).contains(c2)) by {
            assert(w0.components(c2).contains_key(k) <==> (w0.placed(k) && w0.signature_set(k).contains(c2)));
            if c2 != c.0 {
                assert(w.components(c2) == w0.components(c2));
            }
        }
        assert(w.slots() == w0.slots());
        assert forall|k: u64| #[trigger] w.placed(k) implies key_live(w.slots(), k) by {
            assert(w0.placed(k));
        }
        assert forall|k: u64| handle_bits(k) && #[trigger] key_live(w.slots(), k) implies w.placed(k) by {
            assert(key_live(w0.slots(), k));
        }
        assert(w.archetypes.wf());
        assert(w.storages.len() == w.storage_ids.len());
    }

    fn storage_get_mut(&mut self, i: usize, entity: Entity) -> (r: Option<&mut V>)
        requires
            old(self).wf(),
            i < old(self).storages.len(),
        ensures
            r is Some == old(self).storages@[i as int].contents().contains_key(entity@),
            r matches Some(v) ==> *v == old(self).storages@[i as int].contents()[entity@],
            r matches Some(v) ==> final(self).storages@[i as int].contents()
                == old(self).storages@[i as int].contents().insert(entity@, *final(v)),
            final(self).storages.len() == old(self).storages.len(),
            final(self).storage_ids == old(self).storage_ids,
            final(self).storage_of == old(self).storage_of,
            final(self).archetypes == old(self).archetypes,
            final(self).allocator == old(self).allocator,
            forall|j: int| 0 <= j < final(self).storages.len() && j != i ==> final(self).storages@[j] == old(self).storages@[j],
            final(self).storages@[i as int].wf(),
            final(self).storages@[i as int].contents().dom() == old(self).storages@[i as int].contents().dom(),
            r is None ==> final(self).storages@[i as int] == old(self).storages@[i as int],
            Self::storage_rewritten(*old(self), *final(self), i as int),
    {
        self.storages[i].get_mut(entity)
    }

    /// Mutable access to component `c` of `entity`, if it has one; whatever
    /// is written through it becomes that component.
    pub fn get_mut(&mut self, entity: Entity, c: ComponentId) -> (r: Option<&mut V>)
        requires
            old(self).wf(),
            old(self).storage_count() < u32::MAX,
        ensures
            r is Some == old(self).components(c.0).contains_key(entity@),
            r matches Some(v) ==> *v == old(self).components(c.0)[entity@],
            r matches Some(v) ==> final(self).components(c.0) == old(self).components(c.0).insert(entity@, *final(v)),
            r is None ==> final(self).components(c.0) == old(self).components(c.0),
            final(self).wf(),
            forall|c2: u32| c2 != c.0 ==> #[trigger] final(self).components(c2) == old(self).components(c2),
            final(self).slots() == old(self).slots(),
            forall|k: u64| #[trigger] final(self).placed(k) == old(self).placed(k),
            forall|k: u64| #[trigger] final(self).signature_set(k) == old(self).signature_set(k),
            final(self).archetype_count() == old(self).archetype_count(),
            final(self).storage_count() <= old(self).storage_count() + 1,
    {
        let i = self.storage_index_or_create(c);
        let ghost w0 = *self;
        proof {
            assert forall|w: World<V>| #[trigger] Self::storage_rewritten(w0, w, i as int) implies
                w.wf() && w.components(c.0) == w.storages@[i as int].contents()
                && (forall|c2: u32| c2 != c.0 ==> #[trigger] w.components(c2) == w0.components(c2))
                && w.slots() == w0.slots()
                && (forall|k: u64| #[trigger] w.placed(k) == w0.placed(k))
                && (forall|k: u64| #[trigger] w.signature_set(k) == w0.signature_set(k))
                && w.archetype_count() == w0.archetype_count()
                && w.storage_count() == w0.storage_count() by {
                Self::lemma_storage_rewritten(w0, w, i as int, c);
            }
        }
        self.storage_get_mut(i, entity)
    }

    /// Every entity holding component `c`, with that component, in the
    /// storage's dense order.
    pub fn query(&self, c: ComponentId) -> (r: Vec<(Entity, &V)>)
        requires
            self.wf(),
        ensures
            r.len() == self.components(c.0).dom().len(),
            forall|j: int| 0 <= j < r.len() ==>
                self.components(c.0).contains_key((#[trigger] r@[j]).0@)
                && *r@[j].1 == self.components(c.0)[r@[j].0@],
            forall|k: u64| #[trigger] self.components(c.0).contains_key(k) ==>
                exists|j: int| 0 <= j < r.len() && (#[trigger] r@[j]).0@ == k,
            forall|j1: int, j2: int| 0 <= j1 < j2 < r.len() ==> r@[j1].0 != r@[j2].0,
    {
        let mut out: Vec<(Entity, &V)> = Vec::new();
        match self.storage_index(c) {
            None => {
                out
            },
            Some(i) => {
                let s = &self.storages[i];
                proof { s.lemma_dense_order(); }
                let es = s.entities();
                let vs = s.values();
                let mut j: usize = 0;
                while j < es.len()
                    invariant
                        s.wf(),
                        es@ == s.dense_entities(),
                        vs@ == s.dense_values(),
                        es.len() == vs.len(),
                        j <= es.len(),
                        out.len() == j,
                        forall|t: int| 0 <= t < j ==> (#[trigger] out@[t]).0 == es@[t] && *out@[t].1 == vs@[t],
                    decreases es.len() - j,
                {
                    out.push((es[j], &vs[j]));
                    j = j + 1;
                }
                proof {
                    assert forall|k: u64| #[trigger] self.components(c.0).contains_key(k) implies
                        exists|t: int| 0 <= t < out.len() && (#[trigger] out@[t]).0@ == k by {
                        assert(s.contents().contains_key(k));
                        let t = choose|t: int| 0 <= t < s.dense_entities().len() && s.dense_entities()[t]@ == k;
                        assert(out@[t].0@ == k);
                    }
                    assert forall|j1: int, j2: int| 0 <= j1 < j2 < out.len() implies out@[j1].0 != out@[j2].0 by {
                        assert(s.dense_entities()[j1] != s.dense_entities()[j2]);
                    }
                }
                out
            },
        }
    }

    /// Every live entity that holds all the `required` component types, each
    /// once, gathered archetype by archetype.
    #[verifier::spinoff_prover]
    #[verifier::rlimit(30)]
    pub fn query_filtered(&self, required: &[ComponentId]) -> (r: Vec<Entity>)
        requires
            self.wf(),
        ensures
            forall|j: int| 0 <= j < r.len() ==> self.alive(#[trigger] r@[j])
                && forall|q: int| 0 <= q < required@.len() ==>
                    self.components(required@[q].0).contains_key(#[trigger] r@[j]@),
            forall|k: u64| handle_bits(k) && key_live(self.slots(), k)
                && (forall|q: int| 0 <= q < required@.len() ==> #[trigger] self.components(required@[q].0).contains_key(k))
                ==> exists|j: int| 0 <= j < r.len() && (#[trigger] r@[j])@ == k,
            forall|j1: int, j2: int| 0 <= j1 < j2 < r.len() ==> r@[j1] != r@[j2],
    {
        let archs = self.archetypes.matching_archetypes(required);
        let ghost pl = self.archetypes.placement();
        let mut out: Vec<Entity> = Vec::new();
        let mut t: usize = 0;
        let ghost mut bound: int = 0;
        proof { self.archetypes.lemma_wf(); }
        while t < archs.len()
            invariant
                self.wf(),
                pl == self.archetypes.placement(),
                forall|j: int| 0 <= j < archs.len() ==> self.archetypes.lists(#[trigger] archs@[j], required@),
                forall|j1: int, j2: int| 0 <= j1 < j2 < archs.len() ==> archs@[j1].arch_id().0 < archs@[j2].arch_id().0,
                t <= archs.len(),
                t < archs.len() ==> bound <= archs@[t as int].arch_id().0,
                forall|m: int| 0 <= m < out.len() ==> #[trigger] pl.contains_key(out@[m]@)
                    && pl[out@[m]@] < bound
                    && has_all(self.archetypes.signature_of(out@[m]@), required@),
                forall|t2: int, k: u64| 0 <= t2 < t && #[trigger] archs@[t2].members().contains(k) ==>
                    exists|m: int| 0 <= m < out.len() && (#[trigger] out@[m])@ == k,
                forall|m1: int, m2: int| 0 <= m1 < m2 < out.len() ==> out@[m1] != out@[m2],
            decreases archs.len() - t,
        {
            let a = archs[t];
            let es = a.entities();
            let ghost out0 = out@;
            let mut j: usize = 0;
            while j < es.len()
                invariant
                    j <= es.len(),
                    out.len() == out0.len() + j,
                    forall|m: int| 0 <= m < out0.len() ==> #[trigger] out@[m] == out0[m],
                    forall|m: int| out0.len() <= m < out.len() ==> #[trigger] out@[m] == es@[m - out0.len()],
                decreases es.len() - j,
            {
                out.push(es[j]);
                j = j + 1;
            }
            proof {
                let keys = es@.map_values(|e: Entity| e@);
                let id = a.arch_id().0;
                bound = id + 1;
                assert(self.archetypes.lists(a, required@));
                assert forall|m: int| 0 <= m < es.len() implies #[trigger] a.members().contains(es@[m]@) by {
                    assert(keys[m] == es@[m]@);
                    assert(keys.to_set().contains(keys[m]));
                }
                assert forall|m: int| 0 <= m < out.len() implies #[trigger] pl.contains_key(out@[m]@)
                    && pl[out@[m]@] < bound
                    && has_all(self.archetypes.signature_of(out@[m]@), required@) by {
                    if m < out0.len() {
                        assert(out@[m] == out0[m]);
                        assert(pl.contains_key(out0[m]@));
                    } else {
                        let e = es@[m - out0.len()];
                        assert(out@[m] == e);
                        assert(a.members().contains(e@));
                        assert(pl[e@] == id);
                    }
                }
                assert forall|t2: int, k: u64| 0 <= t2 < t + 1 && #[trigger] archs@[t2].members().contains(k) implies
                    exists|m: int| 0 <= m < out.len() && (#[trigger] out@[m])@ == k by {
                    if t2 < t {
                        let m = choose|m: int| 0 <= m < out0.len() && (#[trigger] out0[m])@ == k;
                        assert(out@[m] == out0[m]);
                    } else {
                        assert(keys.to_set().contains(k));
                        let m = choose|m: int| 0 <= m < keys.len() && keys[m] == k;
                        assert(out@[out0.len() + m] == es@[m]);
                        assert(out@[out0.len() + m]@ == k);
                    }
                }
                assert forall|m1: int, m2: int| 0 <= m1 < m2 < out.len() implies out@[m1] != out@[m2] by {
                    if m2 < out0.len() {
                        assert(out@[m1] == out0[m1]);
                        assert(out@[m2] == out0[m2]);
                    } else if m1 < out0.len() {
                        let e2 = es@[m2 - out0.len()];
                        assert(out@[m2] == e2);
                        assert(a.members().contains(e2@));
                        assert(out@[m1] == out0[m1]);
                        assert(pl.contains_key(out0[m1]@));
                    } else {
                        assert(keys[m1 - out0.len()] != keys[m2 - out0.len()]);
                    }
                }
                if t + 1 < archs.len() {
                    assert(archs@[t as int].arch_id().0 < archs@[t + 1].arch_id().0);
                }
            }
            t = t + 1;
        }
        proof {
            assert forall|j: int| 0 <= j < out.len() implies self.alive(#[trigger] out@[j])
                && forall|q: int| 0 <= q < required@.len() ==>
                    self.components(required@[q].0).contains_key(#[trigger] out@[j]@) by {
                let k = out@[j]@;
                assert(pl.contains_key(k));
                assert(self.placed(k));
                assert(key_live(self.slots(), k));
                assert forall|q: int| 0 <= q < required@.len() implies
                    self.components(required@[q].0).contains_key(#[trigger] out@[j]@) by {
                    assert(self.archetypes.signature_of(k).contains(required@[q].0));
                    assert(self.signature_set(k).contains(required@[q].0));
                }
            }
            assert forall|k: u64| handle_bits(k) && key_live(self.slots(), k)
                && (forall|q: int| 0 <= q < required@.len() ==> #[trigger] self.components(required@[q].0).contains_key(k))
                implies exists|j: int| 0 <= j < out.len() && (#[trigger] out@[j])@ == k by {
                assert(self.placed(k));
                let id = pl[k] as int;
                assert forall|q: int| 0 <= q < required@.len() implies
                    self.archetypes.sigs()[id].contains(#[trigger] required@[q].0) by {
                    assert(self.components(required@[q].0).contains_key(k));
                    assert(self.signature_set(k).contains(required@[q].0));
                }
                assert(has_all(self.archetypes.sigs()[id], required@));
                let t2 = choose|t2: int| 0 <= t2 < archs.len() && (#[trigger] archs@[t2]).arch_id().0 == id;
                assert(archs@[t2].members().contains(k));
            }
        }
        out
    }
}

} // verus!
