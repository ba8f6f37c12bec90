//! Dense component storage for one component type: a sparse set.
//!
//! `entities[i]` owns `data[i]`; `sparse` maps an entity's packed handle to
//! its dense index. Removal swaps the last entry into the hole, so the dense
//! arrays stay packed.
use vstd::prelude::*;
use crate::ecs::entity::Entity;
use crate::outside::hash_tables::{id_map_contents, id_map_get, id_map_insert, id_map_new, id_map_remove, IdMap};

verus! {

broadcast use crate::ecs::entity::lemma_entity_view_injective;

pub struct ComponentStorage<V> {
    entities: Vec<Entity>,
    data: Vec<V>,
    sparse: IdMap,
}

impl<V> ComponentStorage<V> {
    /// The dense arrays agree in length, and `sparse` is the inverse of
    /// `entities`.
    pub closed spec fn wf(&self) -> bool {
        let sp = id_map_contents(self.sparse);
        &&& self.entities.len() == self.data.len()
        &&& self.data.len() <= u32::MAX
        &&& forall|k: u64| #[trigger] sp.contains_key(k) ==>
                sp[k] < self.entities.len() && self.entities@[sp[k] as int]@ == k
        &&& forall|i: int| 0 <= i < self.entities.len() ==>
                #[trigger] sp.contains_key(self.entities@[i]@) && sp[self.entities@[i]@] == i
    }

    /// The stored components, by packed entity handle.
    pub closed spec fn contents(&self) -> Map<u64, V> {
        let sp = id_map_contents(self.sparse);
        Map::new(|k: u64| sp.contains_key(k), |k: u64| self.data@[sp[k] as int])
    }

    /// Owners in dense (iteration) order.
    pub closed spec fn dense_entities(&self) -> Seq<Entity> {
        self.entities@
    }

    /// Components in dense (iteration) order.
    pub closed spec fn dense_values(&self) -> Seq<V> {
        self.data@
    }

    /// The dense order lists each stored entity once, next to its component.
    pub proof fn lemma_dense_order(&self)
        requires
            self.wf(),
        ensures
            self.dense_entities().len() == self.dense_values().len(),
            self.dense_entities().len() == self.contents().dom().len(),
            self.contents().dom().finite(),
            forall|i: int| #![trigger self.dense_entities()[i]] 0 <= i < self.dense_entities().len() ==>
                self.contents().contains_key(self.dense_entities()[i]@)
                && self.contents()[self.dense_entities()[i]@] == self.dense_values()[i],
            forall|k: u64| #![trigger self.contents().contains_key(k)] self.contents().contains_key(k) ==>
                exists|i: int| 0 <= i < self.dense_entities().len() && self.dense_entities()[i]@ == k,
            forall|i: int, j: int| 0 <= i < j < self.dense_entities().len() ==>
                self.dense_entities()[i] != self.dense_entities()[j],
    {
        let keys = self.entities@.map_values(|e: Entity| e@);
        let sp = id_map_contents(self.sparse);
        assert forall|i: int, j: int| 0 <= i < j < keys.len() implies keys[i] != keys[j] by {
            assert(sp.contains_key(self.entities@[i]@));
            assert(sp.contains_key(self.entities@[j]@));
        }
        assert(keys.no_duplicates());
        keys.unique_seq_to_set();
        assert forall|k: u64| keys.to_set().contains(k) == self.contents().dom().contains(k) by {
            if sp.contains_key(k) {
                assert(keys[sp[k] as int] == k);
            }
            if keys.to_set().contains(k) {
                let i = choose|i: int| 0 <= i < keys.len() && keys[i] == k;
                assert(sp.contains_key(self.entities@[i]@));
            }
        }
        assert(keys.to_set() =~= self.contents().dom());
        assert forall|k: u64| #![trigger self.contents().contains_key(k)] self.contents().contains_key(k) implies
            exists|i: int| 0 <= i < self.dense_entities().len() && self.dense_entities()[i]@ == k by {
            assert(sp.contains_key(k));
            let i = sp[k] as int;
            assert(self.dense_entities()[i]@ == k);
        }
        assert forall|i: int, j: int| 0 <= i < j < self.dense_entities().len() implies
            self.dense_entities()[i] != self.dense_entities()[j] by {
            assert(keys[i] != keys[j]);
        }
    }

    pub fn new() -> (s: Self)
        ensures
            s.wf(),
            s.contents() == Map::<u64, V>::empty(),
            s.dense_entities().len() == 0,
    {
        let s = ComponentStorage { entities: Vec::new(), data: Vec::new(), sparse: id_map_new() };
        assert(s.contents() =~= Map::<u64, V>::empty());
        s
    }

    /// Inserts or overwrites the component of `entity`.
    pub fn insert(&mut self, entity: Entity, value: V)
        requires
            old(self).wf(),
            old(self).dense_entities().len() < u32::MAX,
        ensures
            final(self).wf(),
            final(self).contents() == old(self).contents().insert(entity@, value),
            old(self).contents().contains_key(entity@) ==>
                final(self).dense_entities() == old(self).dense_entities(),
            !old(self).contents().contains_key(entity@) ==>
                final(self).dense_entities() == old(self).dense_entities().push(entity),
    {
        let bits = entity.to_bits();
        match id_map_get(&self.sparse, bits) {
            Some(idx) => {
                self.data.set(idx as usize, value);
            },
            None => {
                let idx = self.data.len() as u32;
                self.entities.push(entity);
                self.data.push(value);
                id_map_insert(&mut self.sparse, bits, idx);
                proof {
                    let sp = id_map_contents(self.sparse);
                    assert forall|i: int| 0 <= i < self.entities.len() implies
                        #[trigger] sp.contains_key(self.entities@[i]@) && sp[self.entities@[i]@] == i by {
                        if i < self.entities.len() - 1 {
                            assert(self.entities@[i] == old(self).entities@[i]);
                            assert(id_map_contents(old(self).sparse).contains_key(old(self).entities@[i]@));
                        } else {
                            assert(self.entities@[i] == entity);
                        }
                    }
                }
            },
        }
        assert(self.contents() =~= old(self).contents().insert(entity@, value));
    }

    /// Removes the component of `entity`, returning it; the last dense entry
    /// moves into the hole.
    pub fn remove(&mut self, entity: Entity) -> (r: Option<V>)
        requires
            old(self).wf(),
        ensures
            final(self).wf(),
            final(self).contents() == old(self).contents().remove(entity@),
            r == (if old(self).contents().contains_key(entity@) {
                Some(old(self).contents()[entity@])
            } else {
                None
            }),
    {
        let bits = entity.to_bits();
        let idx = match id_map_get(&self.sparse, bits) {
            None => {
                assert(self.contents() =~= old(self).contents().remove(entity@));
                return None;
            },
            Some(i) => i as usize,
        };
        let ghost sp0 = id_map_contents(self.sparse);
        let value = self.data.swap_remove(idx);
        let _ = self.entities.swap_remove(idx);
        if idx < self.entities.len() {
            let moved = self.entities[idx];
            id_map_insert(&mut self.sparse, moved.to_bits(), idx as u32);
        }
        let _ = id_map_remove(&mut self.sparse, bits);
        proof {
            let sp = id_map_contents(self.sparse);
            let n = old(self).entities.len();
            let last = n - 1;
            assert forall|k: u64| #[trigger] sp.contains_key(k) implies
                sp[k] < self.entities.len() && self.entities@[sp[k] as int]@ == k by {
                assert(sp0.contains_key(k));
                if (idx as int) < last && k == old(self).entities@[last]@ {
                } else {
                    assert(sp0[k] != last) by {
                        if sp0[k] == last {
                            assert(old(self).entities@[last]@ == k);
                        }
                    }
                }
            }
            assert forall|i: int| 0 <= i < self.entities.len() implies
                #[trigger] sp.contains_key(self.entities@[i]@) && sp[self.entities@[i]@] == i by {
                if i == idx {
                    assert(self.entities@[i] == old(self).entities@[last]);
                } else {
                    assert(self.entities@[i] == old(self).entities@[i]);
                    assert(old(self).entities@[i]@ != bits);
                    assert(sp0.contains_key(old(self).entities@[i]@));
                    if (idx as int) < last {
                        assert(sp0.contains_key(old(self).entities@[last]@));
                        assert(old(self).entities@[i]@ != old(self).entities@[last]@);
                    }
                }
            }
            assert forall|k: u64| #[trigger] self.contents().contains_key(k) implies
                self.contents()[k] == old(self).contents().remove(entity@)[k] by {
                assert(sp0.contains_key(k));
                assert(k != bits);
                assert(old(self).entities@[idx as int]@ == bits);
                if (idx as int) < last && k == old(self).entities@[last]@ {
                    assert(sp0.contains_key(old(self).entities@[last]@));
                    assert(sp0[k] == last);
                    assert(self.data@[idx as int] == old(self).data@[last]);
                } else {
                    assert(sp0[k] != idx);
                    assert(sp[k] == sp0[k]);
                    assert(sp0[k] != last) by {
                        if sp0[k] == last {
                            assert(old(self).entities@[last]@ == k);
                        }
                    }
                }
            }
            assert(self.contents().dom() =~= old(self).contents().remove(entity@).dom());
            assert(self.contents() =~= old(self).contents().remove(entity@));
            assert(self.entities.len() == self.data.len());
            assert(self.data.len() <= u32::MAX);
            assert(self.wf());
        }
        Some(value)
    }

    /// The component of `entity`, if stored.
    pub fn get(&self, entity: Entity) -> (r: Option<&V>)
        requires
            self.wf(),
        ensures
            r == (if self.contents().contains_key(entity@) {
                Some(&self.contents()[entity@])
            } else {
                None
            }),
    {
        match id_map_get(&self.sparse, entity.to_bits()) {
            Some(idx) => Some(&self.data[idx as usize]),
            None => None,
        }
    }

    /// Mutable access to the component of `entity`, if stored; whatever is
    /// written through it becomes that entity's component.
    pub fn get_mut(&mut self, entity: Entity) -> (r: Option<&mut V>)
        requires
            old(self).wf(),
        ensures
            r is Some == old(self).contents().contains_key(entity@),
            r is None ==> *final(self) == *old(self),
            r matches Some(v) ==> *v == old(self).contents()[entity@],
            r matches Some(v) ==> final(self).wf() && final(self).contents()
                == old(self).contents().insert(entity@, *final(v)),
            final(self).dense_entities() == old(self).dense_entities(),
    {
        match id_map_get(&self.sparse, entity.to_bits()) {
            Some(idx) => Some(&mut self.data[idx as usize]),
            None => None,
        }
    }

    pub fn contains(&self, entity: Entity) -> (b: bool)
        requires
            self.wf(),
        ensures
            b == self.contents().contains_key(entity@),
    {
        id_map_get(&self.sparse, entity.to_bits()).is_some()
    }

    /// Number of components stored.
    pub fn len(&self) -> (n: usize)
        requires
            self.wf(),
        ensures
            n == self.contents().dom().len(),
            n == self.dense_entities().len(),
    {
        proof { self.lemma_dense_order(); }
        self.data.len()
    }

    pub fn is_empty(&self) -> (b: bool)
        requires
            self.wf(),
        ensures
            b == (self.contents().dom().len() == 0),
    {
        proof { self.lemma_dense_order(); }
        self.data.len() == 0
    }

    /// Owners in dense order.
    pub fn entities(&self) -> (s: &[Entity])
        ensures
            s@ == self.dense_entities(),
    {
        self.entities.as_slice()
    }

    /// Components in dense order.
    pub fn values(&self) -> (s: &[V])
        ensures
            s@ == self.dense_values(),
    {
        self.data.as_slice()
    }
}

} // verus!
