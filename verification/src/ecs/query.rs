//! Access descriptors: which component types a query reads and writes, and
//! when two of them conflict.
use vstd::prelude::*;
use crate::ecs::component::ComponentId;
use crate::ecs::entity::Entity;

verus! {

/// Component types a query reads and writes.
pub struct WorldAccess {
    pub reads: Vec<ComponentId>,
    pub writes: Vec<ComponentId>,
}

/// Two accesses conflict when either writes something the other reads or
/// writes.
pub open spec fn accesses_conflict(
    reads1: Seq<ComponentId>,
    writes1: Seq<ComponentId>,
    reads2: Seq<ComponentId>,
    writes2: Seq<ComponentId>,
) -> bool {
    ||| exists|i: int| 0 <= i < writes1.len() && (reads2.contains(#[trigger] writes1[i]) || writes2.contains(writes1[i]))
    ||| exists|i: int| 0 <= i < writes2.len() && reads1.contains(#[trigger] writes2[i])
}

fn contains_id(ids: &Vec<ComponentId>, id: ComponentId) -> (b: bool)
    ensures
        b == ids@.contains(id),
{
    let mut i: usize = 0;
    while i < ids.len()
        invariant
            i <= ids@.len(),
            forall|j: int| 0 <= j < i ==> ids@[j] != id,
        decreases ids.len() - i,
    {
        if ids[i] == id {
            assert(ids@[i as int] == id);
            return true;
        }
        i = i + 1;
    }
    false
}

impl WorldAccess {
    pub fn new() -> (a: Self)
        ensures
            a.reads@.len() == 0,
            a.writes@.len() == 0,
    {
        WorldAccess { reads: Vec::new(), writes: Vec::new() }
    }

    /// Records a read of component type `id`.
    pub fn read(&mut self, id: ComponentId)
        ensures
            final(self).reads@ == old(self).reads@.push(id),
            final(self).writes@ == old(self).writes@,
    {
        self.reads.push(id);
    }

    /// Records a write of component type `id`.
    pub fn write(&mut self, id: ComponentId)
        ensures
            final(self).writes@ == old(self).writes@.push(id),
            final(self).reads@ == old(self).reads@,
    {
        self.writes.push(id);
    }

    /// Whether running a query with access `self` alongside one with access
    /// `other` would race on a component type.
    pub fn conflicts_with(&self, other: &WorldAccess) -> (b: bool)
        ensures
            b == accesses_conflict(self.reads@, self.writes@, other.reads@, other.writes@),
    {
        let mut i: usize = 0;
        while i < self.writes.len()
            invariant
                i <= self.writes@.len(),
                forall|j: int| 0 <= j < i ==> !other.reads@.contains(self.writes@[j]) && !other.writes@.contains(self.writes@[j]),
            decreases self.writes.len() - i,
        {
            let w = self.writes[i];
            if contains_id(&other.reads, w) || contains_id(&other.writes, w) {
                return true;
            }
            i = i + 1;
        }
        let mut k: usize = 0;
        while k < other.writes.len()
            invariant
                k <= other.writes@.len(),
                forall|j: int| 0 <= j < self.writes@.len() ==> !other.reads@.contains(self.writes@[j]) && !other.writes@.contains(self.writes@[j]),
                forall|j: int| 0 <= j < k ==> !self.reads@.contains(other.writes@[j]),
            decreases other.writes.len() - k,
        {
            if contains_id(&self.reads, other.writes[k]) {
                return true;
            }
            k = k + 1;
        }
        false
    }
}

/// Conflict does not depend on which side asks.
pub proof fn law_conflict_is_symmetric(a: &WorldAccess, b: &WorldAccess)
    ensures
        accesses_conflict(a.reads@, a.writes@, b.reads@, b.writes@)
            == accesses_conflict(b.reads@, b.writes@, a.reads@, a.writes@),
{
    let (r1, w1, r2, w2) = (a.reads@, a.writes@, b.reads@, b.writes@);
    if accesses_conflict(r1, w1, r2, w2) {
        if exists|i: int| 0 <= i < w1.len() && (r2.contains(#[trigger] w1[i]) || w2.contains(w1[i])) {
            let i = choose|i: int| 0 <= i < w1.len() && (r2.contains(#[trigger] w1[i]) || w2.contains(w1[i]));
            if r2.contains(w1[i]) {
            } else {
                let j = choose|j: int| 0 <= j < w2.len() && w2[j] == w1[i];
                assert(w1.contains(w2[j]));
            }
        }
    }
    if accesses_conflict(r2, w2, r1, w1) {
        if exists|i: int| 0 <= i < w2.len() && (r1.contains(#[trigger] w2[i]) || w1.contains(w2[i])) {
            let i = choose|i: int| 0 <= i < w2.len() && (r1.contains(#[trigger] w2[i]) || w1.contains(w2[i]));
            if r1.contains(w2[i]) {
            } else {
                let j = choose|j: int| 0 <= j < w1.len() && w1[j] == w2[i];
                assert(w2.contains(w1[j]));
            }
        }
    }
}

/// Queries that only read never conflict.
pub proof fn law_readers_never_conflict(a: &WorldAccess, b: &WorldAccess)
    requires
        a.writes@.len() == 0,
        b.writes@.len() == 0,
    ensures
        !accesses_conflict(a.reads@, a.writes@, b.reads@, b.writes@),
{
}

/// A single result of a query: the matching entity and its component data.
pub struct QueryResult<T> {
    pub entity: Entity,
    pub components: T,
}

} // verus!
