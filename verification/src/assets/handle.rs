//! Asset handles: typed weak references to loaded assets.
use vstd::prelude::*;
use core::marker::PhantomData;

verus! {

/// Globally unique asset identifier; 0 is the invalid id.
#[derive(Debug, Clone, Copy, PartialEq, Eq, Structural, Hash)]
pub struct AssetId(pub u64);

impl AssetId {
    pub fn invalid() -> (id: Self)
        ensures
            id.0 == 0,
    {
        AssetId(0)
    }

    pub fn is_valid(&self) -> (b: bool)
        ensures
            b == (self.0 != 0),
    {
        self.0 != 0
    }
}

/// Hands out asset ids: 1, 2, 3, ... in turn.
pub struct AssetIdCounter {
    next: u64,
}

impl AssetIdCounter {
    pub closed spec fn next_value(&self) -> u64 {
        self.next
    }

    pub fn new() -> (c: Self)
        ensures
            c.next_value() == 1,
    {
        AssetIdCounter { next: 1 }
    }

    /// The value the next id will have.
    pub fn peek(&self) -> (v: u64)
        ensures
            v == self.next_value(),
    {
        self.next
    }

    /// The next id; it is valid and differs from every id handed out before.
    pub fn next_id(&mut self) -> (id: AssetId)
        requires
            1 <= old(self).next_value() < u64::MAX,
        ensures
            id.0 == old(self).next_value(),
            final(self).next_value() == old(self).next_value() + 1,
            id.0 != 0,
    {
        let id = AssetId(self.next);
        self.next = self.next + 1;
        id
    }
}

/// Typed weak handle to an asset of type `T`; compared by id alone.
pub struct Handle<T> {
    pub id: AssetId,
    marker: PhantomData<T>,
}

impl<T> Handle<T> {
    /// The handle's id.
    pub closed spec fn asset(&self) -> AssetId {
        self.id
    }
}

impl<T> Clone for Handle<T> {
    fn clone(&self) -> (h: Self)
        ensures
            h.asset() == self.asset(),
    {
        Handle { id: self.id, marker: PhantomData }
    }
}

impl<T> PartialEq for Handle<T> {
    /// Handles are equal when their ids are.
    fn eq(&self, other: &Self) -> (b: bool) {
        self.id == other.id
    }
}

impl<T> vstd::std_specs::cmp::PartialEqSpecImpl for Handle<T> {
    open spec fn obeys_eq_spec() -> bool {
        true
    }

    open spec fn eq_spec(&self, other: &Self) -> bool {
        self.asset() == other.asset()
    }
}

impl<T> Eq for Handle<T> {
}

impl<T> Handle<T> {
    pub fn new(id: AssetId) -> (h: Self)
        ensures
            h.asset() == id,
    {
        Handle { id, marker: PhantomData }
    }

    pub fn invalid() -> (h: Self)
        ensures
            h.asset().0 == 0,
    {
        Self::new(AssetId::invalid())
    }

    pub fn is_valid(&self) -> (b: bool)
        ensures
            b == (self.asset().0 != 0),
    {
        self.id.is_valid()
    }

    /// The handle's id.
    pub fn asset_id(&self) -> (a: AssetId)
        ensures
            a == self.asset(),
    {
        self.id
    }
}

/// Type-erased handle for maps that store handles of different types.
#[derive(Debug, Clone, Copy, PartialEq, Eq, Hash)]
pub struct UntypedHandle {
    pub id: AssetId,
    /// The asset type's name.
    pub type_label: &'static str,
}

} // verus!
