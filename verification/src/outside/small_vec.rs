//! `smallvec::SmallVec` holding the component ids of an archetype signature.
use vstd::prelude::*;
use smallvec::SmallVec;

verus! {

/// Component ids, inline for up to 16 of them. The `SmallVec` is private
/// and reached only through the wrappers below, which state what each
/// operation does to `small_ids`.
#[verifier::external_body]
#[derive(PartialEq, Eq, Hash, Debug)]
pub struct SmallIds {
    ids: SmallVec<[u32; 16]>,
}

/// The ids held, in order.
pub uninterp spec fn small_ids(s: SmallIds) -> Seq<u32>;

/// `SmallVec::from_vec`: the same elements in the same order.
#[verifier::external_body]
pub(crate) fn small_ids_from_vec(v: Vec<u32>) -> (s: SmallIds)
    ensures
        small_ids(s) == v@,
{
    SmallIds { ids: SmallVec::from_vec(v) }
}

/// `SmallVec::as_slice`.
#[verifier::external_body]
pub(crate) fn small_ids_as_slice(s: &SmallIds) -> (r: &[u32])
    ensures
        r@ == small_ids(*s),
{
    s.ids.as_slice()
}

/// `SmallVec::to_vec`.
#[verifier::external_body]
pub(crate) fn small_ids_to_vec(s: &SmallIds) -> (r: Vec<u32>)
    ensures
        r@ == small_ids(*s),
{
    s.ids.to_vec()
}

/// `SmallVec::clone`: the same elements.
#[verifier::external_body]
pub(crate) fn small_ids_clone(s: &SmallIds) -> (r: SmallIds)
    ensures
        small_ids(r) == small_ids(*s),
{
    SmallIds { ids: s.ids.clone() }
}

} // verus!
