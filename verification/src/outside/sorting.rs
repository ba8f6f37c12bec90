//! Sorting eviction candidates by last use, with `slice::sort_by_key`.
use vstd::prelude::*;

verus! {

/// `slice::sort_by_key` on the second field: afterwards the items are the
/// same items (as a multiset) in non-decreasing order of that field. The
/// sort is stable, which is not stated here.
#[verifier::external_body]
pub(crate) fn sort_by_second(v: &mut Vec<(u64, u64, bool)>)
    ensures
        final(v)@.to_multiset() == old(v)@.to_multiset(),
        forall|i: int, j: int| 0 <= i <= j < final(v)@.len() ==> final(v)@[i].1 <= final(v)@[j].1,
{
    v.sort_by_key(|c| c.1)
}

} // verus!
