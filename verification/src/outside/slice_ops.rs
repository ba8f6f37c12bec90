//! std's sorting, deduplication and binary search on integer vectors, as
//! their documentation states them.
use vstd::prelude::*;

verus! {

/// Non-decreasing order.
pub open spec fn sorted_u32(s: Seq<u32>) -> bool {
    forall|i: int, j: int| 0 <= i <= j < s.len() ==> s[i] <= s[j]
}

/// Strictly increasing order: sorted with no repeats.
pub open spec fn strictly_sorted_u32(s: Seq<u32>) -> bool {
    forall|i: int, j: int| 0 <= i < j < s.len() ==> s[i] < s[j]
}

/// `slice::sort_unstable`: the same elements, in non-decreasing order.
#[verifier::external_body]
pub(crate) fn sort_unstable_u32(v: &mut Vec<u32>)
    ensures
        final(v)@.to_multiset() == old(v)@.to_multiset(),
        sorted_u32(final(v)@),
{
    v.sort_unstable();
}

/// `Vec::dedup`: on a sorted vector, removes every repeat, keeping one of
/// each value.
#[verifier::external_body]
pub(crate) fn dedup_sorted_u32(v: &mut Vec<u32>)
    requires
        sorted_u32(old(v)@),
    ensures
        final(v)@.to_set() == old(v)@.to_set(),
        strictly_sorted_u32(final(v)@),
{
    v.dedup();
}

/// `slice::binary_search` on a sorted slice: `Ok(i)` with `s[i] == x` when
/// `x` occurs, else `Err(i)` with `i` the position where `x` would be
/// inserted to keep the order.
#[verifier::external_body]
pub(crate) fn binary_search_u32(s: &[u32], x: u32) -> (r: Result<usize, usize>)
    requires
        sorted_u32(s@),
    ensures
        r matches Ok(i) ==> i < s@.len() && s@[i as int] == x,
        r matches Err(i) ==> i <= s@.len() && !s@.contains(x)
            && (forall|j: int| 0 <= j < i ==> s@[j] < x)
            && (forall|j: int| i <= j < s@.len() ==> x < s@[j]),
{
    s.binary_search(&x)
}

} // verus!
