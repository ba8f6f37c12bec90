//! Chunk coordinates and the order in which chunks stream in.
use vstd::prelude::*;
use crate::outside::sorting::sort_by_second;

verus! {

/// 2D chunk coordinate in the world grid.
#[derive(Debug, Clone, Copy, PartialEq, Eq, Structural, Hash)]
pub struct ChunkCoord {
    pub x: i32,
    pub z: i32,
}

/// Streaming state of a chunk.
#[derive(Debug, Clone, Copy, PartialEq, Eq, Structural)]
pub enum ChunkState {
    Unloaded,
    Queued,
    Loading,
    Ready,
    Evicting,
}

pub open spec fn abs(v: int) -> int {
    if v < 0 { -v } else { v }
}

/// Manhattan distance: the sum of the two axis distances.
pub open spec fn manhattan(a: ChunkCoord, b: ChunkCoord) -> int {
    abs(a.x - b.x) + abs(a.z - b.z)
}

/// The axis differences of `a` and `b` fit in `i32` with their absolute values.
pub open spec fn axis_gaps_fit(a: ChunkCoord, b: ChunkCoord) -> bool {
    &&& i32::MIN < a.x - b.x <= i32::MAX
    &&& i32::MIN < a.z - b.z <= i32::MAX
}

impl ChunkCoord {
    /// Manhattan distance between two chunk coords.
    pub fn chebyshev_distance(&self, other: ChunkCoord) -> (d: u32)
        requires
            axis_gaps_fit(*self, other),
        ensures
            d == manhattan(*self, other),
    {
        let dx = self.x - other.x;
        let dz = self.z - other.z;
        let ax: u32 = if dx < 0 { (-dx) as u32 } else { dx as u32 };
        let az: u32 = if dz < 0 { (-dz) as u32 } else { dz as u32 };
        ax + az
    }
}

/// The stream radius as the signed count the grid walk uses: radii above
/// `i32::MAX` read as negative, and then no chunk is in range.
pub open spec fn signed_radius(r: u32) -> int {
    if r <= 0x7fff_ffff { r as int } else { r as int - 0x1_0000_0000 }
}

/// Chunk `c` is within the stream radius of `center`.
pub open spec fn in_stream_range(c: ChunkCoord, center: ChunkCoord, radius: u32) -> bool {
    signed_radius(radius) >= 0 && manhattan(c, center) <= radius
}

/// Chunk `c` lies in the square of half-width `r` around `center`.
pub open spec fn in_box(c: ChunkCoord, center: ChunkCoord, r: int) -> bool {
    abs(c.x - center.x) <= r && abs(c.z - center.z) <= r
}

/// What a scan of one square keeps: in the first scan (around the current
/// chunk) every chunk near the current or the look-ahead chunk; in the
/// second (around the look-ahead chunk) those near the look-ahead chunk that
/// the first square did not hold.
pub open spec fn scan_keeps(c: ChunkCoord, current: ChunkCoord, ahead: ChunkCoord, radius: u32, first: bool) -> bool {
    if first {
        in_stream_range(c, current, radius) || in_stream_range(c, ahead, radius)
    } else {
        in_stream_range(c, ahead, radius) && !in_box(c, current, signed_radius(radius))
    }
}

/// Row-major position: `c` comes before `(x, z)`.
pub open spec fn before_cell(c: ChunkCoord, x: int, z: int) -> bool {
    c.x < x || (c.x == x && c.z < z)
}

/// Manhattan distance of `(x, z)` from `c`, in wide integers.
fn manhattan_wide(x: i64, z: i64, c: ChunkCoord) -> (d: i64)
    requires
        i32::MIN <= x <= i32::MAX,
        i32::MIN <= z <= i32::MAX,
    ensures
        d == abs(x - c.x) + abs(z - c.z),
{
    let dx = x - c.x as i64;
    let dz = z - c.z as i64;
    let ax = if dx < 0 { -dx } else { dx };
    let az = if dz < 0 { -dz } else { dz };
    ax + az
}

/// Appends, in row-major order, the chunks of the square around `center`
/// that the scan keeps.
fn scan_box(found: &mut Vec<ChunkCoord>, center: ChunkCoord, current: ChunkCoord, ahead: ChunkCoord, radius: u32, r: i64, first: bool)
    requires
        r == signed_radius(radius),
        r >= 0,
        old(found)@.no_duplicates(),
        forall|i: int| 0 <= i < old(found)@.len() ==>
            !(in_box(#[trigger] old(found)@[i], center, r as int) && scan_keeps(old(found)@[i], current, ahead, radius, first)),
    ensures
        final(found)@.no_duplicates(),
        forall|c: ChunkCoord| #[trigger] final(found)@.contains(c) <==>
            old(found)@.contains(c) || (in_box(c, center, r as int) && scan_keeps(c, current, ahead, radius, first)),
{
    let ghost start = found@;
    let lo_x: i64 = if center.x as i64 - r < i32::MIN as i64 { i32::MIN as i64 } else { center.x as i64 - r };
    let hi_x: i64 = if center.x as i64 + r > i32::MAX as i64 { i32::MAX as i64 } else { center.x as i64 + r };
    let lo_z: i64 = if center.z as i64 - r < i32::MIN as i64 { i32::MIN as i64 } else { center.z as i64 - r };
    let hi_z: i64 = if center.z as i64 + r > i32::MAX as i64 { i32::MAX as i64 } else { center.z as i64 + r };
    let mut x: i64 = lo_x;
    while x <= hi_x
        invariant
            r == signed_radius(radius),
            r >= 0,
            lo_x == (if center.x - r < i32::MIN { i32::MIN as int } else { center.x - r }),
            hi_x == (if center.x + r > i32::MAX { i32::MAX as int } else { center.x + r }),
            lo_z == (if center.z - r < i32::MIN { i32::MIN as int } else { center.z - r }),
            hi_z == (if center.z + r > i32::MAX { i32::MAX as int } else { center.z + r }),
            lo_x <= x <= hi_x + 1,
            forall|i: int| 0 <= i < start.len() ==>
                !(in_box(#[trigger] start[i], center, r as int) && scan_keeps(start[i], current, ahead, radius, first)),
            start.no_duplicates(),
            found@.no_duplicates(),
            forall|i: int| 0 <= i < found@.len() ==> start.contains(#[trigger] found@[i])
                || (in_box(found@[i], center, r as int) && scan_keeps(found@[i], current, ahead, radius, first)
                    && before_cell(found@[i], x as int, lo_z as int)),
            forall|c: ChunkCoord| #[trigger] found@.contains(c) <==> start.contains(c)
                || (in_box(c, center, r as int) && scan_keeps(c, current, ahead, radius, first) && before_cell(c, x as int, lo_z as int)),
        decreases hi_x + 1 - x,
    {
        let mut z: i64 = lo_z;
        while z <= hi_z
            invariant
                r == signed_radius(radius),
                r >= 0,
                lo_z == (if center.z - r < i32::MIN { i32::MIN as int } else { center.z - r }),
                hi_z == (if center.z + r > i32::MAX { i32::MAX as int } else { center.z + r }),
                lo_x == (if center.x - r < i32::MIN { i32::MIN as int } else { center.x - r }),
                hi_x == (if center.x + r > i32::MAX { i32::MAX as int } else { center.x + r }),
                lo_x <= x <= hi_x,
                lo_z <= z <= hi_z + 1,
                forall|i: int| 0 <= i < start.len() ==>
                    !(in_box(#[trigger] start[i], center, r as int) && scan_keeps(start[i], current, ahead, radius, first)),
                found@.no_duplicates(),
                forall|i: int| 0 <= i < found@.len() ==> start.contains(#[trigger] found@[i])
                    || (in_box(found@[i], center, r as int) && scan_keeps(found@[i], current, ahead, radius, first)
                        && before_cell(found@[i], x as int, z as int)),
                forall|c: ChunkCoord| #[trigger] found@.contains(c) <==> start.contains(c)
                    || (in_box(c, center, r as int) && scan_keeps(c, current, ahead, radius, first) && before_cell(c, x as int, z as int)),
            decreases hi_z + 1 - z,
        {
            let c = ChunkCoord { x: x as i32, z: z as i32 };
            let near_current = manhattan_wide(x, z, current) <= radius as i64;
            let near_ahead = manhattan_wide(x, z, ahead) <= radius as i64;
            let keep = if first {
                near_current || near_ahead
            } else {
                let dx = x - current.x as i64;
                let dz = z - current.z as i64;
                let in_current_box = -r <= dx && dx <= r && -r <= dz && dz <= r;
                near_ahead && !in_current_box
            };
            assert(in_box(c, center, r as int));
            assert(keep == scan_keeps(c, current, ahead, radius, first));
            if keep {
                proof {
                    assert(!found@.contains(c)) by {
                        if found@.contains(c) {
                            let k = choose|k: int| 0 <= k < found@.len() && found@[k] == c;
                            if start.contains(c) {
                                let m = choose|m: int| 0 <= m < start.len() && start[m] == c;
                                assert(!(in_box(start[m], center, r as int) && scan_keeps(start[m], current, ahead, radius, first)));
                            }
                        }
                    }
                }
                let ghost prev = found@;
                found.push(c);
                proof {
                    assert(found@ == prev.push(c));
                    assert forall|i: int, j: int| 0 <= i < found@.len() && 0 <= j < found@.len() && i != j
                        implies found@[i] != found@[j] by {
                        if i == prev.len() {
                            assert(found@[j] == prev[j]);
                            assert(prev.contains(prev[j]));
                        } else if j == prev.len() {
                            assert(found@[i] == prev[i]);
                            assert(prev.contains(prev[i]));
                        } else {
                            assert(found@[i] == prev[i] && found@[j] == prev[j]);
                        }
                    }
                    assert forall|i: int| 0 <= i < found@.len() implies start.contains(#[trigger] found@[i])
                        || (in_box(found@[i], center, r as int) && scan_keeps(found@[i], current, ahead, radius, first)
                            && before_cell(found@[i], x as int, z + 1)) by {
                        if i < prev.len() {
                            assert(found@[i] == prev[i]);
                        }
                    }
                    assert forall|c2: ChunkCoord| #[trigger] found@.contains(c2) <==> start.contains(c2)
                        || (in_box(c2, center, r as int) && scan_keeps(c2, current, ahead, radius, first)
                            && before_cell(c2, x as int, z + 1)) by {
                        if c2 == c {
                            assert(found@[prev.len() as int] == c);
                        } else if found@.contains(c2) {
                            let k = choose|k: int| 0 <= k < found@.len() && found@[k] == c2;
                            assert(prev[k] == c2);
                            assert(prev.contains(c2));
                        } else if start.contains(c2) || (in_box(c2, center, r as int) && scan_keeps(c2, current, ahead, radius, first)
                            && before_cell(c2, x as int, z as int)) {
                            assert(prev.contains(c2));
                            let k = choose|k: int| 0 <= k < prev.len() && prev[k] == c2;
                            assert(found@[k] == c2);
                        }
                    }
                }
            } else {
                proof {
                    assert forall|c2: ChunkCoord| #[trigger] found@.contains(c2) <==> start.contains(c2)
                        || (in_box(c2, center, r as int) && scan_keeps(c2, current, ahead, radius, first)
                            && before_cell(c2, x as int, z + 1)) by {
                        if c2.x == x && c2.z == z {
                            assert(c2 == c);
                        }
                    }
                }
            }
            z = z + 1;
        }
        proof {
            assert forall|c2: ChunkCoord| #[trigger] found@.contains(c2) <==> start.contains(c2)
                || (in_box(c2, center, r as int) && scan_keeps(c2, current, ahead, radius, first)
                    && before_cell(c2, x + 1, lo_z as int)) by {
                if in_box(c2, center, r as int) {
                    assert(c2.z >= lo_z && c2.z <= hi_z);
                }
            }
            assert forall|i: int| 0 <= i < found@.len() implies start.contains(#[trigger] found@[i])
                || (in_box(found@[i], center, r as int) && scan_keeps(found@[i], current, ahead, radius, first)
                    && before_cell(found@[i], x + 1, lo_z as int)) by {
            }
        }
        x = x + 1;
    }
    proof {
        assert forall|c2: ChunkCoord| #[trigger] found@.contains(c2) <==> start.contains(c2)
            || (in_box(c2, center, r as int) && scan_keeps(c2, current, ahead, radius, first)) by {
            if in_box(c2, center, r as int) {
                assert(c2.x >= lo_x && c2.x <= hi_x);
            }
        }
    }
}

/// The chunks to load: every chunk within `stream_radius` (Manhattan) of the
/// camera's chunk `current` or of the look-ahead chunk `ahead`, each once,
/// nearest to `current` first.
pub fn chunks_to_load(current: ChunkCoord, ahead: ChunkCoord, stream_radius: u32) -> (coords: Vec<ChunkCoord>)
    ensures
        forall|c: ChunkCoord| #[trigger] coords@.contains(c) <==>
            in_stream_range(c, current, stream_radius) || in_stream_range(c, ahead, stream_radius),
        coords@.no_duplicates(),
        forall|i: int, j: int| 0 <= i <= j < coords@.len() ==> manhattan(coords@[i], current) <= manhattan(coords@[j], current),
{
    let r32: i32 = #[verifier::truncate] (stream_radius as i32);
    assert(r32 == signed_radius(stream_radius)) by (bit_vector)
        requires r32 == stream_radius as i32;
    let r: i64 = r32 as i64;
    if r < 0 {
        let v: Vec<ChunkCoord> = Vec::new();
        assert(forall|c: ChunkCoord| !(#[trigger] v@.contains(c)));
        return v;
    }
    let mut cands: Vec<ChunkCoord> = Vec::new();
    proof {
        assert(cands@.no_duplicates());
    }
    scan_box(&mut cands, current, current, ahead, stream_radius, r, true);
    proof {
        assert forall|c: ChunkCoord| in_stream_range(c, current, stream_radius) implies in_box(c, current, r as int) by {}
        assert forall|i: int| 0 <= i < cands@.len() implies
            !(in_box(#[trigger] cands@[i], ahead, r as int) && scan_keeps(cands@[i], current, ahead, stream_radius, false)) by {
            assert(cands@.contains(cands@[i]));
        }
    }
    scan_box(&mut cands, ahead, current, ahead, stream_radius, r, false);
    proof {
        assert forall|c: ChunkCoord| #[trigger] cands@.contains(c) <==>
            in_stream_range(c, current, stream_radius) || in_stream_range(c, ahead, stream_radius) by {
            if in_stream_range(c, ahead, stream_radius) {
                assert(in_box(c, ahead, r as int));
            }
            if in_stream_range(c, current, stream_radius) {
                assert(in_box(c, current, r as int));
            }
        }
    }
    order_by_distance(&cands, current)
}

/// `cands` reordered by Manhattan distance from `current`, nearest first
/// (`slice::sort_by_key` on the distance).
fn order_by_distance(cands: &Vec<ChunkCoord>, current: ChunkCoord) -> (out: Vec<ChunkCoord>)
    ensures
        out@.len() == cands@.len(),
        forall|c: ChunkCoord| #[trigger] out@.contains(c) <==> cands@.contains(c),
        cands@.no_duplicates() ==> out@.no_duplicates(),
        forall|i: int, j: int| 0 <= i <= j < out@.len() ==> manhattan(out@[i], current) <= manhattan(out@[j], current),
{
    let n = cands.len();
    let mut keyed: Vec<(u64, u64, bool)> = Vec::new();
    let mut i: usize = 0;
    while i < n
        invariant
            n == cands@.len(),
            i <= n,
            keyed@.len() == i,
            forall|k: int| 0 <= k < i ==> #[trigger] keyed@[k] == (k as u64, manhattan(cands@[k], current) as u64, false),
        decreases n - i,
    {
        let c = cands[i];
        let d = manhattan_wide(c.x as i64, c.z as i64, current);
        keyed.push((i as u64, d as u64, false));
        i = i + 1;
    }
    let ghost before = keyed@;
    sort_by_second(&mut keyed);
    let ghost after = keyed@;
    proof {
        broadcast use vstd::seq_lib::to_multiset_contains;
        assert forall|k: int| 0 <= k < after.len() implies (#[trigger] after[k]).0 < n
            && after[k] == before[after[k].0 as int] by {
            assert(after.contains(after[k]));
            assert(after.to_multiset().count(after[k]) > 0);
            assert(before.contains(after[k]));
            let m = choose|m: int| 0 <= m < before.len() && before[m] == after[k];
        }
    }
    let mut out: Vec<ChunkCoord> = Vec::new();
    let mut k: usize = 0;
    while k < keyed.len()
        invariant
            n == cands@.len(),
            keyed@ == after,
            forall|k: int| 0 <= k < after.len() ==> (#[trigger] after[k]).0 < n
                && after[k] == before[after[k].0 as int],
            k <= after.len(),
            out@.len() == k,
            forall|m: int| 0 <= m < k ==> #[trigger] out@[m] == cands@[after[m].0 as int],
        decreases after.len() - k,
    {
        let idx = keyed[k].0 as usize;
        out.push(cands[idx]);
        k = k + 1;
    }
    proof {
        broadcast use vstd::seq_lib::to_multiset_contains;
        broadcast use vstd::seq_lib::to_multiset_len;
        assert(after.len() == before.len()) by {
            assert(after.to_multiset().len() == before.to_multiset().len());
        }
        assert forall|c: ChunkCoord| #[trigger] out@.contains(c) <==> cands@.contains(c) by {
            if out@.contains(c) {
                let m = choose|m: int| 0 <= m < out@.len() && out@[m] == c;
                assert(cands@[after[m].0 as int] == c);
            }
            if cands@.contains(c) {
                let t = choose|t: int| 0 <= t < cands@.len() && cands@[t] == c;
                assert(before[t] == (t as u64, manhattan(cands@[t], current) as u64, false));
                assert(before.contains(before[t]));
                assert(before.to_multiset().count(before[t]) > 0);
                assert(after.to_multiset().count(before[t]) > 0);
                assert(after.contains(before[t]));
                let m = choose|m: int| 0 <= m < after.len() && after[m] == before[t];
                assert(out@[m] == c);
            }
        }
        assert forall|a: int, b: int| 0 <= a <= b < out@.len() implies manhattan(out@[a], current) <= manhattan(out@[b], current) by {
            assert(after[a].1 <= after[b].1);
            let ia = after[a].0 as int;
            let ib = after[b].0 as int;
            assert(before[ia] == (ia as u64, manhattan(cands@[ia], current) as u64, false));
            assert(before[ib] == (ib as u64, manhattan(cands@[ib], current) as u64, false));
            lemma_manhattan_small(cands@[ia], current);
            lemma_manhattan_small(cands@[ib], current);
        }
        if cands@.no_duplicates() {
            assert(before.no_duplicates()) by {
                assert forall|a: int, b: int| 0 <= a < before.len() && 0 <= b < before.len() && a != b
                    implies before[a] != before[b] by {
                    assert(before[a].0 == a && before[b].0 == b);
                }
            }
            before.lemma_multiset_has_no_duplicates();
            after.lemma_multiset_has_no_duplicates_conv();
            assert forall|a: int, b: int| 0 <= a < out@.len() && 0 <= b < out@.len() && a != b
                implies out@[a] != out@[b] by {
                assert(after[a] != after[b]);
                if after[a].0 == after[b].0 {
                    assert(after[a] == before[after[a].0 as int]);
                }
            }
        }
    }
    out
}

/// A Manhattan distance between `i32` coordinates fits in a `u64`.
proof fn lemma_manhattan_small(a: ChunkCoord, b: ChunkCoord)
    ensures
        0 <= manhattan(a, b) < 0x1_0000_0000_0000,
{
}

} // verus!
