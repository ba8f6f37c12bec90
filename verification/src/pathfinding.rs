//! Grid path search over a directed graph of tiles (A*).
//!
//! Tiles are `u32` ids packing `x = id % 65536` and `z = id / 65536`; the
//! graph is a flat list of `(from, to)` pairs, each edge of cost 1, and the
//! search is guided by the Manhattan distance between tiles.
use vstd::prelude::*;
use std::collections::HashMap;
use vstd::set_lib::lemma_len_subset;

verus! {

broadcast use vstd::std_specs::hash::group_hash_axioms;

/// Source of edge `k` of the flat pair list.
pub open spec fn edge_from(g: Seq<u32>, k: int) -> u32 {
    g[2 * k]
}

/// Target of edge `k` of the flat pair list.
pub open spec fn edge_to(g: Seq<u32>, k: int) -> u32 {
    g[2 * k + 1]
}

/// Number of whole pairs in the list (a trailing odd item is ignored).
pub open spec fn edge_count(g: Seq<u32>) -> int {
    (g.len() / 2) as int
}

pub open spec fn has_edge(g: Seq<u32>, a: u32, b: u32) -> bool {
    exists|k: int| 0 <= k < edge_count(g) && #[trigger] edge_from(g, k) == a && #[trigger] edge_to(g, k) == b
}

/// `p` is a non-empty walk along edges of `g`.
pub open spec fn is_walk(g: Seq<u32>, p: Seq<u32>) -> bool {
    &&& p.len() >= 1
    &&& forall|i: int| 0 <= i < p.len() - 1 ==> #[trigger] has_edge(g, p[i], p[i + 1])
}

/// Manhattan distance between two tiles.
pub open spec fn manhattan(a: u32, b: u32) -> int {
    let (ax, az, bx, bz) = ((a % 65536) as int, (a / 65536) as int, (b % 65536) as int, (b / 65536) as int);
    (if ax >= bx { ax - bx } else { bx - ax }) + (if az >= bz { az - bz } else { bz - az })
}

fn heuristic(a: u32, b: u32) -> (h: u32)
    ensures
        h == manhattan(a, b),
{
    let ax = a % 65_536;
    let az = a / 65_536;
    let bx = b % 65_536;
    let bz = b / 65_536;
    let dx = if ax >= bx { ax - bx } else { bx - ax };
    let dz = if az >= bz { az - bz } else { bz - az };
    dx + dz
}

/// Cost bound used for termination: an undiscovered tile counts above every
/// possible cost.
spec fn pot(gs: Map<u32, u32>, n: u32) -> nat {
    if gs.contains_key(n) { gs[n] as nat } else { 0x1_0000_0000nat }
}

/// Sum of `pot` over the targets of the first `k` edges.
spec fn potential(gs: Map<u32, u32>, g: Seq<u32>, k: int) -> nat
    decreases k,
{
    if k <= 0 { 0 } else { potential(gs, g, k - 1) + pot(gs, edge_to(g, k - 1)) }
}

/// Lowering the cost of an edge target lowers the potential.
proof fn lemma_potential_drops(gs: Map<u32, u32>, n: u32, v: u32, g: Seq<u32>, k: int, k0: int)
    requires
        (v as nat) < pot(gs, n),
        0 <= k0 < k,
        edge_to(g, k0) == n,
    ensures
        potential(gs.insert(n, v), g, k) < potential(gs, g, k),
    decreases k,
{
    lemma_potential_not_up(gs, n, v, g, k - 1);
    if k0 < k - 1 {
        lemma_potential_drops(gs, n, v, g, k - 1, k0);
    }
}

proof fn lemma_potential_not_up(gs: Map<u32, u32>, n: u32, v: u32, g: Seq<u32>, k: int)
    requires
        (v as nat) < pot(gs, n),
    ensures
        potential(gs.insert(n, v), g, k) <= potential(gs, g, k),
    decreases k,
{
    if k > 0 {
        lemma_potential_not_up(gs, n, v, g, k - 1);
    }
}

/// The adjacency lists hold only edges of the graph.
spec fn adjacency_sound(adj: Map<u32, Vec<u32>>, g: Seq<u32>) -> bool {
    forall|a: u32, j: int| adj.contains_key(a) && 0 <= j < adj[a]@.len() ==> #[trigger] has_edge(g, a, adj[a]@[j])
}

/// The search bookkeeping: the start costs 0 and has no predecessor; every
/// other reached tile has a predecessor that is reached more cheaply along an
/// edge.
spec fn search_ok(g: Seq<u32>, start: u32, gs: Map<u32, u32>, came: Map<u32, u32>) -> bool {
    &&& gs.contains_key(start) && gs[start] == 0
    &&& forall|n: u32| #[trigger] came.contains_key(n) ==>
            n != start && gs.contains_key(n) && gs.contains_key(came[n]) && gs[came[n]] < gs[n]
            && has_edge(g, came[n], n)
    &&& forall|n: u32| #[trigger] gs.contains_key(n) ==> n == start || came.contains_key(n)
}

/// `goal` can be reached from `start` along edges of `g`.
pub open spec fn reachable(g: Seq<u32>, start: u32, goal: u32) -> bool {
    exists|p: Seq<u32>| is_walk(g, p) && p[0] == start && #[trigger] p.last() == goal
}

/// The adjacency lists hold every edge among the first `k` of `g`.
spec fn adjacency_complete(adj: Map<u32, Vec<u32>>, g: Seq<u32>, k: int) -> bool {
    forall|e: int| 0 <= e < k ==> adj.contains_key(#[trigger] edge_from(g, e)) && adj[edge_from(g, e)]@.contains(
        edge_to(g, e),
    )
}

/// Reached tiles whose cost is below that of `v`.
spec fn cheaper(gs: Map<u32, u32>, v: u32) -> Set<u32> {
    gs.dom().filter(|w: u32| gs[w] < gs[v])
}

/// Each cost is at most the number of reached tiles that cost less: costs
/// come from walks that visit no tile twice.
spec fn ranked(gs: Map<u32, u32>) -> bool {
    forall|v: u32| #[trigger] gs.contains_key(v) ==> gs[v] <= cheaper(gs, v).len()
}

/// Every edge out of `u` leads to a reached tile.
spec fn closed(g: Seq<u32>, gs: Map<u32, u32>, u: u32) -> bool {
    forall|e: int| 0 <= e < edge_count(g) && #[trigger] edge_from(g, e) == u ==> gs.contains_key(edge_to(g, e))
}

/// Some queued entry is for tile `u`.
spec fn queued(open: Seq<(u32, u32)>, u: u32) -> bool {
    exists|i: int| 0 <= i < open.len() && #[trigger] open[i].0 == u
}

/// The Manhattan estimate to `goal` drops by at most one along every edge
/// (as on a grid whose edges join neighbouring tiles).
pub open spec fn consistent(g: Seq<u32>, goal: u32) -> bool {
    forall|e: int| 0 <= e < edge_count(g) ==> manhattan(#[trigger] edge_from(g, e), goal) <= 1 + manhattan(
        edge_to(g, e),
        goal,
    )
}

/// Every edge out of `u` leads to a reached tile that costs at most one more.
spec fn relaxed(g: Seq<u32>, gs: Map<u32, u32>, u: u32) -> bool {
    forall|e: int| 0 <= e < edge_count(g) && #[trigger] edge_from(g, e) == u ==> gs.contains_key(edge_to(g, e))
        && gs[edge_to(g, e)] <= gs[u] + 1
}

/// The queue holds the entry `(n, f)`.
spec fn has_entry(open: Seq<(u32, u32)>, n: u32, f: int) -> bool {
    exists|i: int| 0 <= i < open.len() && #[trigger] open[i].0 == n && open[i].1 == f
}

/// Along a walk the estimate to its last tile is at most the number of edges
/// left, when the estimate is consistent.
proof fn lemma_estimate_along_walk(g: Seq<u32>, q: Seq<u32>, k: int)
    requires
        is_walk(g, q),
        consistent(g, q.last()),
        0 <= k < q.len(),
    ensures
        manhattan(q[k], q.last()) <= q.len() - 1 - k,
    decreases q.len() - k,
{
    if k < q.len() - 1 {
        lemma_estimate_along_walk(g, q, k + 1);
        assert(has_edge(g, q[k], q[k + 1]));
        let e = choose|e: int| 0 <= e < edge_count(g) && #[trigger] edge_from(g, e) == q[k] && #[trigger] edge_to(g, e) == q[k + 1];
    } else {
        assert(q[k] == q.last());
    }
}

/// While the goal has not been taken from the queue, every walk to it has a
/// queued entry whose estimate is at most the walk's length.
proof fn lemma_cheap_entry(
    g: Seq<u32>,
    gs: Map<u32, u32>,
    open: Seq<(u32, u32)>,
    goal: u32,
    q: Seq<u32>,
    k: int,
)
    requires
        consistent(g, goal),
        is_walk(g, q),
        q.last() == goal,
        0 <= k < q.len(),
        gs.contains_key(q[k]),
        gs[q[k]] <= k,
        forall|n: u32| #[trigger] gs.contains_key(n) ==> has_entry(open, n, gs[n] + manhattan(n, goal)) || relaxed(g, gs, n),
        gs.contains_key(goal) ==> has_entry(open, goal, gs[goal] + manhattan(goal, goal)),
    ensures
        exists|i: int| 0 <= i < open.len() && open[i].1 <= q.len() - 1,
    decreases q.len() - k,
{
    lemma_estimate_along_walk(g, q, k);
    if k == q.len() - 1 {
        assert(q[k] == goal);
        let i = choose|i: int| 0 <= i < open.len() && #[trigger] open[i].0 == goal && open[i].1 == gs[goal] + manhattan(goal, goal);
    } else if has_entry(open, q[k], gs[q[k]] + manhattan(q[k], goal)) {
        let i = choose|i: int| 0 <= i < open.len() && #[trigger] open[i].0 == q[k] && open[i].1 == gs[q[k]] + manhattan(q[k], goal);
    } else {
        assert(relaxed(g, gs, q[k]));
        assert(has_edge(g, q[k], q[k + 1]));
        let e = choose|e: int| 0 <= e < edge_count(g) && #[trigger] edge_from(g, e) == q[k] && #[trigger] edge_to(g, e) == q[k + 1];
        lemma_cheap_entry(g, gs, open, goal, q, k + 1);
    }
}

/// Lowering the cost of `next` to one more than the cost of `u` keeps the
/// costs ranked.
proof fn lemma_ranked_relax(gs: Map<u32, u32>, u: u32, next: u32, t: u32)
    requires
        ranked(gs),
        gs.dom().finite(),
        gs.contains_key(u),
        t == gs[u] + 1,
        !gs.contains_key(next) || t < gs[next],
    ensures
        ranked(gs.insert(next, t)),
{
    let gs2 = gs.insert(next, t);
    assert(gs2.dom() =~= gs.dom().insert(next));
    assert forall|v: u32| #[trigger] gs2.contains_key(v) implies gs2[v] <= cheaper(gs2, v).len() by {
        let b = cheaper(gs2, v);
        gs2.dom().lemma_len_filter(|w: u32| gs2[w] < gs2[v]);
        if v == next {
            let a = cheaper(gs, u);
            gs.dom().lemma_len_filter(|w: u32| gs[w] < gs[u]);
            assert(a.insert(u).subset_of(b)) by {
                assert forall|w: u32| a.insert(u).contains(w) implies b.contains(w) by {
                    if w != u {
                        assert(gs[w] < gs[u]);
                        assert(w != next);
                    }
                }
            }
            lemma_len_subset(a.insert(u), b);
            assert(!a.contains(u));
        } else {
            let a = cheaper(gs, v);
            assert(a.subset_of(b)) by {
                assert forall|w: u32| a.contains(w) implies b.contains(w) by {
                    if w == next {
                        assert(gs2[w] < gs[w]);
                    }
                }
            }
            lemma_len_subset(a, b);
        }
    }
}

/// Ranked costs never exceed the number of edges.
proof fn lemma_cost_bound(g: Seq<u32>, start: u32, gs: Map<u32, u32>, came: Map<u32, u32>, v: u32)
    requires
        search_ok(g, start, gs, came),
        ranked(gs),
        gs.dom().finite(),
        gs.contains_key(v),
    ensures
        gs[v] <= edge_count(g),
{
    let n = edge_count(g);
    let verts = Seq::new(n as nat, |k: int| edge_to(g, k)).push(start);
    assert forall|x: u32| gs.dom().contains(x) implies verts.to_set().contains(x) by {
        if x == start {
            assert(verts[n] == start);
        } else {
            assert(came.contains_key(x));
            let k = choose|k: int| 0 <= k < edge_count(g) && #[trigger] edge_from(g, k) == came[x] && #[trigger] edge_to(g, k) == x;
            assert(verts[k] == x);
        }
    }
    verts.lemma_cardinality_of_set();
    lemma_len_subset(gs.dom(), verts.to_set());
    gs.dom().lemma_len_filter(|w: u32| gs[w] < gs[v]);
    lemma_len_subset(cheaper(gs, v), gs.dom().remove(v));
}

/// Along a walk from a reached tile, when every reached tile is closed,
/// every tile of the walk is reached.
proof fn lemma_walk_reached(g: Seq<u32>, gs: Map<u32, u32>, p: Seq<u32>, i: int)
    requires
        is_walk(g, p),
        gs.contains_key(p[0]),
        forall|u: u32| #[trigger] gs.contains_key(u) ==> closed(g, gs, u),
        0 <= i < p.len(),
    ensures
        gs.contains_key(p[i]),
    decreases i,
{
    if i > 0 {
        lemma_walk_reached(g, gs, p, i - 1);
        let j = i - 1;
        assert(has_edge(g, p[j], p[j + 1]));
        assert(p[j + 1] == p[i]);
        let k = choose|k: int| 0 <= k < edge_count(g) && #[trigger] edge_from(g, k) == p[i - 1] && #[trigger] edge_to(g, k) == p[i];
        assert(closed(g, gs, p[i - 1]));
    }
}

/// Finds a path from `starts[0]` to `ends[0]` along the edges of `graph`,
/// as the list of tiles visited; empty when either list is empty or no path
/// was found. A path is found whenever one exists, for graphs of fewer than
/// `u32::MAX - 1` edges (beyond that, step counts could saturate). Where the
/// Manhattan estimate is consistent along the edges (as on a grid of
/// neighbouring tiles), the path found is a shortest one.
pub fn find_path(graph: &[u32], starts: &[u32], ends: &[u32]) -> (path: Vec<u32>)
    ensures
        (starts@.len() == 0 || ends@.len() == 0) ==> path@.len() == 0,
        path@.len() > 0 ==> is_walk(graph@, path@) && path@[0] == starts@[0]
            && path@.last() == ends@[0],
        path@.no_duplicates(),
        starts@.len() > 0 && ends@.len() > 0 && starts@[0] == ends@[0] ==> path@ == seq![starts@[0]],
        starts@.len() > 0 && ends@.len() > 0 && reachable(graph@, starts@[0], ends@[0])
            && edge_count(graph@) < 0xFFFF_FFFE ==> path@.len() > 0,
        starts@.len() > 0 && ends@.len() > 0 && edge_count(graph@) < 0xFFFD_0000 && consistent(graph@, ends@[0])
            && path@.len() > 0 ==> forall|q: Seq<u32>| is_walk(graph@, q) && q[0] == starts@[0] && q.last() == ends@[0]
            ==> path@.len() <= q.len(),
{
    if starts.len() == 0 || ends.len() == 0 {
        return Vec::new();
    }
    let start = starts[0];
    let goal = ends[0];
    let ghost g = graph@;
    let ghost small = edge_count(g) < 0xFFFF_FFFE;

    let mut adjacency: HashMap<u32, Vec<u32>> = HashMap::new();
    let glen = graph.len();
    let pairs = glen / 2;
    let mut k: usize = 0;
    while k < pairs
        invariant
            glen == graph@.len(),
            pairs == glen / 2,
            g == graph@,
            pairs == edge_count(g),
            k <= pairs,
            adjacency_sound(adjacency@, g),
            adjacency_complete(adjacency@, g, k as int),
        decreases pairs - k,
    {
        let from = graph[2 * k];
        let to = graph[2 * k + 1];
        let ghost adj0 = adjacency@;
        let mut list = match adjacency.remove(&from) {
            Some(v) => v,
            None => Vec::new(),
        };
        let ghost list0 = list@;
        list.push(to);
        adjacency.insert(from, list);
        proof {
            assert(edge_from(g, k as int) == from && edge_to(g, k as int) == to);
            assert(adj0.contains_key(from) ==> list0 == adj0[from]@);
            assert(!adj0.contains_key(from) ==> list0.len() == 0);
            assert forall|a: u32, j: int| adjacency@.contains_key(a) && 0 <= j < adjacency@[a]@.len() implies
                #[trigger] has_edge(g, a, adjacency@[a]@[j]) by {
                if a != from {
                    assert(adj0.contains_key(a));
                } else if j < adjacency@[a]@.len() - 1 {
                    assert(adjacency@[a]@[j] == list0[j]);
                    assert(adj0[a]@[j] == list0[j]);
                }
            }
            assert forall|e: int| 0 <= e < k + 1 implies adjacency@.contains_key(#[trigger] edge_from(g, e))
                && adjacency@[edge_from(g, e)]@.contains(edge_to(g, e)) by {
                if e < k {
                    if edge_from(g, e) == from {
                        let t = choose|t: int| 0 <= t < adj0[from]@.len() && adj0[from]@[t] == edge_to(g, e);
                        assert(adjacency@[from]@[t] == edge_to(g, e));
                    } else {
                        assert(adj0.contains_key(edge_from(g, e)));
                    }
                } else {
                    assert(adjacency@[from]@[list0.len() as int] == to);
                }
            }
        }
        k = k + 1;
    }

    let mut open: Vec<(u32, u32)> = Vec::new();
    let mut came_from: HashMap<u32, u32> = HashMap::new();
    let mut g_score: HashMap<u32, u32> = HashMap::new();
    g_score.insert(start, 0);
    open.push((start, heuristic(start, goal)));
    let ghost opt = edge_count(g) < 0xFFFD_0000 && consistent(g, goal);
    proof {
        assert(open@[0].0 == start);
        assert(has_entry(open@, start, g_score@[start] + manhattan(start, goal)));
        let gs = g_score@;
        assert forall|v: u32| #[trigger] gs.contains_key(v) implies gs[v] <= cheaper(gs, v).len() by {
            assert(gs[v] == 0);
        }
    }

    while open.len() > 0
        invariant
            g == graph@,
            small == (edge_count(g) < 0xFFFF_FFFE),
            pairs == edge_count(g),
            adjacency_sound(adjacency@, g),
            adjacency_complete(adjacency@, g, pairs as int),
            search_ok(g, start, g_score@, came_from@),
            ranked(g_score@),
            forall|i: int| 0 <= i < open@.len() ==> g_score@.contains_key(#[trigger] open@[i].0),
            g_score@.contains_key(goal) ==> queued(open@, goal),
            small ==> forall|u: u32| #[trigger] g_score@.contains_key(u) ==> queued(open@, u) || closed(g, g_score@, u),
            opt == (edge_count(g) < 0xFFFD_0000 && consistent(g, goal)),
            opt ==> forall|n: u32| #[trigger] g_score@.contains_key(n) ==>
                has_entry(open@, n, g_score@[n] + manhattan(n, goal)) || relaxed(g, g_score@, n),
            opt ==> (g_score@.contains_key(goal) ==> has_entry(open@, goal, g_score@[goal] + manhattan(goal, goal))),
            opt ==> forall|i: int| 0 <= i < open@.len() ==> #[trigger] open@[i].1 >= g_score@[open@[i].0] + manhattan(open@[i].0, goal),
            starts@.len() > 0,
            ends@.len() > 0,
            start == starts@[0],
            goal == ends@[0],
            start == goal ==> open@.len() == 1 && open@[0].0 == start,
        decreases potential(g_score@, g, pairs as int), open@.len(),
    {
        // Take an entry with the least estimated total cost.
        let mut best: usize = 0;
        let mut i: usize = 1;
        while i < open.len()
            invariant
                1 <= i <= open@.len(),
                best < open@.len(),
                forall|j: int| 0 <= j < i ==> open@[best as int].1 <= #[trigger] open@[j].1,
            decreases open.len() - i,
        {
            if open[i].1 < open[best].1 {
                best = i;
            }
            i = i + 1;
        }
        let ghost open0 = open@;
        let (tile, _) = open.swap_remove(best);
        proof {
            assert(g_score@.contains_key(open0[best as int].0));
            assert forall|j: int| 0 <= j < open@.len() implies g_score@.contains_key(#[trigger] open@[j].0) by {
                if j == best {
                    assert(open@[j] == open0[open0.len() - 1]);
                } else {
                    assert(open@[j] == open0[j]);
                }
            }
            assert forall|u: u32| u != tile && #[trigger] queued(open0, u) implies queued(open@, u) by {
                let i0 = choose|i0: int| 0 <= i0 < open0.len() && #[trigger] open0[i0].0 == u;
                if i0 == open0.len() - 1 {
                    assert(open@[best as int] == open0[i0]);
                } else {
                    assert(open@[i0] == open0[i0]);
                }
            }
            assert forall|u: u32, f: int| u != tile && #[trigger] has_entry(open0, u, f) implies has_entry(open@, u, f) by {
                let i0 = choose|i0: int| 0 <= i0 < open0.len() && #[trigger] open0[i0].0 == u && open0[i0].1 == f;
                if i0 == open0.len() - 1 {
                    assert(open@[best as int] == open0[i0]);
                } else {
                    assert(open@[i0] == open0[i0]);
                }
            }
            if opt {
                assert forall|j: int| 0 <= j < open@.len() implies #[trigger] open@[j].1 >= g_score@[open@[j].0] + manhattan(open@[j].0, goal) by {
                    if j == best {
                        assert(open@[j] == open0[open0.len() - 1]);
                    } else {
                        assert(open@[j] == open0[j]);
                    }
                }
            }
        }

        if tile == goal {
            proof {
                if opt {
                    assert forall|q: Seq<u32>| is_walk(g, q) && q[0] == start && q.last() == goal implies
                        g_score@[goal] <= q.len() - 1 by {
                        lemma_cheap_entry(g, g_score@, open0, goal, q, 0);
                        let i0 = choose|i0: int| 0 <= i0 < open0.len() && open0[i0].1 <= q.len() - 1;
                        assert(open0[best as int].1 <= open0[i0].1);
                    }
                }
            }
            return reconstruct_path(&came_from, start, goal, Ghost(g), Ghost(g_score@));
        }

        let current_cost = match g_score.get(&tile) {
            Some(c) => *c,
            None => u32::MAX,
        };
        proof {
            lemma_cost_bound(g, start, g_score@, came_from@, tile);
        }
        let ghost gs0 = g_score@;
        let ghost len0 = open@.len();
        let ghost mut pushes: int = 0;
        match adjacency.get(&tile) {
            Some(neighbors) => {
                let mut j: usize = 0;
                while j < neighbors.len()
                    invariant
                        g == graph@,
                        small == (edge_count(g) < 0xFFFF_FFFE),
                        pairs == edge_count(g),
                        adjacency_sound(adjacency@, g),
                        adjacency@.contains_key(tile),
                        neighbors@ == adjacency@[tile]@,
                        j <= neighbors@.len(),
                        gs0.contains_key(tile),
                        current_cost == gs0[tile],
                        current_cost <= edge_count(g),
                        g_score@.contains_key(tile) && g_score@[tile] == current_cost,
                        search_ok(g, start, g_score@, came_from@),
                        ranked(g_score@),
                        forall|t: int| 0 <= t < open@.len() ==> g_score@.contains_key(#[trigger] open@[t].0),
                        tile != goal,
                        g_score@.contains_key(goal) ==> queued(open@, goal),
                        small ==> forall|u: u32| #[trigger] g_score@.contains_key(u) && u != tile ==> queued(open@, u) || closed(g, g_score@, u),
                        small ==> forall|t: int| 0 <= t < j ==> g_score@.contains_key(#[trigger] neighbors@[t]),
                        opt == (edge_count(g) < 0xFFFD_0000 && consistent(g, goal)),
                        opt ==> forall|n: u32| #[trigger] g_score@.contains_key(n) && n != tile ==>
                            has_entry(open@, n, g_score@[n] + manhattan(n, goal)) || relaxed(g, g_score@, n),
                        opt ==> (g_score@.contains_key(goal) ==> has_entry(open@, goal, g_score@[goal] + manhattan(goal, goal))),
                        opt ==> forall|i: int| 0 <= i < open@.len() ==> #[trigger] open@[i].1 >= g_score@[open@[i].0] + manhattan(open@[i].0, goal),
                        opt ==> forall|t: int| 0 <= t < j ==> g_score@.contains_key(#[trigger] neighbors@[t])
                            && g_score@[neighbors@[t]] <= current_cost + 1,
                        potential(g_score@, g, pairs as int) + pushes <= potential(gs0, g, pairs as int),
                        open@.len() == len0 + pushes,
                        pushes >= 0,
                    decreases neighbors.len() - j,
                {
                    let next = neighbors[j];
                    let tentative = current_cost.saturating_add(1);
                    let known = match g_score.get(&next) {
                        Some(c) => *c,
                        None => u32::MAX,
                    };
                    if tentative < known {
                        proof {
                            assert(has_edge(g, tile, adjacency@[tile]@[j as int]));
                            let k0 = choose|k0: int| 0 <= k0 < edge_count(g) && #[trigger] edge_from(g, k0) == tile
                                && #[trigger] edge_to(g, k0) == next;
                            lemma_potential_drops(g_score@, next, tentative, g, pairs as int, k0);
                            lemma_ranked_relax(g_score@, tile, next, tentative);
                        }
                        let ghost gs1 = g_score@;
                        let ghost came1 = came_from@;
                        let ghost open1 = open@;
                        came_from.insert(next, tile);
                        g_score.insert(next, tentative);
                        open.push((next, tentative.saturating_add(heuristic(next, goal))));
                        proof {
                            pushes = pushes + 1;
                            assert(next != start);
                            assert(open@[open1.len() as int].0 == next);
                            assert forall|n: u32| #[trigger] came_from@.contains_key(n) implies
                                n != start && g_score@.contains_key(n) && g_score@.contains_key(came_from@[n])
                                && g_score@[came_from@[n]] < g_score@[n] && has_edge(g, came_from@[n], n) by {
                                if n != next {
                                    assert(came1.contains_key(n));
                                }
                            }
                            assert forall|n: u32| #[trigger] g_score@.contains_key(n) implies
                                n == start || came_from@.contains_key(n) by {
                                if n != next {
                                    assert(gs1.contains_key(n));
                                }
                            }
                            assert forall|t: int| 0 <= t < open@.len() implies g_score@.contains_key(#[trigger] open@[t].0) by {
                            }
                            assert forall|u: u32| #[trigger] queued(open1, u) implies queued(open@, u) by {
                                let i0 = choose|i0: int| 0 <= i0 < open1.len() && #[trigger] open1[i0].0 == u;
                                assert(open@[i0] == open1[i0]);
                            }
                            if g_score@.contains_key(goal) {
                                if goal != next {
                                    assert(queued(open1, goal));
                                }
                            }
                            if small {
                                assert forall|u: u32| #[trigger] g_score@.contains_key(u) && u != tile implies
                                    queued(open@, u) || closed(g, g_score@, u) by {
                                    if u != next {
                                        assert(gs1.contains_key(u));
                                        if queued(open1, u) {
                                        } else {
                                            assert(closed(g, gs1, u));
                                        }
                                    }
                                }
                            }
                            if opt {
                                let last = open1.len() as int;
                                assert(open@[last] == (next, (tentative + manhattan(next, goal)) as u32));
                                assert(has_entry(open@, next, g_score@[next] + manhattan(next, goal)));
                                assert forall|u: u32, f: int| #[trigger] has_entry(open1, u, f) implies has_entry(open@, u, f) by {
                                    let i0 = choose|i0: int| 0 <= i0 < open1.len() && #[trigger] open1[i0].0 == u && open1[i0].1 == f;
                                    assert(open@[i0] == open1[i0]);
                                }
                                assert forall|n: u32| #[trigger] g_score@.contains_key(n) && n != tile implies
                                    has_entry(open@, n, g_score@[n] + manhattan(n, goal)) || relaxed(g, g_score@, n) by {
                                    if n != next {
                                        assert(gs1.contains_key(n));
                                        if has_entry(open1, n, gs1[n] + manhattan(n, goal)) {
                                        } else {
                                            assert(relaxed(g, gs1, n));
                                        }
                                    }
                                }
                                assert forall|i: int| 0 <= i < open@.len() implies #[trigger] open@[i].1 >= g_score@[open@[i].0] + manhattan(open@[i].0, goal) by {
                                    if i < last {
                                        assert(open@[i] == open1[i]);
                                    }
                                }
                                assert forall|t: int| 0 <= t < j + 1 implies g_score@.contains_key(#[trigger] neighbors@[t])
                                    && g_score@[neighbors@[t]] <= current_cost + 1 by {
                                }
                            }
                        }
                    } else {
                        proof {
                            if small {
                                assert(tentative == current_cost + 1);
                                assert(g_score@.contains_key(next));
                            }
                        }
                    }
                    j = j + 1;
                }
                proof {
                    if small {
                        assert forall|e: int| 0 <= e < edge_count(g) && #[trigger] edge_from(g, e) == tile implies
                            g_score@.contains_key(edge_to(g, e)) by {
                            let t = choose|t: int| 0 <= t < neighbors@.len() && neighbors@[t] == edge_to(g, e);
                            assert(g_score@.contains_key(neighbors@[t]));
                        }
                    }
                    if opt {
                        assert forall|e: int| 0 <= e < edge_count(g) && #[trigger] edge_from(g, e) == tile implies
                            g_score@.contains_key(edge_to(g, e)) && g_score@[edge_to(g, e)] <= g_score@[tile] + 1 by {
                            let t = choose|t: int| 0 <= t < neighbors@.len() && neighbors@[t] == edge_to(g, e);
                            assert(g_score@.contains_key(neighbors@[t]));
                        }
                        assert(relaxed(g, g_score@, tile));
                    }
                }
            },
            None => {
                proof {
                    assert forall|e: int| 0 <= e < edge_count(g) && #[trigger] edge_from(g, e) == tile implies
                        g_score@.contains_key(edge_to(g, e)) by {
                        assert(adjacency@.contains_key(edge_from(g, e)));
                    }
                }
            },
        }
    }
    proof {
        if small && reachable(g, start, goal) {
            let p = choose|p: Seq<u32>| is_walk(g, p) && p[0] == start && #[trigger] p.last() == goal;
            assert forall|u: u32| #[trigger] g_score@.contains_key(u) implies closed(g, g_score@, u) by {
                if queued(open@, u) {
                    let i0 = choose|i0: int| 0 <= i0 < open@.len() && #[trigger] open@[i0].0 == u;
                }
            }
            lemma_walk_reached(g, g_score@, p, p.len() - 1);
            assert(queued(open@, goal));
            let i0 = choose|i0: int| 0 <= i0 < open@.len() && #[trigger] open@[i0].0 == goal;
        }
    }
    Vec::new()
}

/// Walks predecessors back from `goal` to `start` and returns the tiles in
/// walking order; empty if the chain breaks.
fn reconstruct_path(
    came_from: &HashMap<u32, u32>,
    start: u32,
    goal: u32,
    Ghost(g): Ghost<Seq<u32>>,
    Ghost(gs): Ghost<Map<u32, u32>>,
) -> (path: Vec<u32>)
    requires
        search_ok(g, start, gs, came_from@),
        gs.contains_key(goal),
    ensures
        path@.len() > 0,
        path@.len() <= gs[goal] + 1,
        is_walk(g, path@) && path@[0] == start && path@.last() == goal,
        start == goal ==> path@ == seq![goal],
        path@.no_duplicates(),
{
    let mut current = goal;
    let mut rev: Vec<u32> = Vec::new();
    rev.push(current);
    while current != start
        invariant
            search_ok(g, start, gs, came_from@),
            gs.contains_key(current),
            rev@.len() >= 1,
            rev@[0] == goal,
            rev@.last() == current,
            rev@.len() + gs[current] <= gs[goal] + 1,
            start == goal ==> rev@.len() == 1,
            forall|i: int| 0 <= i < rev@.len() - 1 ==> #[trigger] has_edge(g, rev@[i + 1], rev@[i]),
            forall|i: int| 0 <= i < rev@.len() ==> gs.contains_key(#[trigger] rev@[i]),
            forall|i: int, j: int| 0 <= i < j < rev@.len() ==> gs[rev@[j]] < gs[rev@[i]],
        decreases gs[current],
    {
        match came_from.get(&current) {
            Some(previous) => {
                let p = *previous;
                proof {
                    assert(came_from@.contains_key(current));
                }
                let ghost rev0 = rev@;
                current = p;
                rev.push(current);
                proof {
                    assert forall|i: int| 0 <= i < rev@.len() - 1 implies #[trigger] has_edge(g, rev@[i + 1], rev@[i]) by {
                        if i < rev0.len() - 1 {
                            assert(rev@[i] == rev0[i] && rev@[i + 1] == rev0[i + 1]);
                        }
                    }
                    assert forall|i: int| 0 <= i < rev@.len() implies gs.contains_key(#[trigger] rev@[i]) by {
                        if i < rev0.len() {
                            assert(rev@[i] == rev0[i]);
                        }
                    }
                    assert forall|i: int, j: int| 0 <= i < j < rev@.len() implies gs[rev@[j]] < gs[rev@[i]] by {
                        assert(rev@[i] == rev0[i]);
                        if j < rev0.len() {
                            assert(rev@[j] == rev0[j]);
                        } else {
                            assert(rev0[rev0.len() - 1] == rev0.last());
                            if i < rev0.len() - 1 {
                                assert(gs[rev0[rev0.len() - 1]] < gs[rev0[i]]);
                            }
                        }
                    }
                }
            },
            None => {
                return Vec::new();
            },
        }
    }
    let n = rev.len();
    let mut path: Vec<u32> = Vec::new();
    let mut t: usize = n;
    while t > 0
        invariant
            t <= n,
            n == rev@.len(),
            path@.len() == n - t,
            forall|i: int| 0 <= i < path@.len() ==> #[trigger] path@[i] == rev@[n - 1 - i],
        decreases t,
    {
        t = t - 1;
        path.push(rev[t]);
    }
    proof {
        assert forall|i: int| 0 <= i < path@.len() - 1 implies #[trigger] has_edge(g, path@[i], path@[i + 1]) by {
            let r = n - 2 - i;
            assert(path@[i] == rev@[r + 1]);
            assert(path@[i + 1] == rev@[r]);
            assert(has_edge(g, rev@[r + 1], rev@[r]));
        }
        if start == goal {
            assert(n == 1);
            assert(path@[0] == rev@[0]);
            assert(path@ =~= seq![goal]);
        }
        assert forall|i: int, j: int| 0 <= i < path@.len() && 0 <= j < path@.len() && i != j
            implies path@[i] != path@[j] by {
            assert(path@[i] == rev@[n - 1 - i] && path@[j] == rev@[n - 1 - j]);
            if i < j {
                assert(gs[rev@[n - 1 - i]] < gs[rev@[n - 1 - j]]);
            } else {
                assert(gs[rev@[n - 1 - j]] < gs[rev@[n - 1 - i]]);
            }
        }
    }
    path
}

} // verus!
