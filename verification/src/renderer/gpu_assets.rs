//! GPU resource bookkeeping: a hard memory budget with least-recently-used
//! eviction. The GPU objects themselves (buffers, textures) are the payloads
//! `M` and `T`, created by the renderer.
use vstd::prelude::*;
use std::collections::HashMap;
use crate::assets::handle::AssetId;
use crate::outside::sorting::sort_by_second;
use vstd::std_specs::hash::spec_hash_map_iter;
use vstd::std_specs::iter::IteratorSpec;

verus! {

broadcast use {vstd::std_specs::hash::group_hash_axioms, vstd::seq_lib::group_to_multiset_ensures};

/// The GPU memory budget: 2 GiB.
pub const MAX_GPU_MEMORY_BYTES: usize = 2147483648;

/// A resource resident on the GPU: the GPU object, its size, and the frame it
/// was last drawn in.
pub struct GpuResident<R> {
    pub resource: R,
    pub memory_bytes: usize,
    pub last_used_frame: u64,
}

/// Total size of the residents of `m`.
pub open spec fn resident_bytes<R>(m: Map<u64, GpuResident<R>>) -> int
    decreases m.dom().len(),
    when m.dom().finite()
{
    if m.dom().len() == 0 {
        0
    } else {
        let k = m.dom().choose();
        m[k].memory_bytes + resident_bytes(m.remove(k))
    }
}

/// The size of one resident plus the size of the others.
pub proof fn lemma_resident_bytes_remove<R>(m: Map<u64, GpuResident<R>>, k: u64)
    requires
        m.dom().finite(),
        m.contains_key(k),
    ensures
        resident_bytes(m) == m[k].memory_bytes + resident_bytes(m.remove(k)),
        resident_bytes(m.remove(k)) >= 0,
    decreases m.dom().len(),
{
    let c = m.dom().choose();
    lemma_resident_bytes_nonneg(m.remove(k));
    if c != k {
        lemma_resident_bytes_remove(m.remove(c), k);
        lemma_resident_bytes_remove(m.remove(k), c);
        assert(m.remove(c).remove(k) =~= m.remove(k).remove(c));
    }
}

pub proof fn lemma_resident_bytes_nonneg<R>(m: Map<u64, GpuResident<R>>)
    requires
        m.dom().finite(),
    ensures
        resident_bytes(m) >= 0,
    decreases m.dom().len(),
{
    if m.dom().len() > 0 {
        lemma_resident_bytes_nonneg(m.remove(m.dom().choose()));
    }
}

/// Adding a new resident adds its size; replacing one by one of the same
/// size keeps the total.
pub proof fn lemma_resident_bytes_insert<R>(m: Map<u64, GpuResident<R>>, k: u64, v: GpuResident<R>)
    requires
        m.dom().finite(),
        !m.contains_key(k) || m[k].memory_bytes == v.memory_bytes,
    ensures
        resident_bytes(m.insert(k, v)) == resident_bytes(m) + (if m.contains_key(k) { 0int } else { v.memory_bytes as int }),
{
    lemma_resident_bytes_remove(m.insert(k, v), k);
    if m.contains_key(k) {
        lemma_resident_bytes_remove(m, k);
        assert(m.insert(k, v).remove(k) =~= m.remove(k));
    } else {
        assert(m.insert(k, v).remove(k) =~= m);
    }
}

/// Residents evicted from among the first `i + 1` sorted candidates were
/// last used no later than candidate `i`.
proof fn lemma_latest<M, T>(
    m0: Map<u64, GpuResident<M>>,
    t0: Map<u64, GpuResident<T>>,
    m: Map<u64, GpuResident<M>>,
    t: Map<u64, GpuResident<T>>,
    cands: Seq<(u64, u64, bool)>,
    i: int,
)
    requires
        0 <= i < cands.len(),
        forall|j: int, l: int| 0 <= j <= l < cands.len() ==> cands[j].1 <= cands[l].1,
        forall|k: u64| #[trigger] m0.contains_key(k) && !m.contains_key(k) ==>
            exists|j: int| 0 <= j < i + 1 && cands[j] == (k, m0[k].last_used_frame, true),
        forall|k: u64| #[trigger] t0.contains_key(k) && !t.contains_key(k) ==>
            exists|j: int| 0 <= j < i + 1 && cands[j] == (k, t0[k].last_used_frame, false),
    ensures
        evicted_no_later(m0, t0, m, t, cands[i].1),
{
    assert forall|e: u64| #[trigger] m0.contains_key(e) && !m.contains_key(e) implies m0[e].last_used_frame <= cands[i].1 by {
        let j = choose|j: int| 0 <= j < i + 1 && cands[j] == (e, m0[e].last_used_frame, true);
    }
    assert forall|e: u64| #[trigger] t0.contains_key(e) && !t.contains_key(e) implies t0[e].last_used_frame <= cands[i].1 by {
        let j = choose|j: int| 0 <= j < i + 1 && cands[j] == (e, t0[e].last_used_frame, false);
    }
}

/// The eviction loop's end state meets `evicted_lru`.
proof fn lemma_eviction_done<M, T>(
    m0: Map<u64, GpuResident<M>>,
    t0: Map<u64, GpuResident<T>>,
    m: Map<u64, GpuResident<M>>,
    t: Map<u64, GpuResident<T>>,
    cands: Seq<(u64, u64, bool)>,
    unsorted: Seq<(u64, u64, bool)>,
    i: int,
    mem: int,
    required: int,
)
    requires
        0 <= i <= cands.len(),
        m0.dom().finite(),
        t0.dom().finite(),
        m.dom().finite(),
        t.dom().finite(),
        mem == resident_bytes(m) + resident_bytes(t),
        resident_bytes(m0) + resident_bytes(t0) + required > MAX_GPU_MEMORY_BYTES,
        i == cands.len() || mem + required <= MAX_GPU_MEMORY_BYTES,
        forall|j: int, l: int| 0 <= j <= l < cands.len() ==> cands[j].1 <= cands[l].1,
        forall|x: (u64, u64, bool)| #[trigger] unsorted.contains(x) ==> cands.contains(x),
        forall|k: u64| #[trigger] m0.contains_key(k) ==> unsorted.contains((k, m0[k].last_used_frame, true)),
        forall|k: u64| #[trigger] t0.contains_key(k) ==> unsorted.contains((k, t0[k].last_used_frame, false)),
        forall|k: u64| #[trigger] m.contains_key(k) ==> m0.contains_key(k) && m[k] == m0[k],
        forall|k: u64| #[trigger] t.contains_key(k) ==> t0.contains_key(k) && t[k] == t0[k],
        forall|j: int| 0 <= j < i ==> (if cands[j].2 {
            !m.contains_key(#[trigger] cands[j].0)
        } else {
            !t.contains_key(cands[j].0)
        }),
        forall|k: u64| #[trigger] m0.contains_key(k) && !m.contains_key(k) ==>
            exists|j: int| 0 <= j < i && cands[j] == (k, m0[k].last_used_frame, true),
        forall|k: u64| #[trigger] t0.contains_key(k) && !t.contains_key(k) ==>
            exists|j: int| 0 <= j < i && cands[j] == (k, t0[k].last_used_frame, false),
        (m != m0 || t != t0) ==> last_evicted_needed(m0, t0, m, t, mem, required),
    ensures
        evicted_lru(m0, t0, m, t, required),
{
    // A kept resident's candidate lies at or after `i`.
    assert forall|k: u64| #[trigger] m.contains_key(k) implies
        exists|j: int| i <= j < cands.len() && cands[j] == (k, m0[k].last_used_frame, true) by {
        assert(unsorted.contains((k, m0[k].last_used_frame, true)));
        let j = choose|j: int| 0 <= j < cands.len() && cands[j] == (k, m0[k].last_used_frame, true);
        if j < i {
            assert(!m.contains_key(cands[j].0));
        }
    }
    assert forall|k: u64| #[trigger] t.contains_key(k) implies
        exists|j: int| i <= j < cands.len() && cands[j] == (k, t0[k].last_used_frame, false) by {
        assert(unsorted.contains((k, t0[k].last_used_frame, false)));
        let j = choose|j: int| 0 <= j < cands.len() && cands[j] == (k, t0[k].last_used_frame, false);
        if j < i {
            assert(!t.contains_key(cands[j].0));
        }
    }
    if mem + required > MAX_GPU_MEMORY_BYTES {
        // Everything was processed, so nothing is left.
        assert(i == cands.len());
        assert(m.dom() =~= Set::empty()) by {
            assert forall|k: u64| !m.dom().contains(k) by {
                if m.contains_key(k) {
                    let j = choose|j: int| i <= j < cands.len() && cands[j] == (k, m0[k].last_used_frame, true);
                }
            }
        }
        assert(t.dom() =~= Set::empty()) by {
            assert forall|k: u64| !t.dom().contains(k) by {
                if t.contains_key(k) {
                    let j = choose|j: int| i <= j < cands.len() && cands[j] == (k, t0[k].last_used_frame, false);
                }
            }
        }
    }
    assert forall|e: u64, k: u64| #![trigger m0[e], m[k]]
        m0.contains_key(e) && !m.contains_key(e) && m.contains_key(k)
            implies m0[e].last_used_frame <= m[k].last_used_frame by {
        let j = choose|j: int| 0 <= j < i && cands[j] == (e, m0[e].last_used_frame, true);
        let l = choose|l: int| i <= l < cands.len() && cands[l] == (k, m0[k].last_used_frame, true);
    }
    assert forall|e: u64, k: u64| #![trigger m0[e], t[k]]
        m0.contains_key(e) && !m.contains_key(e) && t.contains_key(k)
            implies m0[e].last_used_frame <= t[k].last_used_frame by {
        let j = choose|j: int| 0 <= j < i && cands[j] == (e, m0[e].last_used_frame, true);
        let l = choose|l: int| i <= l < cands.len() && cands[l] == (k, t0[k].last_used_frame, false);
    }
    assert forall|e: u64, k: u64| #![trigger t0[e], m[k]]
        t0.contains_key(e) && !t.contains_key(e) && m.contains_key(k)
            implies t0[e].last_used_frame <= m[k].last_used_frame by {
        let j = choose|j: int| 0 <= j < i && cands[j] == (e, t0[e].last_used_frame, false);
        let l = choose|l: int| i <= l < cands.len() && cands[l] == (k, m0[k].last_used_frame, true);
    }
    assert forall|e: u64, k: u64| #![trigger t0[e], t[k]]
        t0.contains_key(e) && !t.contains_key(e) && t.contains_key(k)
            implies t0[e].last_used_frame <= t[k].last_used_frame by {
        let j = choose|j: int| 0 <= j < i && cands[j] == (e, t0[e].last_used_frame, false);
        let l = choose|l: int| i <= l < cands.len() && cands[l] == (k, t0[k].last_used_frame, false);
    }
}

/// Manages GPU resources, enforcing the memory budget with LRU eviction.
pub struct GpuResourceManager<M, T> {
    meshes: HashMap<u64, GpuResident<M>>,
    textures: HashMap<u64, GpuResident<T>>,
    current_memory_bytes: usize,
    current_frame: u64,
}

/// What eviction to make room for `required` more bytes did: it removed
/// residents least recently used first, kept the rest unchanged, and stopped
/// as soon as the budget could take `required` more bytes (or nothing was
/// left to evict). Nothing is evicted when the budget already has room.
pub open spec fn evicted_lru<M, T>(
    old_m: Map<u64, GpuResident<M>>,
    old_t: Map<u64, GpuResident<T>>,
    new_m: Map<u64, GpuResident<M>>,
    new_t: Map<u64, GpuResident<T>>,
    required: int,
) -> bool {
    let new_mem = resident_bytes(new_m) + resident_bytes(new_t);
    let old_mem = resident_bytes(old_m) + resident_bytes(old_t);
    &&& forall|k: u64| #[trigger] new_m.contains_key(k) ==> old_m.contains_key(k) && new_m[k] == old_m[k]
    &&& forall|k: u64| #[trigger] new_t.contains_key(k) ==> old_t.contains_key(k) && new_t[k] == old_t[k]
    &&& old_mem + required <= MAX_GPU_MEMORY_BYTES ==> new_m == old_m && new_t == old_t
    &&& new_mem + required <= MAX_GPU_MEMORY_BYTES || (new_m.dom().len() == 0 && new_t.dom().len() == 0)
    // Least recently used first.
    &&& forall|e: u64, k: u64| #![trigger old_m[e], new_m[k]]
        old_m.contains_key(e) && !new_m.contains_key(e) && new_m.contains_key(k)
            ==> old_m[e].last_used_frame <= new_m[k].last_used_frame
    &&& forall|e: u64, k: u64| #![trigger old_m[e], new_t[k]]
        old_m.contains_key(e) && !new_m.contains_key(e) && new_t.contains_key(k)
            ==> old_m[e].last_used_frame <= new_t[k].last_used_frame
    &&& forall|e: u64, k: u64| #![trigger old_t[e], new_m[k]]
        old_t.contains_key(e) && !new_t.contains_key(e) && new_m.contains_key(k)
            ==> old_t[e].last_used_frame <= new_m[k].last_used_frame
    &&& forall|e: u64, k: u64| #![trigger old_t[e], new_t[k]]
        old_t.contains_key(e) && !new_t.contains_key(e) && new_t.contains_key(k)
            ==> old_t[e].last_used_frame <= new_t[k].last_used_frame
    // No more than needed: without the most recently used resident evicted
    // there would not be room.
    &&& (new_m != old_m || new_t != old_t) ==> last_evicted_needed(old_m, old_t, new_m, new_t, new_mem, required)
}

/// Every evicted resident was last used no later than frame `f`.
pub open spec fn evicted_no_later<M, T>(
    old_m: Map<u64, GpuResident<M>>,
    old_t: Map<u64, GpuResident<T>>,
    new_m: Map<u64, GpuResident<M>>,
    new_t: Map<u64, GpuResident<T>>,
    f: u64,
) -> bool {
    &&& forall|e: u64| #[trigger] old_m.contains_key(e) && !new_m.contains_key(e) ==> old_m[e].last_used_frame <= f
    &&& forall|e: u64| #[trigger] old_t.contains_key(e) && !new_t.contains_key(e) ==> old_t[e].last_used_frame <= f
}

/// Some evicted resident used no earlier than every other evicted one was
/// still needed: with only it back, `mem` bytes plus `required` would not
/// fit the budget.
pub open spec fn last_evicted_needed<M, T>(
    old_m: Map<u64, GpuResident<M>>,
    old_t: Map<u64, GpuResident<T>>,
    new_m: Map<u64, GpuResident<M>>,
    new_t: Map<u64, GpuResident<T>>,
    mem: int,
    required: int,
) -> bool {
    ||| exists|e: u64| #[trigger] old_m.contains_key(e) && !new_m.contains_key(e)
        && mem + old_m[e].memory_bytes + required > MAX_GPU_MEMORY_BYTES
        && evicted_no_later(old_m, old_t, new_m, new_t, old_m[e].last_used_frame)
    ||| exists|e: u64| #[trigger] old_t.contains_key(e) && !new_t.contains_key(e)
        && mem + old_t[e].memory_bytes + required > MAX_GPU_MEMORY_BYTES
        && evicted_no_later(old_m, old_t, new_m, new_t, old_t[e].last_used_frame)
}

impl<M, T> GpuResourceManager<M, T> {
    /// Resident meshes by asset id.
    pub closed spec fn meshes(&self) -> Map<u64, GpuResident<M>> {
        self.meshes@
    }

    /// Resident textures by asset id.
    pub closed spec fn textures(&self) -> Map<u64, GpuResident<T>> {
        self.textures@
    }

    pub closed spec fn frame(&self) -> u64 {
        self.current_frame
    }

    /// Bytes accounted as in use.
    pub closed spec fn memory(&self) -> usize {
        self.current_memory_bytes
    }

    /// The memory count is the total size of the residents.
    pub closed spec fn wf(&self) -> bool {
        &&& self.meshes@.dom().finite()
        &&& self.textures@.dom().finite()
        &&& self.current_memory_bytes == resident_bytes(self.meshes@) + resident_bytes(self.textures@)
    }

    pub proof fn lemma_wf(&self)
        requires
            self.wf(),
        ensures
            self.meshes().dom().finite(),
            self.textures().dom().finite(),
            self.memory() == resident_bytes(self.meshes()) + resident_bytes(self.textures()),
    {
    }

    /// Nothing resident, frame 0.
    pub fn new() -> (g: Self)
        ensures
            g.wf(),
            g.meshes().dom().len() == 0,
            g.textures().dom().len() == 0,
            g.frame() == 0,
            g.memory() == 0,
    {
        let g = GpuResourceManager {
            meshes: HashMap::new(),
            textures: HashMap::new(),
            current_memory_bytes: 0,
            current_frame: 0,
        };
        proof {
            assert(g.meshes@.dom() =~= Set::empty());
            assert(g.textures@.dom() =~= Set::empty());
        }
        g
    }

    /// Bytes in use on the GPU.
    pub fn memory_in_use(&self) -> (n: usize)
        ensures
            n == self.memory(),
    {
        self.current_memory_bytes
    }

    /// Starts a new frame.
    pub fn begin_frame(&mut self)
        requires
            old(self).frame() < u64::MAX,
        ensures
            final(self).frame() == old(self).frame() + 1,
            final(self).meshes() == old(self).meshes(),
            final(self).textures() == old(self).textures(),
            final(self).memory() == old(self).memory(),
            old(self).wf() ==> final(self).wf(),
    {
        self.current_frame = self.current_frame + 1;
    }

    /// Marks a mesh as used this frame so it is evicted last.
    pub fn mark_mesh_used(&mut self, id: AssetId)
        requires
            old(self).wf(),
        ensures
            final(self).wf(),
            final(self).meshes() == (if old(self).meshes().contains_key(id.0) {
                old(self).meshes().insert(id.0, GpuResident {
                    last_used_frame: old(self).frame(),
                    ..old(self).meshes()[id.0]
                })
            } else {
                old(self).meshes()
            }),
            final(self).textures() == old(self).textures(),
            final(self).frame() == old(self).frame(),
            final(self).memory() == old(self).memory(),
    {
        if let Some(mut mesh) = self.meshes.remove(&id.0) {
            let ghost m0 = old(self).meshes@;
            mesh.last_used_frame = self.current_frame;
            let ghost gv = mesh;
            self.meshes.insert(id.0, mesh);
            proof {
                lemma_resident_bytes_insert(m0, id.0, gv);
                assert(self.meshes@ =~= m0.insert(id.0, gv));
            }
        } else {
            proof {
                assert(self.meshes@ =~= old(self).meshes@);
            }
        }
    }

    /// Marks a texture as used this frame so it is evicted last.
    pub fn mark_texture_used(&mut self, id: AssetId)
        requires
            old(self).wf(),
        ensures
            final(self).wf(),
            final(self).textures() == (if old(self).textures().contains_key(id.0) {
                old(self).textures().insert(id.0, GpuResident {
                    last_used_frame: old(self).frame(),
                    ..old(self).textures()[id.0]
                })
            } else {
                old(self).textures()
            }),
            final(self).meshes() == old(self).meshes(),
            final(self).frame() == old(self).frame(),
            final(self).memory() == old(self).memory(),
    {
        if let Some(mut tex) = self.textures.remove(&id.0) {
            let ghost t0 = old(self).textures@;
            tex.last_used_frame = self.current_frame;
            let ghost gv = tex;
            self.textures.insert(id.0, tex);
            proof {
                lemma_resident_bytes_insert(t0, id.0, gv);
                assert(self.textures@ =~= t0.insert(id.0, gv));
            }
        } else {
            proof {
                assert(self.textures@ =~= old(self).textures@);
            }
        }
    }

    /// Every resident as `(id, last used frame, is a mesh)`.
    fn collect_candidates(&self) -> (c: Vec<(u64, u64, bool)>)
        ensures
            forall|j: int| 0 <= j < c@.len() ==> (if c@[j].2 {
                self.meshes@.contains_key(c@[j].0) && self.meshes@[c@[j].0].last_used_frame == c@[j].1
            } else {
                self.textures@.contains_key(c@[j].0) && self.textures@[c@[j].0].last_used_frame == c@[j].1
            }),
            forall|k: u64| #[trigger] self.meshes@.contains_key(k) ==> c@.contains((k, self.meshes@[k].last_used_frame, true)),
            forall|k: u64| #[trigger] self.textures@.contains_key(k) ==> c@.contains((k, self.textures@[k].last_used_frame, false)),
    {
        let mut c: Vec<(u64, u64, bool)> = Vec::new();
        let ghost vm = spec_hash_map_iter(&self.meshes).remaining();
        let ghost vt = spec_hash_map_iter(&self.textures).remaining();
        for (id, mesh) in it: self.meshes.iter()
            invariant
                c@.len() == it.index(),
                it.seq() == vm,
                forall|j: int| 0 <= j < c@.len() ==> #[trigger] c@[j] == (*vm[j].0, vm[j].1.last_used_frame, true),
        {
            c.push((*id, mesh.last_used_frame, true));
        }
        let ghost nm = c@.len();
        assert(nm == vm.len());
        for (id, tex) in it2: self.textures.iter()
            invariant
                nm == vm.len(),
                c@.len() == nm + it2.index(),
                it2.seq() == vt,
                forall|j: int| 0 <= j < nm ==> #[trigger] c@[j] == (*vm[j].0, vm[j].1.last_used_frame, true),
                forall|j: int| nm <= j < c@.len() ==> #[trigger] c@[j] == (*vt[j - nm].0, vt[j - nm].1.last_used_frame, false),
        {
            c.push((*id, tex.last_used_frame, false));
        }
        assert(c@.len() == nm + vt.len());
        proof {
            assert forall|j: int| 0 <= j < c@.len() implies (if c@[j].2 {
                self.meshes@.contains_key(c@[j].0) && self.meshes@[c@[j].0].last_used_frame == c@[j].1
            } else {
                self.textures@.contains_key(c@[j].0) && self.textures@[c@[j].0].last_used_frame == c@[j].1
            }) by {
                if j < nm {
                    assert(self.meshes@.contains_key(*vm[j].0) && self.meshes@[*vm[j].0] == *vm[j].1);
                } else {
                    let jj = j - nm;
                    assert(self.textures@.contains_key(*vt[jj].0) && self.textures@[*vt[jj].0] == *vt[jj].1);
                }
            }
            assert forall|k: u64| #[trigger] self.meshes@.contains_key(k) implies c@.contains((k, self.meshes@[k].last_used_frame, true)) by {
                assert(vm.contains((&k, &self.meshes@[k])));
                let j = choose|j: int| 0 <= j < vm.len() && vm[j] == (&k, &self.meshes@[k]);
                assert(c@[j] == (k, self.meshes@[k].last_used_frame, true));
            }
            assert forall|k: u64| #[trigger] self.textures@.contains_key(k) implies c@.contains((k, self.textures@[k].last_used_frame, false)) by {
                assert(vt.contains((&k, &self.textures@[k])));
                let j = choose|j: int| 0 <= j < vt.len() && vt[j] == (&k, &self.textures@[k]);
                assert(c@[nm + j] == (k, self.textures@[k].last_used_frame, false));
            }
        }
        c
    }

    /// Uploads the mesh `id` of `required_bytes` bytes unless it is already
    /// resident: first makes room under the budget (evicting least recently
    /// used residents), then creates the GPU object with `upload` and records
    /// it as used this frame.
    pub fn upload_mesh<F: FnOnce() -> M>(&mut self, id: AssetId, required_bytes: usize, upload: F)
        requires
            old(self).wf(),
            old(self).memory() + required_bytes <= usize::MAX,
            upload.requires(()),
        ensures
            final(self).wf(),
            final(self).frame() == old(self).frame(),
            old(self).meshes().contains_key(id.0) ==> final(self).meshes() == old(self).meshes()
                && final(self).textures() == old(self).textures(),
            !old(self).meshes().contains_key(id.0) ==> {
                &&& final(self).meshes().contains_key(id.0)
                &&& final(self).meshes()[id.0].memory_bytes == required_bytes
                &&& final(self).meshes()[id.0].last_used_frame == old(self).frame()
                &&& upload.ensures((), final(self).meshes()[id.0].resource)
                &&& evicted_lru(old(self).meshes(), old(self).textures(), final(self).meshes().remove(id.0),
                    final(self).textures(), required_bytes as int)
            },
    {
        if self.meshes.contains_key(&id.0) {
            return;
        }
        self.ensure_memory_available(required_bytes);
        let resource = upload();
        let ghost m1 = self.meshes@;
        proof {
            lemma_resident_bytes_nonneg(self.meshes@);
            lemma_resident_bytes_nonneg(self.textures@);
            if self.current_memory_bytes + required_bytes > MAX_GPU_MEMORY_BYTES {
                assert(self.meshes@.dom() =~= Set::empty());
                assert(self.textures@.dom() =~= Set::empty());
                assert(resident_bytes(self.meshes@) == 0);
                assert(resident_bytes(self.textures@) == 0);
            }
        }
        self.current_memory_bytes = self.current_memory_bytes + required_bytes;
        let entry = GpuResident { resource, memory_bytes: required_bytes, last_used_frame: self.current_frame };
        let ghost ge = entry;
        self.meshes.insert(id.0, entry);
        proof {
            lemma_resident_bytes_insert(m1, id.0, ge);
            assert(self.meshes@.remove(id.0) =~= m1);
        }
    }

    /// Makes room for `required_bytes` more bytes: evicts residents, least
    /// recently used first, until the budget has room or nothing is left.
    fn ensure_memory_available(&mut self, required_bytes: usize)
        requires
            old(self).wf(),
            old(self).memory() + required_bytes <= usize::MAX,
        ensures
            final(self).wf(),
            final(self).frame() == old(self).frame(),
            evicted_lru(old(self).meshes(), old(self).textures(), final(self).meshes(), final(self).textures(), required_bytes as int),
    {
        let ghost m0 = self.meshes@;
        let ghost t0 = self.textures@;
        if self.current_memory_bytes + required_bytes <= MAX_GPU_MEMORY_BYTES {
            return;
        }
        let mut candidates = self.collect_candidates();
        let ghost unsorted = candidates@;
        sort_by_second(&mut candidates);
        let ghost cands = candidates@;
        proof {
            assert forall|j: int| 0 <= j < cands.len() implies #[trigger] unsorted.contains(cands[j]) by {
                assert(cands.to_multiset().count(cands[j]) > 0);
            }
            assert forall|x: (u64, u64, bool)| #[trigger] unsorted.contains(x) implies cands.contains(x) by {
                assert(unsorted.to_multiset().count(x) > 0);
            }
        }
        let n = candidates.len();
        let mut i: usize = 0;
        while i < n && self.current_memory_bytes + required_bytes > MAX_GPU_MEMORY_BYTES
            invariant
                n == cands.len(),
                candidates@ == cands,
                i <= n,
                self.wf(),
                self.current_frame == old(self).current_frame,
                self.current_memory_bytes <= old(self).current_memory_bytes,
                old(self).current_memory_bytes + required_bytes <= usize::MAX,
                old(self).current_memory_bytes + required_bytes > MAX_GPU_MEMORY_BYTES,
                m0 == old(self).meshes@,
                t0 == old(self).textures@,
                m0.dom().finite(),
                t0.dom().finite(),
                forall|j: int, l: int| 0 <= j <= l < cands.len() ==> cands[j].1 <= cands[l].1,
                forall|j: int| 0 <= j < cands.len() ==> #[trigger] unsorted.contains(cands[j]),
                forall|x: (u64, u64, bool)| #[trigger] unsorted.contains(x) ==> cands.contains(x),
                forall|j: int| 0 <= j < unsorted.len() ==> (if unsorted[j].2 {
                    m0.contains_key(unsorted[j].0) && m0[unsorted[j].0].last_used_frame == unsorted[j].1
                } else {
                    t0.contains_key(unsorted[j].0) && t0[unsorted[j].0].last_used_frame == unsorted[j].1
                }),
                forall|k: u64| #[trigger] m0.contains_key(k) ==> unsorted.contains((k, m0[k].last_used_frame, true)),
                forall|k: u64| #[trigger] t0.contains_key(k) ==> unsorted.contains((k, t0[k].last_used_frame, false)),
                forall|k: u64| #[trigger] self.meshes@.contains_key(k) ==> m0.contains_key(k) && self.meshes@[k] == m0[k],
                forall|k: u64| #[trigger] self.textures@.contains_key(k) ==> t0.contains_key(k) && self.textures@[k] == t0[k],
                // Processed candidates are gone; gone residents were processed.
                forall|j: int| 0 <= j < i ==> (if cands[j].2 {
                    !self.meshes@.contains_key(#[trigger] cands[j].0)
                } else {
                    !self.textures@.contains_key(cands[j].0)
                }),
                forall|k: u64| #[trigger] m0.contains_key(k) && !self.meshes@.contains_key(k) ==>
                    exists|j: int| 0 <= j < i && cands[j] == (k, m0[k].last_used_frame, true),
                forall|k: u64| #[trigger] t0.contains_key(k) && !self.textures@.contains_key(k) ==>
                    exists|j: int| 0 <= j < i && cands[j] == (k, t0[k].last_used_frame, false),
                (self.meshes@ != m0 || self.textures@ != t0) ==> last_evicted_needed(
                    m0, t0, self.meshes@, self.textures@, self.current_memory_bytes as int, required_bytes as int),
            decreases n - i,
        {
            let (id, _, is_mesh) = candidates[i];
            let ghost before = self.current_memory_bytes;
            let ghost ms = self.meshes@;
            let ghost ts = self.textures@;
            if is_mesh {
                if let Some(r) = self.meshes.remove(&id) {
                    proof {
                        lemma_resident_bytes_remove(ms, id);
                        lemma_resident_bytes_nonneg(ts);
                    }
                    self.current_memory_bytes = self.current_memory_bytes - r.memory_bytes;
                } else {
                    proof { assert(self.meshes@ =~= ms); }
                }
            } else {
                if let Some(r) = self.textures.remove(&id) {
                    proof {
                        lemma_resident_bytes_remove(ts, id);
                        lemma_resident_bytes_nonneg(ms);
                    }
                    self.current_memory_bytes = self.current_memory_bytes - r.memory_bytes;
                } else {
                    proof { assert(self.textures@ =~= ts); }
                }
            }
            proof {
                let ii = i as int;
                assert forall|j: int| 0 <= j < ii + 1 implies (if cands[j].2 {
                    !self.meshes@.contains_key(#[trigger] cands[j].0)
                } else {
                    !self.textures@.contains_key(cands[j].0)
                }) by {
                }
                assert forall|k: u64| #[trigger] m0.contains_key(k) && !self.meshes@.contains_key(k) implies
                    exists|j: int| 0 <= j < ii + 1 && cands[j] == (k, m0[k].last_used_frame, true) by {
                    if ms.contains_key(k) {
                        assert(k == id && is_mesh);
                        assert(unsorted.contains(cands[ii]));
                        let u = choose|u: int| 0 <= u < unsorted.len() && unsorted[u] == cands[ii];
                        assert(cands[ii] == (k, m0[k].last_used_frame, true));
                    } else {
                        let j = choose|j: int| 0 <= j < ii && cands[j] == (k, m0[k].last_used_frame, true);
                        assert(0 <= j < ii + 1);
                    }
                }
                assert forall|k: u64| #[trigger] t0.contains_key(k) && !self.textures@.contains_key(k) implies
                    exists|j: int| 0 <= j < ii + 1 && cands[j] == (k, t0[k].last_used_frame, false) by {
                    if ts.contains_key(k) {
                        assert(k == id && !is_mesh);
                        assert(unsorted.contains(cands[ii]));
                        let u = choose|u: int| 0 <= u < unsorted.len() && unsorted[u] == cands[ii];
                        assert(cands[ii] == (k, t0[k].last_used_frame, false));
                    } else {
                        let j = choose|j: int| 0 <= j < ii && cands[j] == (k, t0[k].last_used_frame, false);
                        assert(0 <= j < ii + 1);
                    }
                }
                if self.meshes@ != ms {
                    assert(m0.contains_key(id) && !self.meshes@.contains_key(id));
                    assert(unsorted.contains(cands[ii]));
                    let u = choose|u: int| 0 <= u < unsorted.len() && unsorted[u] == cands[ii];
                    assert(cands[ii] == (id, m0[id].last_used_frame, true));
                    assert(self.current_memory_bytes + m0[id].memory_bytes + required_bytes > MAX_GPU_MEMORY_BYTES);
                    lemma_latest(m0, t0, self.meshes@, self.textures@, cands, ii);
                } else if self.textures@ != ts {
                    assert(t0.contains_key(id) && !self.textures@.contains_key(id));
                    assert(unsorted.contains(cands[ii]));
                    let u = choose|u: int| 0 <= u < unsorted.len() && unsorted[u] == cands[ii];
                    assert(cands[ii] == (id, t0[id].last_used_frame, false));
                    assert(self.current_memory_bytes + t0[id].memory_bytes + required_bytes > MAX_GPU_MEMORY_BYTES);
                    lemma_latest(m0, t0, self.meshes@, self.textures@, cands, ii);
                } else {
                    assert(self.meshes@ == ms && self.textures@ == ts);
                }
            }
            i = i + 1;
        }
        proof {
            lemma_eviction_done(m0, t0, self.meshes@, self.textures@, cands, unsorted, i as int, self.current_memory_bytes as int, required_bytes as int);
        }
    }

    pub fn get_mesh(&self, id: AssetId) -> (r: Option<&GpuResident<M>>)
        ensures
            r is Some <==> self.meshes().contains_key(id.0),
            r matches Some(v) ==> *v == self.meshes()[id.0],
    {
        self.meshes.get(&id.0)
    }

    pub fn get_texture(&self, id: AssetId) -> (r: Option<&GpuResident<T>>)
        ensures
            r is Some <==> self.textures().contains_key(id.0),
            r matches Some(v) ==> *v == self.textures()[id.0],
    {
        self.textures.get(&id.0)
    }
}

impl<M, T> Default for GpuResourceManager<M, T> {
    /// Nothing resident, frame 0.
    fn default() -> (g: Self)
        ensures
            g.wf(),
            g.meshes().dom().len() == 0,
            g.textures().dom().len() == 0,
            g.frame() == 0,
            g.memory() == 0,
    {
        Self::new()
    }
}

} // verus!
