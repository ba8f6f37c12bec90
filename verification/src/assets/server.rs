//! The asset server's registry: one id per asset path, each path's load
//! state, and the memory its loaded assets use.
use vstd::prelude::*;
use crate::assets::format::CanAsset;
use crate::assets::handle::{AssetId, Handle};
use crate::outside::hash_tables::{path_index_contents, path_index_get, path_index_insert, path_index_new, PathIndex};

verus! {

/// Where an asset is in its loading.
#[derive(Debug, Clone, PartialEq, Eq)]
pub enum LoadState {
    /// Load requested but not yet started.
    Queued,
    /// Being read from disk.
    Loading,
    /// Loaded.
    Ready,
    /// Load failed, with the error's message.
    Failed(String),
}

/// Why an asset could not be loaded.
#[derive(Debug)]
pub enum AssetError {
    /// Reading the file at the path failed.
    Io(String, std::io::Error),
    /// The file is not a valid asset; the message says why.
    Format(String),
    NotFound(String),
}

/// A copy of a load state.
fn copy_state(s: &LoadState) -> (r: LoadState)
    ensures
        r == *s,
{
    match s {
        LoadState::Queued => LoadState::Queued,
        LoadState::Loading => LoadState::Loading,
        LoadState::Ready => LoadState::Ready,
        LoadState::Failed(m) => LoadState::Failed(m.clone()),
    }
}

/// What the registry knows of one path.
pub struct AssetRecord {
    pub id: u64,
    pub state: LoadState,
    /// Bytes the loaded asset takes.
    pub memory_bytes: usize,
}

/// Registered asset paths: entry `i` holds the path, state and size of the
/// asset whose id is `i + 1`.
pub struct AssetRegistry {
    index: PathIndex,
    paths: Vec<String>,
    states: Vec<LoadState>,
    sizes: Vec<usize>,
    used_bytes: usize,
}

impl View for AssetRegistry {
    type V = Map<Seq<char>, AssetRecord>;

    closed spec fn view(&self) -> Map<Seq<char>, AssetRecord> {
        let m = path_index_contents(self.index);
        Map::new(
            |p: Seq<char>| m.contains_key(p),
            |p: Seq<char>| AssetRecord {
                id: (m[p] + 1) as u64,
                state: self.states@[m[p] as int],
                memory_bytes: self.sizes@[m[p] as int],
            },
        )
    }
}

impl AssetRegistry {
    /// The entries agree with the path index.
    pub closed spec fn wf(&self) -> bool {
        let m = path_index_contents(self.index);
        &&& self.states@.len() == self.paths@.len()
        &&& self.sizes@.len() == self.paths@.len()
        &&& forall|p: Seq<char>| #[trigger] m.contains_key(p) ==> m[p] < self.paths@.len() && self.paths@[m[p] as int]@ == p
        &&& forall|i: int| 0 <= i < self.paths@.len() ==> m.contains_key(#[trigger] self.paths@[i]@) && m[self.paths@[i]@] == i
    }

    /// Number of registered paths.
    pub closed spec fn count(&self) -> nat {
        self.paths@.len()
    }

    /// Bytes used by loaded assets.
    pub closed spec fn used(&self) -> nat {
        self.used_bytes as nat
    }

    /// An empty registry.
    pub fn new() -> (r: Self)
        ensures
            r.wf(),
            r@ == Map::<Seq<char>, AssetRecord>::empty(),
            r.count() == 0,
            r.used() == 0,
    {
        let r = AssetRegistry {
            index: path_index_new(),
            paths: Vec::new(),
            states: Vec::new(),
            sizes: Vec::new(),
            used_bytes: 0,
        };
        assert(r@ =~= Map::<Seq<char>, AssetRecord>::empty());
        r
    }

    /// A handle for `path`: the id it already has, or else a new id, with
    /// the asset queued for loading.
    pub fn register(&mut self, path: &str) -> (h: Handle<CanAsset>)
        requires
            old(self).wf(),
            old(self).count() < usize::MAX,
        ensures
            final(self).wf(),
            final(self).used() == old(self).used(),
            old(self)@.contains_key(path@) ==> final(self)@ == old(self)@
                && final(self).count() == old(self).count()
                && h.asset().0 == old(self)@[path@].id,
            !old(self)@.contains_key(path@) ==> final(self)@ == old(self)@.insert(
                path@,
                AssetRecord { id: h.asset().0, state: LoadState::Queued, memory_bytes: 0 },
            ) && final(self).count() == old(self).count() + 1,
            h.asset().0 != 0,
            forall|p: Seq<char>| #[trigger] old(self)@.contains_key(p) && p != path@ ==> old(self)@[p].id != h.asset().0,
    {
        match path_index_get(&self.index, path) {
            Some(i) => {
                let h = Handle::new(AssetId((i + 1) as u64));
                proof {
                    let m = path_index_contents(self.index);
                    assert forall|p: Seq<char>| #[trigger] self@.contains_key(p) && p != path@ implies self@[p].id != h.asset().0 by {
                        assert(self.paths@[m[p] as int]@ == p);
                    }
                }
                h
            },
            None => {
                let n = self.paths.len();
                let ghost old_self = *self;
                let ghost m = path_index_contents(self.index);
                let owned = path.to_string();
                self.paths.push(owned.clone());
                self.states.push(LoadState::Queued);
                self.sizes.push(0);
                path_index_insert(&mut self.index, owned, n);
                let h = Handle::new(AssetId((n + 1) as u64));
                proof {
                    let m2 = path_index_contents(self.index);
                    assert(m2 == m.insert(path@, n));
                    assert forall|p: Seq<char>| #[trigger] m2.contains_key(p) implies m2[p] < self.paths@.len()
                        && self.paths@[m2[p] as int]@ == p by {
                        if p != path@ {
                            assert(self.paths@[m[p] as int] == old_self.paths@[m[p] as int]);
                        }
                    }
                    assert forall|i: int| 0 <= i < self.paths@.len() implies m2.contains_key(#[trigger] self.paths@[i]@)
                        && m2[self.paths@[i]@] == i by {
                        if i < n {
                            assert(self.paths@[i] == old_self.paths@[i]);
                            assert(old_self.paths@[i]@ != path@);
                        }
                    }
                    assert(self@ =~= old_self@.insert(
                        path@,
                        AssetRecord { id: h.asset().0, state: LoadState::Queued, memory_bytes: 0 },
                    )) by {
                        assert forall|p: Seq<char>| #[trigger] self@.contains_key(p) && p != path@ implies
                            self@[p] == old_self@[p] by {
                            assert(self.states@[m[p] as int] == old_self.states@[m[p] as int]);
                            assert(self.sizes@[m[p] as int] == old_self.sizes@[m[p] as int]);
                        }
                    }
                    assert forall|p: Seq<char>| #[trigger] old_self@.contains_key(p) && p != path@ implies
                        old_self@[p].id != h.asset().0 by {
                    }
                }
                h
            },
        }
    }

    /// Starts a load of the asset at `path`: registers it, and says whether
    /// its file still has to be read. An asset already loaded is neither
    /// read nor counted again: the registry is left as it was.
    pub fn begin_load(&mut self, path: &str) -> (r: (Handle<CanAsset>, bool))
        requires
            old(self).wf(),
            old(self).count() < usize::MAX,
        ensures
            final(self).wf(),
            final(self).used() == old(self).used(),
            r.1 == !(old(self)@.contains_key(path@) && old(self)@[path@].state is Ready),
            old(self)@.contains_key(path@) ==> final(self)@ == old(self)@
                && final(self).count() == old(self).count()
                && r.0.asset().0 == old(self)@[path@].id,
            !old(self)@.contains_key(path@) ==> final(self)@ == old(self)@.insert(
                path@,
                AssetRecord { id: r.0.asset().0, state: LoadState::Queued, memory_bytes: 0 },
            ) && final(self).count() == old(self).count() + 1,
            r.0.asset().0 != 0,
            forall|p: Seq<char>| #[trigger] old(self)@.contains_key(p) && p != path@ ==> old(self)@[p].id != r.0.asset().0,
    {
        let h = self.register(path);
        let ready = self.is_ready(path);
        (h, !ready)
    }

    /// Whether the asset at `path` is registered and loaded.
    pub fn is_ready(&self, path: &str) -> (b: bool)
        requires
            self.wf(),
        ensures
            b == (self@.contains_key(path@) && self@[path@].state is Ready),
    {
        match path_index_get(&self.index, path) {
            Some(i) => match self.states[i] {
                LoadState::Ready => true,
                _ => false,
            },
            None => false,
        }
    }

    /// Records that the asset at `path` was loaded and takes `bytes` bytes:
    /// a registered path becomes ready with that size; the bytes count
    /// towards the memory in use either way.
    pub fn record_loaded(&mut self, path: &str, bytes: usize)
        requires
            old(self).wf(),
            old(self).used() + bytes <= usize::MAX,
        ensures
            final(self).wf(),
            final(self).count() == old(self).count(),
            final(self).used() == old(self).used() + bytes,
            old(self)@.contains_key(path@) ==> final(self)@ == old(self)@.insert(
                path@,
                AssetRecord { id: old(self)@[path@].id, state: LoadState::Ready, memory_bytes: bytes },
            ),
            !old(self)@.contains_key(path@) ==> final(self)@ == old(self)@,
    {
        let ghost old_self = *self;
        if let Some(i) = path_index_get(&self.index, path) {
            self.states.set(i, LoadState::Ready);
            self.sizes.set(i, bytes);
            proof {
                let m = path_index_contents(self.index);
                assert(self@ =~= old_self@.insert(
                    path@,
                    AssetRecord { id: old_self@[path@].id, state: LoadState::Ready, memory_bytes: bytes },
                )) by {
                    assert forall|p: Seq<char>| #[trigger] self@.contains_key(p) && p != path@ implies
                        self@[p] == old_self@[p] by {
                        assert(m[p] != i) by {
                            assert(self.paths@[m[p] as int]@ == p);
                        }
                    }
                }
            }
        } else {
            assert(self@ =~= old_self@);
        }
        self.used_bytes = self.used_bytes + bytes;
        proof {
            assert(self@ =~= old_self@ || old_self@.contains_key(path@));
        }
    }

    /// Records that loading the asset at `path` failed with `message`.
    pub fn record_failed(&mut self, path: &str, message: String)
        requires
            old(self).wf(),
        ensures
            final(self).wf(),
            final(self).count() == old(self).count(),
            final(self).used() == old(self).used(),
            old(self)@.contains_key(path@) ==> final(self)@ == old(self)@.insert(
                path@,
                AssetRecord {
                    id: old(self)@[path@].id,
                    state: LoadState::Failed(message),
                    memory_bytes: old(self)@[path@].memory_bytes,
                },
            ),
            !old(self)@.contains_key(path@) ==> final(self)@ == old(self)@,
    {
        let ghost old_self = *self;
        if let Some(i) = path_index_get(&self.index, path) {
            self.states.set(i, LoadState::Failed(message));
            proof {
                let m = path_index_contents(self.index);
                assert forall|p: Seq<char>| #[trigger] self@.contains_key(p) && p != path@ implies
                    self@[p] == old_self@[p] by {
                    assert(m[p] != i) by {
                        assert(self.paths@[m[p] as int]@ == p);
                    }
                }
            }
        }
        proof {
            assert(self@ =~= old_self@ || old_self@.contains_key(path@));
        }
    }

    /// The load state of the asset with the handle's id; `Queued` for an id
    /// that no path has.
    pub fn load_state(&self, handle: &Handle<CanAsset>) -> (s: LoadState)
        requires
            self.wf(),
        ensures
            (exists|p: Seq<char>| #[trigger] self@.contains_key(p) && self@[p].id == handle.asset().0) ==>
                (forall|p: Seq<char>| #[trigger] self@.contains_key(p) && self@[p].id == handle.asset().0 ==> s == self@[p].state),
            !(exists|p: Seq<char>| #[trigger] self@.contains_key(p) && self@[p].id == handle.asset().0) ==> s == LoadState::Queued,
    {
        let k = handle.asset_id().0;
        let n = self.paths.len();
        if 1 <= k && k <= n as u64 {
            let i = (k - 1) as usize;
            let s = copy_state(&self.states[i]);
            proof {
                let m = path_index_contents(self.index);
                let q = self.paths@[i as int]@;
                assert(self@.contains_key(q) && self@[q].id == k);
                assert forall|p: Seq<char>| #[trigger] self@.contains_key(p) && self@[p].id == handle.asset().0 implies
                    s == self@[p].state by {
                    assert(m[p] == i);
                }
            }
            s
        } else {
            proof {
                let m = path_index_contents(self.index);
                assert forall|p: Seq<char>| #[trigger] self@.contains_key(p) implies self@[p].id != handle.asset().0 by {
                    assert(m[p] < self.paths@.len());
                    assert(m[p] + 1 <= n);
                    assert(self@[p].id == m[p] + 1);
                }
            }
            LoadState::Queued
        }
    }

    /// Total bytes used by loaded assets.
    pub fn used_memory_bytes(&self) -> (n: usize)
        ensures
            n == self.used(),
    {
        self.used_bytes
    }

    /// Number of registered paths.
    pub fn registered_count(&self) -> (n: usize)
        ensures
            n == self.count(),
    {
        self.paths.len()
    }
}

} // verus!
