use vstd::prelude::*;
use vstd::set_lib::lemma_len_subset;

use crate::chunk::{held_handle, ChunkCoordinate, ChunkRegistry, ChunkState, LifecycleError, admitted};
use crate::configuration::VoxelWorldConfig;
use crate::mesh_cache::{
    insert_all, live_in, swept, GeometryHandle, MeshCache, MeshCacheInsertBuffer,
};

verus! {

/// The chunks that hold mesh handle `h`.
pub open spec fn holders(states: Map<ChunkCoordinate, ChunkState>, h: GeometryHandle) -> Set<
    ChunkCoordinate,
> {
    states.dom().filter(|c: ChunkCoordinate| held_handle(states[c]) == Some(h))
}

/// The handle a finished chunk gets: the live cached one for its fingerprint, else the
/// next fresh one.
pub open spec fn completion_handle(cached: Option<GeometryHandle>, fresh_id: usize) -> GeometryHandle {
    match cached {
        Some(h) => h,
        None => GeometryHandle { id: fresh_id },
    }
}

/// Why a chunk could not be finished.
#[derive(Copy, Clone, Debug, PartialEq, Eq, Structural)]
pub enum WorldError {
    /// The chunk was not in the state the step needs.
    Lifecycle(LifecycleError),
    /// Every handle number has been issued.
    HandlesExhausted,
}

/// A chunk that was finished: the mesh it shows, and whether that mesh came from the cache
/// (then the freshly built one is not needed).
#[derive(Copy, Clone, Debug, PartialEq, Eq, Structural)]
pub struct CompletedChunk {
    pub handle: GeometryHandle,
    pub reused: bool,
}

/// The chunk life cycle together with the mesh cache: each spawned chunk holds a mesh
/// handle, the cache counts for each handle the chunks that hold it, and finished meshes
/// wait in a buffer until the end of the frame.
pub struct VoxelWorld {
    config: VoxelWorldConfig,
    chunks: ChunkRegistry,
    cache: MeshCache,
    pending: MeshCacheInsertBuffer,
}

impl VoxelWorld {
    /// The recorded chunk states; a chunk that is not recorded is `Unspawned`.
    pub closed spec fn states(&self) -> Map<ChunkCoordinate, ChunkState> {
        self.chunks.states()
    }

    /// The state of the chunk at `c`.
    pub open spec fn state_of(&self, c: ChunkCoordinate) -> ChunkState {
        if self.states().contains_key(c) {
            self.states()[c]
        } else {
            ChunkState::Unspawned
        }
    }

    /// The cache's entries, by fingerprint.
    pub closed spec fn cache_entries(&self) -> Map<u64, GeometryHandle> {
        self.cache.entries()
    }

    /// For each issued handle, the number of chunks holding it.
    pub closed spec fn owner_counts(&self) -> Seq<usize> {
        self.cache.owner_counts()
    }

    /// The finished meshes waiting for the end of the frame.
    pub closed spec fn pending(&self) -> Seq<(u64, GeometryHandle)> {
        self.pending@
    }

    /// The settings of the world.
    pub closed spec fn settings(&self) -> VoxelWorldConfig {
        self.config
    }

    /// What a cache lookup of `fp` gives.
    pub open spec fn lookup_spec(&self, fp: u64) -> Option<GeometryHandle> {
        if self.cache_entries().contains_key(fp) && live_in(
            self.owner_counts(),
            self.cache_entries()[fp],
        ) {
            Some(self.cache_entries()[fp])
        } else {
            None
        }
    }

    /// The parts are well formed, every handle a chunk holds was issued, and each handle's
    /// count is the number of chunks that hold it.
    pub closed spec fn wf(&self) -> bool {
        &&& self.chunks.wf()
        &&& self.cache.wf()
        &&& forall|c: ChunkCoordinate| #[trigger]
            self.chunks.states().contains_key(c) && held_handle(self.chunks.states()[c]) is Some
                ==> self.cache.issued(held_handle(self.chunks.states()[c]).unwrap())
        &&& forall|id: usize|
            id < self.cache.owner_counts().len() ==> #[trigger] self.cache.owner_counts()[id as int]
                == holders(self.chunks.states(), GeometryHandle { id }).len()
        &&& forall|i: int|
            0 <= i < self.pending@.len() ==> self.cache.issued(#[trigger] self.pending@[i].1)
    }

    /// Finitely many chunks are recorded, none of them as `Unspawned`, and every cached
    /// entry names an issued handle.
    pub proof fn lemma_states(&self)
        requires
            self.wf(),
        ensures
            self.states().dom().finite(),
            forall|c: ChunkCoordinate| #[trigger]
                self.states().contains_key(c) ==> self.states()[c] != ChunkState::Unspawned,
            forall|fp: u64| #[trigger]
                self.cache_entries().contains_key(fp) ==> self.cache_entries()[fp].id
                    < self.owner_counts().len(),
    {
        self.chunks.lemma_states();
        self.cache.lemma_entries_issued();
    }

    /// An empty world: no chunk, no mesh.
    pub fn new(config: VoxelWorldConfig) -> (r: VoxelWorld)
        ensures
            r.wf(),
            r.settings() == config,
            r.states() == Map::<ChunkCoordinate, ChunkState>::empty(),
            r.cache_entries() == Map::<u64, GeometryHandle>::empty(),
            r.owner_counts() == Seq::<usize>::empty(),
            r.pending() == Seq::<(u64, GeometryHandle)>::empty(),
    {
        VoxelWorld {
            config,
            chunks: ChunkRegistry::new(),
            cache: MeshCache::new(),
            pending: MeshCacheInsertBuffer::new(),
        }
    }

    /// The settings of the world.
    pub fn config(&self) -> (r: &VoxelWorldConfig)
        ensures
            *r == self.settings(),
    {
        &self.config
    }

    /// The chunk registry.
    pub closed spec fn registry(&self) -> ChunkRegistry {
        self.chunks
    }

    /// The chunk registry, whose states are those of the world.
    pub fn chunks(&self) -> (r: &ChunkRegistry)
        requires
            self.wf(),
        ensures
            *r == self.registry(),
            r.wf(),
            r.states() == self.states(),
    {
        &self.chunks
    }

    /// The state of the chunk at `c`.
    pub fn state(&self, c: ChunkCoordinate) -> (r: ChunkState)
        requires
            self.wf(),
        ensures
            r == self.state_of(c),
    {
        self.chunks.state(c)
    }

    /// The live mesh handle cached for fingerprint `fp`, if any.
    pub fn lookup(&self, fp: u64) -> (r: Option<GeometryHandle>)
        requires
            self.wf(),
        ensures
            r == self.lookup_spec(fp),
    {
        self.cache.get(fp)
    }

    /// Number of chunks holding `h`.
    pub fn owner_count(&self, h: GeometryHandle) -> (r: usize)
        requires
            self.wf(),
            h.id < self.owner_counts().len(),
        ensures
            r == self.owner_counts()[h.id as int],
    {
        self.cache.owner_count(h)
    }

    /// Number of finished meshes waiting for the end of the frame.
    pub fn pending_len(&self) -> (r: usize)
        ensures
            r == self.pending().len(),
    {
        self.pending.len()
    }

    /// Whether the holders of every handle are the same in `s1` and `s2`.
    proof fn lemma_holders_kept(s1: Map<ChunkCoordinate, ChunkState>, s2: Map<ChunkCoordinate, ChunkState>)
        requires
            forall|c: ChunkCoordinate|
                (s1.contains_key(c) && held_handle(s1[c]) is Some) || (s2.contains_key(c)
                    && held_handle(s2[c]) is Some) ==> #[trigger] s1.contains_key(c) && s2.contains_key(c)
                    && held_handle(s1[c]) == held_handle(s2[c]),
        ensures
            forall|h: GeometryHandle| #[trigger] holders(s1, h) == holders(s2, h),
    {
        assert forall|h: GeometryHandle| #[trigger] holders(s1, h) == holders(s2, h) by {
            assert(holders(s1, h) =~= holders(s2, h));
        }
    }

    /// Queues for spawning, in order, each candidate that is `Unspawned`, until the frame's
    /// cap `max_spawn_per_frame` is reached. Returns the queued coordinates.
    pub fn queue_spawns(&mut self, candidates: &Vec<ChunkCoordinate>) -> (r: Vec<ChunkCoordinate>)
        requires
            old(self).wf(),
        ensures
            final(self).wf(),
            r@ == admitted(old(self).states(), candidates@, old(self).settings().max_spawn_per_frame as nat),
            r@.len() <= old(self).settings().max_spawn_per_frame,
            forall|c: ChunkCoordinate|
                #[trigger] final(self).state_of(c) == if r@.contains(c) {
                    ChunkState::QueuedForSpawn
                } else {
                    old(self).state_of(c)
                },
            final(self).settings() == old(self).settings(),
            final(self).cache_entries() == old(self).cache_entries(),
            final(self).owner_counts() == old(self).owner_counts(),
            final(self).pending() == old(self).pending(),
    {
        let ghost s1 = self.chunks.states();
        let max = self.config.max_spawn_per_frame;
        let r = self.chunks.queue_spawns(candidates, max);
        proof {
            let s2 = self.chunks.states();
            self.chunks.lemma_states();
            old(self).chunks.lemma_states();
            assert forall|c: ChunkCoordinate|
                (s1.contains_key(c) && held_handle(s1[c]) is Some) || (s2.contains_key(c)
                    && held_handle(s2[c]) is Some) implies #[trigger] s1.contains_key(c)
                && s2.contains_key(c) && held_handle(s1[c]) == held_handle(s2[c]) by {
                assert(self.chunks.state_of(c) == if r@.contains(c) {
                    ChunkState::QueuedForSpawn
                } else {
                    old(self).chunks.state_of(c)
                });
            }
            Self::lemma_holders_kept(s1, s2);
            assert forall|c: ChunkCoordinate| #[trigger] self.state_of(c) == if r@.contains(c) {
                    ChunkState::QueuedForSpawn
                } else {
                    old(self).state_of(c)
                } by {
                assert(self.chunks.state_of(c) == if r@.contains(c) {
                    ChunkState::QueuedForSpawn
                } else {
                    old(self).chunks.state_of(c)
                });
            }
            assert forall|c: ChunkCoordinate| #[trigger]
                s2.contains_key(c) && held_handle(s2[c]) is Some implies self.cache.issued(
                held_handle(s2[c]).unwrap()) by {
                assert(self.chunks.state_of(c) == if r@.contains(c) {
                    ChunkState::QueuedForSpawn
                } else {
                    old(self).chunks.state_of(c)
                });
            }
            assert forall|id: usize|
                id < self.cache.owner_counts().len() implies #[trigger] self.cache.owner_counts()[id as int]
                == holders(s2, GeometryHandle { id }).len() by {
                assert(holders(s1, GeometryHandle { id }) == holders(s2, GeometryHandle { id }));
            }
        }
        r
    }

    /// A queued chunk is handed to a worker.
    pub fn start_computing(&mut self, c: ChunkCoordinate) -> (r: Result<(), LifecycleError>)
        requires
            old(self).wf(),
        ensures
            final(self).wf(),
            r is Ok == (old(self).state_of(c) == ChunkState::QueuedForSpawn),
            r is Ok ==> final(self).states() == old(self).states().insert(c, ChunkState::Computing),
            r matches Err(e) ==> e == (LifecycleError { coordinate: c, found: old(self).state_of(c) })
                && final(self).states() == old(self).states(),
            final(self).settings() == old(self).settings(),
            final(self).cache_entries() == old(self).cache_entries(),
            final(self).owner_counts() == old(self).owner_counts(),
            final(self).pending() == old(self).pending(),
    {
        let ghost s1 = self.chunks.states();
        let r = self.chunks.start_computing(c);
        proof {
            let s2 = self.chunks.states();
            self.chunks.lemma_states();
            Self::lemma_holders_kept(s1, s2);
            assert forall|id: usize|
                id < self.cache.owner_counts().len() implies #[trigger] self.cache.owner_counts()[id as int]
                == holders(s2, GeometryHandle { id }).len() by {
                assert(holders(s1, GeometryHandle { id }) == holders(s2, GeometryHandle { id }));
            }
        }
        r
    }

    /// A spawned chunk is queued for despawning; it keeps its mesh until it is gone.
    pub fn queue_despawn(&mut self, c: ChunkCoordinate) -> (r: Result<(), LifecycleError>)
        requires
            old(self).wf(),
        ensures
            final(self).wf(),
            r is Ok == (old(self).state_of(c) is Spawned),
            r is Ok ==> final(self).states() == old(self).states().insert(
                c,
                ChunkState::QueuedForDespawn(held_handle(old(self).state_of(c)).unwrap()),
            ),
            r matches Err(e) ==> e == (LifecycleError { coordinate: c, found: old(self).state_of(c) })
                && final(self).states() == old(self).states(),
            final(self).settings() == old(self).settings(),
            final(self).cache_entries() == old(self).cache_entries(),
            final(self).owner_counts() == old(self).owner_counts(),
            final(self).pending() == old(self).pending(),
    {
        let ghost s1 = self.chunks.states();
        let r = self.chunks.queue_despawn(c);
        proof {
            let s2 = self.chunks.states();
            self.chunks.lemma_states();
            Self::lemma_holders_kept(s1, s2);
            assert forall|id: usize|
                id < self.cache.owner_counts().len() implies #[trigger] self.cache.owner_counts()[id as int]
                == holders(s2, GeometryHandle { id }).len() by {
                assert(holders(s1, GeometryHandle { id }) == holders(s2, GeometryHandle { id }));
            }
            assert forall|k: ChunkCoordinate| #[trigger]
                s2.contains_key(k) && held_handle(s2[k]) is Some implies self.cache.issued(
                held_handle(s2[k]).unwrap()) by {
                assert(s1.contains_key(k));
            }
        }
        r
    }
    /// A chunk's worker has finished: the voxels it sampled have fingerprint `fingerprint`.
    /// If the cache holds a live mesh for that fingerprint the chunk shares it, else the chunk
    /// gets a fresh handle for the mesh that was built. The chunk is then spawned and the pair
    /// waits for the end of the frame to enter the cache.
    pub fn complete_chunk(&mut self, c: ChunkCoordinate, fingerprint: u64) -> (r: Result<
        CompletedChunk,
        WorldError,
    >)
        requires
            old(self).wf(),
        ensures
            final(self).wf(),
            final(self).settings() == old(self).settings(),
            final(self).cache_entries() == old(self).cache_entries(),
            r is Ok == (old(self).state_of(c) == ChunkState::Computing && (old(self).lookup_spec(
                fingerprint,
            ) is Some || old(self).owner_counts().len() < usize::MAX)),
            old(self).state_of(c) != ChunkState::Computing ==> r == Err::<CompletedChunk, WorldError>(
                WorldError::Lifecycle(LifecycleError { coordinate: c, found: old(self).state_of(c) }),
            ),
            old(self).state_of(c) == ChunkState::Computing && old(self).lookup_spec(fingerprint) is None
                && old(self).owner_counts().len() == usize::MAX ==> r == Err::<CompletedChunk, WorldError>(
                WorldError::HandlesExhausted,
            ),
            r is Err ==> final(self).states() == old(self).states() && final(self).owner_counts()
                == old(self).owner_counts() && final(self).pending() == old(self).pending(),
            r matches Ok(done) ==> {
                &&& done.handle == completion_handle(
                    old(self).lookup_spec(fingerprint),
                    old(self).owner_counts().len() as usize,
                )
                &&& done.reused == old(self).lookup_spec(fingerprint) is Some
                &&& final(self).states() == old(self).states().insert(c, ChunkState::Spawned(done.handle))
                &&& final(self).pending() == old(self).pending().push((fingerprint, done.handle))
                &&& final(self).owner_counts() == if done.reused {
                    old(self).owner_counts().update(
                        done.handle.id as int,
                        (old(self).owner_counts()[done.handle.id as int] + 1) as usize,
                    )
                } else {
                    old(self).owner_counts().push(1)
                }
            },
    {
        let found = self.chunks.state(c);
        if found != ChunkState::Computing {
            return Err(WorldError::Lifecycle(LifecycleError { coordinate: c, found }));
        }
        let n = self.chunks.len();
        let ghost s1 = self.chunks.states();
        let ghost counts1 = self.cache.owner_counts();
        proof {
            self.chunks.lemma_states();
            lemma_len_subset(s1.dom().remove(c), s1.dom());
        }
        let cached = self.cache.get(fingerprint);
        let handle: GeometryHandle;
        let reused: bool;
        match cached {
            Some(h) => {
                proof {
                    let hs = holders(s1, h);
                    assert(hs.subset_of(s1.dom().remove(c)));
                    lemma_len_subset(hs, s1.dom().remove(c));
                    assert(self.cache.owner_counts()[h.id as int] == holders(s1, GeometryHandle { id: h.id }).len());
                }
                self.cache.acquire(h);
                handle = h;
                reused = true;
            },
            None => {
                if self.cache.handle_count() == usize::MAX {
                    return Err(WorldError::HandlesExhausted);
                }
                handle = self.cache.new_handle();
                reused = false;
            },
        }
        let _ = self.chunks.finish_computing(c, handle);
        self.pending.buffer_insert(fingerprint, handle);
        proof {
            let s2 = self.chunks.states();
            self.chunks.lemma_states();
            lemma_len_subset(holders(s1, handle), s1.dom());
            assert forall|k: ChunkCoordinate| #[trigger]
                s2.contains_key(k) && held_handle(s2[k]) is Some implies self.cache.issued(
                held_handle(s2[k]).unwrap()) by {
                if k != c {
                    assert(s1.contains_key(k) && held_handle(s1[k]) is Some);
                }
            }
            assert forall|id: usize|
                id < self.cache.owner_counts().len() implies #[trigger] self.cache.owner_counts()[id as int]
                == holders(s2, GeometryHandle { id }).len() by {
                if id == handle.id {
                    assert(holders(s2, handle) =~= holders(s1, handle).insert(c));
                    if !reused {
                        assert(holders(s1, handle) =~= Set::<ChunkCoordinate>::empty());
                    }
                } else {
                    assert(holders(s2, GeometryHandle { id }) =~= holders(s1, GeometryHandle { id }));
                }
            }
            assert forall|i: int|
                0 <= i < self.pending@.len() implies self.cache.issued(#[trigger] self.pending@[i].1) by {
                if i < old(self).pending@.len() {
                    assert(old(self).pending@[i] == self.pending@[i]);
                }
            }
        }
        Ok(CompletedChunk { handle, reused })
    }

    /// A chunk queued for despawning is gone: it is `Unspawned` again and lets go of its mesh.
    /// When it was the last chunk holding that mesh, lookups of its fingerprint find nothing
    /// from now on. Returns the handle it held.
    pub fn despawn_chunk(&mut self, c: ChunkCoordinate) -> (r: Result<GeometryHandle, LifecycleError>)
        requires
            old(self).wf(),
        ensures
            final(self).wf(),
            final(self).settings() == old(self).settings(),
            final(self).cache_entries() == old(self).cache_entries(),
            final(self).pending() == old(self).pending(),
            r is Ok == (old(self).state_of(c) is QueuedForDespawn),
            r matches Ok(h) ==> Some(h) == held_handle(old(self).state_of(c))
                && final(self).states() == old(self).states().remove(c)
                && final(self).owner_counts() == old(self).owner_counts().update(
                h.id as int,
                (old(self).owner_counts()[h.id as int] - 1) as usize,
            ),
            r matches Err(e) ==> e == (LifecycleError { coordinate: c, found: old(self).state_of(c) })
                && final(self).states() == old(self).states() && final(self).owner_counts()
                == old(self).owner_counts(),
    {
        let ghost s1 = self.chunks.states();
        proof {
            self.chunks.lemma_states();
        }
        match self.chunks.finish_despawn(c) {
            Err(e) => Err(e),
            Ok(h) => {
                proof {
                    assert(s1.contains_key(c) && held_handle(s1[c]) is Some);
                    lemma_len_subset(holders(s1, h), s1.dom());
                    assert(holders(s1, h).contains(c));
                    assert(self.cache.owner_counts()[h.id as int] == holders(s1, GeometryHandle { id: h.id }).len());
                }
                self.cache.release(h);
                proof {
                    let s2 = self.chunks.states();
                    assert forall|id: usize|
                        id < self.cache.owner_counts().len() implies #[trigger] self.cache.owner_counts()[id as int]
                        == holders(s2, GeometryHandle { id }).len() by {
                        if id == h.id {
                            assert(holders(s2, h) =~= holders(s1, h).remove(c));
                        } else {
                            assert(holders(s2, GeometryHandle { id }) =~= holders(s1, GeometryHandle { id }));
                        }
                    }
                    assert forall|k: ChunkCoordinate| #[trigger]
                        s2.contains_key(k) && held_handle(s2[k]) is Some implies self.cache.issued(
                        held_handle(s2[k]).unwrap()) by {
                        assert(s1.contains_key(k));
                    }
                }
                Ok(h)
            },
        }
    }

    /// The once-per-frame merge: the waiting meshes enter the cache in order, then the entries
    /// whose mesh no chunk holds are dropped. With nothing waiting nothing changes.
    pub fn end_frame(&mut self)
        requires
            old(self).wf(),
        ensures
            final(self).wf(),
            final(self).settings() == old(self).settings(),
            final(self).states() == old(self).states(),
            final(self).owner_counts() == old(self).owner_counts(),
            old(self).pending().len() == 0 ==> final(self).cache_entries() == old(self).cache_entries()
                && final(self).pending() == old(self).pending(),
            old(self).pending().len() > 0 ==> final(self).cache_entries() == swept(
                insert_all(old(self).cache_entries(), old(self).pending()),
                old(self).owner_counts(),
            ) && final(self).pending().len() == 0,
    {
        self.cache.apply_buffers(&mut self.pending);
    }
}

/// Once no chunk holds the mesh remembered for `fp`, a lookup of `fp` finds nothing.
pub proof fn lemma_unheld_mesh_not_found(w: &VoxelWorld, fp: u64)
    requires
        w.wf(),
        w.cache_entries().contains_key(fp),
        forall|c: ChunkCoordinate| held_handle(#[trigger] w.state_of(c)) != Some(w.cache_entries()[fp]),
    ensures
        w.lookup_spec(fp) is None,
{
    let h = w.cache_entries()[fp];
    if live_in(w.owner_counts(), h) {
        assert(w.cache.owner_counts()[h.id as int] == holders(w.chunks.states(), GeometryHandle { id: h.id }).len());
        assert forall|c: ChunkCoordinate| !holders(w.chunks.states(), h).contains(c) by {
            assert(held_handle(w.state_of(c)) != Some(h));
        }
        assert(holders(w.chunks.states(), h) =~= Set::<ChunkCoordinate>::empty());
    }
}

/// After the merge at the end of a frame, every entry left in the cache names a mesh that
/// some chunk holds.
pub proof fn lemma_merge_keeps_only_held(w: &VoxelWorld, fp: u64)
    requires
        w.wf(),
        w.cache_entries() == swept(w.cache_entries(), w.owner_counts()),
        w.cache_entries().contains_key(fp),
    ensures
        w.lookup_spec(fp) == Some(w.cache_entries()[fp]),
        exists|c: ChunkCoordinate| held_handle(#[trigger] w.state_of(c)) == Some(w.cache_entries()[fp]),
{
    let h = w.cache_entries()[fp];
    assert(swept(w.cache_entries(), w.owner_counts()).contains_key(fp));
    assert(w.cache.owner_counts()[h.id as int] == holders(w.chunks.states(), GeometryHandle { id: h.id }).len());
    w.chunks.lemma_states();
    lemma_len_subset(holders(w.chunks.states(), h), w.chunks.states().dom());
    if forall|c: ChunkCoordinate| held_handle(#[trigger] w.state_of(c)) != Some(h) {
        assert forall|c: ChunkCoordinate| !holders(w.chunks.states(), h).contains(c) by {
            assert(held_handle(w.state_of(c)) != Some(h));
        }
        assert(holders(w.chunks.states(), h) =~= Set::<ChunkCoordinate>::empty());
    }
}

/// A chunk despawned and spawned again with the same voxels reuses the mesh it had, as long
/// as another chunk still holds that mesh: despawning leaves the cache entry live, so the
/// fresh completion takes the cached handle.
pub proof fn lemma_respawn_reuses_mesh(
    before: &VoxelWorld,
    after: &VoxelWorld,
    c: ChunkCoordinate,
    other: ChunkCoordinate,
    fp: u64,
    fresh_id: usize,
)
    requires
        before.wf(),
        after.wf(),
        after.states() == before.states().remove(c),
        after.cache_entries() == before.cache_entries(),
        before.cache_entries().contains_key(fp),
        other != c,
        held_handle(before.state_of(other)) == Some(before.cache_entries()[fp]),
    ensures
        after.lookup_spec(fp) == Some(before.cache_entries()[fp]),
        completion_handle(after.lookup_spec(fp), fresh_id) == before.cache_entries()[fp],
{
    let h = before.cache_entries()[fp];
    assert(after.state_of(other) == before.state_of(other));
    assert(after.cache.issued(h));
    after.chunks.lemma_states();
    lemma_len_subset(holders(after.chunks.states(), h), after.chunks.states().dom());
    assert(holders(after.chunks.states(), h).contains(other));
    assert(after.cache.owner_counts()[h.id as int] == holders(after.chunks.states(), GeometryHandle { id: h.id }).len());
}

} // verus!
