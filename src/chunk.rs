use vstd::prelude::*;

use crate::mesh_cache::GeometryHandle;

verus! {

/// Position of a chunk in the grid of chunks.
#[derive(Copy, Clone, Debug, Hash, PartialEq, Eq, Structural)]
pub struct ChunkCoordinate {
    pub x: i32,
    pub y: i32,
    pub z: i32,
}

/// Where a chunk stands in its life cycle. A spawned chunk, and one waiting to be despawned,
/// holds the handle of the mesh it shows.
#[derive(Copy, Clone, Debug, PartialEq, Eq, Structural)]
pub enum ChunkState {
    Unspawned,
    QueuedForSpawn,
    Computing,
    Spawned(GeometryHandle),
    QueuedForDespawn(GeometryHandle),
}

/// The mesh handle that a chunk in state `s` holds, if any.
pub open spec fn held_handle(s: ChunkState) -> Option<GeometryHandle> {
    match s {
        ChunkState::Spawned(h) => Some(h),
        ChunkState::QueuedForDespawn(h) => Some(h),
        _ => None,
    }
}

/// A transition that the chunk's current state does not allow.
#[derive(Copy, Clone, Debug, PartialEq, Eq, Structural)]
pub struct LifecycleError {
    /// The chunk that was asked to move.
    pub coordinate: ChunkCoordinate,
    /// The state it was found in.
    pub found: ChunkState,
}

/// The coordinates that `ChunkRegistry::queue_spawns` admits: in order, each candidate that is
/// unspawned and not admitted already, until `cap` are admitted.
pub open spec fn admitted(
    states: Map<ChunkCoordinate, ChunkState>,
    candidates: Seq<ChunkCoordinate>,
    cap: nat,
) -> Seq<ChunkCoordinate>
    decreases candidates.len(),
{
    if candidates.len() == 0 {
        Seq::empty()
    } else {
        let prev = admitted(states, candidates.drop_last(), cap);
        let c = candidates.last();
        if prev.len() < cap && !states.contains_key(c) && !prev.contains(c) {
            prev.push(c)
        } else {
            prev
        }
    }
}

/// No more than `cap` coordinates are admitted, each at most once, and each was unspawned.
pub proof fn lemma_admitted_bounded(
    states: Map<ChunkCoordinate, ChunkState>,
    candidates: Seq<ChunkCoordinate>,
    cap: nat,
)
    ensures
        admitted(states, candidates, cap).len() <= cap,
        admitted(states, candidates, cap).no_duplicates(),
        forall|k: int|
            0 <= k < admitted(states, candidates, cap).len() ==> !states.contains_key(
                #[trigger] admitted(states, candidates, cap)[k],
            ),
    decreases candidates.len(),
{
    if candidates.len() > 0 {
        lemma_admitted_bounded(states, candidates.drop_last(), cap);
    }
}

/// The state of every chunk. Only chunks that are not `Unspawned` are recorded, each once.
pub struct ChunkRegistry {
    entries: Vec<(ChunkCoordinate, ChunkState)>,
    map: Ghost<Map<ChunkCoordinate, ChunkState>>,
}

impl ChunkRegistry {
    /// The recorded chunks and their states; a chunk that is not recorded is `Unspawned`.
    pub closed spec fn states(&self) -> Map<ChunkCoordinate, ChunkState> {
        self.map@
    }

    /// The records, one per chunk that is not `Unspawned`.
    pub closed spec fn records(&self) -> Seq<(ChunkCoordinate, ChunkState)> {
        self.entries@
    }

    /// The state of the chunk at `c`.
    pub open spec fn state_of(&self, c: ChunkCoordinate) -> ChunkState {
        if self.states().contains_key(c) {
            self.states()[c]
        } else {
            ChunkState::Unspawned
        }
    }

    /// One record per coordinate, agreeing with `states`, none of them `Unspawned`.
    pub closed spec fn wf(&self) -> bool {
        &&& forall|i: int, j: int|
            0 <= i < j < self.entries@.len() ==> #[trigger] self.entries@[i].0
                != #[trigger] self.entries@[j].0
        &&& forall|i: int|
            0 <= i < self.entries@.len() ==> self.map@.contains_key(#[trigger] self.entries@[i].0)
                && self.map@[self.entries@[i].0] == self.entries@[i].1
        &&& forall|c: ChunkCoordinate| #[trigger]
            self.map@.contains_key(c) ==> exists|i: int|
                0 <= i < self.entries@.len() && #[trigger] self.entries@[i].0 == c
        &&& forall|c: ChunkCoordinate| #[trigger]
            self.map@.contains_key(c) ==> self.map@[c] != ChunkState::Unspawned
        &&& self.map@.dom().finite()
    }

    /// A registry in which every chunk is unspawned.
    pub fn new() -> (r: ChunkRegistry)
        ensures
            r.wf(),
            r.states() == Map::<ChunkCoordinate, ChunkState>::empty(),
    {
        ChunkRegistry { entries: Vec::new(), map: Ghost(Map::empty()) }
    }

    /// Number of chunks that are not `Unspawned`.
    pub fn len(&self) -> (r: usize)
        requires
            self.wf(),
        ensures
            r == self.states().dom().len(),
    {
        proof {
            self.lemma_len();
        }
        self.entries.len()
    }

    proof fn lemma_len(&self)
        requires
            self.wf(),
        ensures
            self.map@.dom().len() == self.entries@.len(),
        decreases self.entries@.len(),
    {
        let keys = self.entries@.map_values(|e: (ChunkCoordinate, ChunkState)| e.0);
        assert forall|i: int, j: int| 0 <= i < j < keys.len() implies keys[i] != keys[j] by {
            assert(self.entries@[i].0 != self.entries@[j].0);
        }
        assert(keys.no_duplicates());
        keys.unique_seq_to_set();
        assert forall|c: ChunkCoordinate| self.map@.dom().contains(c) == keys.to_set().contains(c) by {
            if self.map@.contains_key(c) {
                let i = choose|i: int| 0 <= i < self.entries@.len() && #[trigger] self.entries@[i].0 == c;
                assert(keys[i] == c);
            }
            if keys.to_set().contains(c) {
                let i = choose|i: int| 0 <= i < keys.len() && keys[i] == c;
                assert(self.entries@[i].0 == c);
            }
        }
        assert(self.map@.dom() =~= keys.to_set());
    }

    /// What a well-formed registry guarantees of its states: finitely many chunks are
    /// recorded, none of them as `Unspawned`.
    pub proof fn lemma_states(&self)
        requires
            self.wf(),
        ensures
            self.states().dom().finite(),
            forall|c: ChunkCoordinate| #[trigger]
                self.states().contains_key(c) ==> self.states()[c] != ChunkState::Unspawned,
    {
    }

    /// Number of records.
    pub fn record_count(&self) -> (r: usize)
        ensures
            r == self.records().len(),
    {
        self.entries.len()
    }

    /// The record at position `i`.
    pub fn record(&self, i: usize) -> (r: (ChunkCoordinate, ChunkState))
        requires
            i < self.records().len(),
        ensures
            r == self.records()[i as int],
    {
        self.entries[i]
    }

    /// Position in `entries` of the record for `c`, if there is one.
    fn find(&self, c: ChunkCoordinate) -> (r: Option<usize>)
        requires
            self.wf(),
        ensures
            r is None ==> !self.states().contains_key(c),
            r matches Some(i) ==> i < self.entries@.len() && self.entries@[i as int].0 == c,
    {
        let mut i: usize = 0;
        while i < self.entries.len()
            invariant
                self.wf(),
                i <= self.entries@.len(),
                forall|j: int| 0 <= j < i ==> self.entries@[j].0 != c,
            decreases self.entries@.len() - i,
        {
            if self.entries[i].0 == c {
                return Some(i);
            }
            i = i + 1;
        }
        None
    }

    /// The state of the chunk at `c`.
    pub fn state(&self, c: ChunkCoordinate) -> (r: ChunkState)
        requires
            self.wf(),
        ensures
            r == self.state_of(c),
    {
        match self.find(c) {
            None => ChunkState::Unspawned,
            Some(i) => self.entries[i].1,
        }
    }

    /// Records state `s` for `c`, which must not be `Unspawned`.
    fn put(&mut self, c: ChunkCoordinate, s: ChunkState)
        requires
            old(self).wf(),
            s != ChunkState::Unspawned,
        ensures
            final(self).wf(),
            final(self).states() == old(self).states().insert(c, s),
    {
        let ghost old_entries = self.entries@;
        match self.find(c) {
            Some(i) => {
                self.entries.set(i, (c, s));
                self.map = Ghost(self.map@.insert(c, s));
                assert forall|k: ChunkCoordinate| #[trigger]
                    self.map@.contains_key(k) implies exists|j: int|
                        0 <= j < self.entries@.len() && #[trigger] self.entries@[j].0 == k by {
                    if k != c {
                        let j = choose|j: int|
                            0 <= j < old_entries.len() && #[trigger] old_entries[j].0 == k;
                        assert(self.entries@[j].0 == k);
                    } else {
                        assert(self.entries@[i as int].0 == k);
                    }
                }
            },
            None => {
                self.entries.push((c, s));
                self.map = Ghost(self.map@.insert(c, s));
                assert forall|k: ChunkCoordinate| #[trigger]
                    self.map@.contains_key(k) implies exists|j: int|
                        0 <= j < self.entries@.len() && #[trigger] self.entries@[j].0 == k by {
                    if k != c {
                        let j = choose|j: int|
                            0 <= j < old_entries.len() && #[trigger] old_entries[j].0 == k;
                        assert(self.entries@[j].0 == k);
                    } else {
                        assert(self.entries@[old_entries.len() as int].0 == k);
                    }
                }
            },
        }
    }

    /// Forgets the record at position `i`: its chunk is `Unspawned` again.
    fn forget(&mut self, i: usize)
        requires
            old(self).wf(),
            i < old(self).entries@.len(),
        ensures
            final(self).wf(),
            final(self).states() == old(self).states().remove(old(self).entries@[i as int].0),
    {
        let ghost old_entries = self.entries@;
        let ghost c = old_entries[i as int].0;
        let ghost last = old_entries.len() - 1;
        self.entries.swap_remove(i);
        self.map = Ghost(self.map@.remove(c));
        assert forall|a: int| 0 <= a < self.entries@.len() implies #[trigger] self.entries@[a]
            == old_entries[if a == i { last } else { a }] by {}
        assert forall|a: int, b: int|
            0 <= a < b < self.entries@.len() implies #[trigger] self.entries@[a].0
                != #[trigger] self.entries@[b].0 by {
            assert(self.entries@[a] == old_entries[if a == i { last } else { a }]);
            assert(self.entries@[b] == old_entries[if b == i { last } else { b }]);
        }
        assert forall|a: int| 0 <= a < self.entries@.len() implies self.map@.contains_key(
            #[trigger] self.entries@[a].0,
        ) && self.map@[self.entries@[a].0] == self.entries@[a].1 by {
            let src = if a == i { last } else { a };
            assert(self.entries@[a] == old_entries[src]);
            assert(old_entries[src].0 != old_entries[i as int].0);
        }
        assert forall|k: ChunkCoordinate| #[trigger]
            self.map@.contains_key(k) implies exists|a: int|
                0 <= a < self.entries@.len() && #[trigger] self.entries@[a].0 == k by {
            let j = choose|j: int| 0 <= j < old_entries.len() && #[trigger] old_entries[j].0 == k;
            if j == last {
                assert(self.entries@[i as int].0 == k);
            } else {
                assert(self.entries@[j].0 == k);
            }
        }
    }

    /// Queues for spawning, in order, each candidate that is `Unspawned`, until
    /// `max_spawn_per_frame` are queued. Returns the queued coordinates; the other candidates
    /// are left as they were, to be offered again in a later frame.
    pub fn queue_spawns(&mut self, candidates: &Vec<ChunkCoordinate>, max_spawn_per_frame: usize) -> (r: Vec<
        ChunkCoordinate,
    >)
        requires
            old(self).wf(),
        ensures
            final(self).wf(),
            r@ == admitted(old(self).states(), candidates@, max_spawn_per_frame as nat),
            r@.len() <= max_spawn_per_frame,
            r@.no_duplicates(),
            forall|k: int| 0 <= k < r@.len() ==> old(self).state_of(#[trigger] r@[k]) == ChunkState::Unspawned,
            forall|c: ChunkCoordinate|
                #[trigger] final(self).state_of(c) == if r@.contains(c) {
                    ChunkState::QueuedForSpawn
                } else {
                    old(self).state_of(c)
                },
    {
        let ghost start = self.map@;
        let mut out: Vec<ChunkCoordinate> = Vec::new();
        let mut i: usize = 0;
        while i < candidates.len()
            invariant
                self.wf(),
                i <= candidates@.len(),
                out@ == admitted(start, candidates@.subrange(0, i as int), max_spawn_per_frame as nat),
                forall|c: ChunkCoordinate|
                    #[trigger] self.map@.contains_key(c) == (start.contains_key(c) || out@.contains(c)),
                forall|c: ChunkCoordinate|
                    #[trigger] self.map@.contains_key(c) ==> self.map@[c] == if out@.contains(c) {
                        ChunkState::QueuedForSpawn
                    } else {
                        start[c]
                    },
            decreases candidates@.len() - i,
        {
            let c = candidates[i];
            proof {
                let s = candidates@.subrange(0, i + 1);
                assert(s.drop_last() =~= candidates@.subrange(0, i as int));
                assert(s.last() == c);
                lemma_admitted_bounded(start, candidates@.subrange(0, i as int), max_spawn_per_frame as nat);
            }
            if out.len() < max_spawn_per_frame {
                match self.find(c) {
                    None => {
                        proof {
                            assert(!start.contains_key(c) && !out@.contains(c));
                        }
                        let ghost prev = out@;
                        self.put(c, ChunkState::QueuedForSpawn);
                        out.push(c);
                        proof {
                            assert forall|k: ChunkCoordinate| #[trigger] out@.contains(k) == (prev.contains(k) || k == c) by {
                                if prev.contains(k) {
                                    let j = choose|j: int| 0 <= j < prev.len() && prev[j] == k;
                                    assert(out@[j] == k);
                                }
                                if k == c {
                                    assert(out@[prev.len() as int] == k);
                                }
                            }
                        }
                    },
                    Some(_) => {},
                }
            }
            i = i + 1;
        }
        proof {
            assert(candidates@.subrange(0, i as int) =~= candidates@);
            lemma_admitted_bounded(start, candidates@, max_spawn_per_frame as nat);
        }
        out
    }

    /// Moves the chunk at `c` from `from` to `to`, or reports the state it was found in.
    fn transition(&mut self, c: ChunkCoordinate, from: ChunkState, to: ChunkState) -> (r: Result<
        (),
        LifecycleError,
    >)
        requires
            old(self).wf(),
            from != ChunkState::Unspawned,
            to != ChunkState::Unspawned,
        ensures
            final(self).wf(),
            r is Ok == (old(self).state_of(c) == from),
            r is Ok ==> final(self).states() == old(self).states().insert(c, to),
            r matches Err(e) ==> e == (LifecycleError { coordinate: c, found: old(self).state_of(c) })
                && final(self).states() == old(self).states(),
    {
        let found = self.state(c);
        if found == from {
            self.put(c, to);
            Ok(())
        } else {
            Err(LifecycleError { coordinate: c, found })
        }
    }

    /// A queued chunk is handed to a worker.
    pub fn start_computing(&mut self, c: ChunkCoordinate) -> (r: Result<(), LifecycleError>)
        requires
            old(self).wf(),
        ensures
            final(self).wf(),
            r is Ok == (old(self).state_of(c) == ChunkState::QueuedForSpawn),
            r is Ok ==> final(self).states() == old(self).states().insert(c, ChunkState::Computing),
            r matches Err(e) ==> e == (LifecycleError { coordinate: c, found: old(self).state_of(c) })
                && final(self).states() == old(self).states(),
    {
        self.transition(c, ChunkState::QueuedForSpawn, ChunkState::Computing)
    }

    /// A computed chunk is spawned, showing the mesh `h`.
    pub fn finish_computing(&mut self, c: ChunkCoordinate, h: GeometryHandle) -> (r: Result<(), LifecycleError>)
        requires
            old(self).wf(),
        ensures
            final(self).wf(),
            r is Ok == (old(self).state_of(c) == ChunkState::Computing),
            r is Ok ==> final(self).states() == old(self).states().insert(c, ChunkState::Spawned(h)),
            r matches Err(e) ==> e == (LifecycleError { coordinate: c, found: old(self).state_of(c) })
                && final(self).states() == old(self).states(),
    {
        self.transition(c, ChunkState::Computing, ChunkState::Spawned(h))
    }

    /// A spawned chunk is queued for despawning; it keeps its mesh until it is gone.
    pub fn queue_despawn(&mut self, c: ChunkCoordinate) -> (r: Result<(), LifecycleError>)
        requires
            old(self).wf(),
        ensures
            final(self).wf(),
            r is Ok == (old(self).state_of(c) is Spawned),
            r is Ok ==> final(self).states() == old(self).states().insert(
                c,
                ChunkState::QueuedForDespawn(held_handle(old(self).state_of(c)).unwrap()),
            ),
            r matches Err(e) ==> e == (LifecycleError { coordinate: c, found: old(self).state_of(c) })
                && final(self).states() == old(self).states(),
    {
        let found = self.state(c);
        match found {
            ChunkState::Spawned(h) => self.transition(c, found, ChunkState::QueuedForDespawn(h)),
            _ => Err(LifecycleError { coordinate: c, found }),
        }
    }

    /// A chunk queued for despawning is gone: it is `Unspawned` again. Returns the mesh
    /// handle it held, which the caller lets go.
    pub fn finish_despawn(&mut self, c: ChunkCoordinate) -> (r: Result<GeometryHandle, LifecycleError>)
        requires
            old(self).wf(),
        ensures
            final(self).wf(),
            r is Ok == (old(self).state_of(c) is QueuedForDespawn),
            r matches Ok(h) ==> Some(h) == held_handle(old(self).state_of(c))
                && final(self).states() == old(self).states().remove(c),
            r matches Err(e) ==> e == (LifecycleError { coordinate: c, found: old(self).state_of(c) })
                && final(self).states() == old(self).states(),
    {
        match self.find(c) {
            None => Err(LifecycleError { coordinate: c, found: ChunkState::Unspawned }),
            Some(i) => {
                let found = self.entries[i].1;
                match found {
                    ChunkState::QueuedForDespawn(h) => {
                        self.forget(i);
                        Ok(h)
                    },
                    _ => Err(LifecycleError { coordinate: c, found }),
                }
            },
        }
    }
}

/// A registry records each coordinate at most once: a chunk has a single state, and so at
/// most one computation in flight.
pub proof fn lemma_one_record_per_coordinate(r: &ChunkRegistry)
    requires
        r.wf(),
    ensures
        forall|i: int, j: int|
            0 <= i < j < r.records().len() ==> #[trigger] r.records()[i].0 != #[trigger] r.records()[j].0,
        forall|i: int|
            0 <= i < r.records().len() ==> r.state_of(#[trigger] r.records()[i].0) == r.records()[i].1,
        forall|c: ChunkCoordinate|
            r.state_of(c) != ChunkState::Unspawned ==> exists|i: int|
                0 <= i < r.records().len() && #[trigger] r.records()[i].0 == c,
{
}

/// Admission never queues a chunk that is already in some other state, nor the same chunk
/// twice in one frame.
pub proof fn lemma_admits_only_unspawned(
    states: Map<ChunkCoordinate, ChunkState>,
    candidates: Seq<ChunkCoordinate>,
    cap: nat,
)
    ensures
        admitted(states, candidates, cap).no_duplicates(),
        forall|k: int|
            0 <= k < admitted(states, candidates, cap).len() ==> !states.contains_key(
                #[trigger] admitted(states, candidates, cap)[k],
            ),
{
    lemma_admitted_bounded(states, candidates, cap);
}

/// Admission makes progress: while some candidate is unspawned and the cap is not zero, at
/// least one chunk is queued, so with a cap of one exactly one is queued each frame.
pub proof fn lemma_admission_progress(
    states: Map<ChunkCoordinate, ChunkState>,
    candidates: Seq<ChunkCoordinate>,
    cap: nat,
    k: int,
)
    requires
        cap > 0,
        0 <= k < candidates.len(),
        !states.contains_key(candidates[k]),
    ensures
        admitted(states, candidates, cap).len() >= 1,
        cap == 1 ==> admitted(states, candidates, cap).len() == 1,
    decreases candidates.len(),
{
    lemma_admitted_bounded(states, candidates, cap);
    let prev = admitted(states, candidates.drop_last(), cap);
    if k < candidates.len() - 1 {
        assert(candidates.drop_last()[k] == candidates[k]);
        lemma_admission_progress(states, candidates.drop_last(), cap, k);
    } else if prev.len() == 0 {
        assert(!prev.contains(candidates.last()));
    }
}

/// In one frame no more chunks are queued for spawning than the cap allows.
pub proof fn lemma_admission_bound(
    states: Map<ChunkCoordinate, ChunkState>,
    candidates: Seq<ChunkCoordinate>,
    cap: nat,
)
    ensures
        admitted(states, candidates, cap).len() <= cap,
{
    lemma_admitted_bounded(states, candidates, cap);
}

} // verus!
