use vstd::prelude::*;

verus! {

/// Names one generated mesh. Chunks that show the same geometry hold equal handles.
#[derive(Copy, Clone, Debug, Hash, PartialEq, Eq, Structural)]
pub struct GeometryHandle {
    pub id: usize,
}

/// One remembered mesh: the fingerprint of the voxels it was built from, and its handle.
#[derive(Copy, Clone, Debug, PartialEq, Eq, Structural)]
pub struct MeshCacheEntry {
    pub fingerprint: u64,
    pub handle: GeometryHandle,
}

/// Meshes waiting to be merged into the cache, in the order they were finished.
#[derive(Clone, Debug)]
pub struct MeshCacheInsertBuffer {
    pending: Vec<(u64, GeometryHandle)>,
}

impl View for MeshCacheInsertBuffer {
    type V = Seq<(u64, GeometryHandle)>;

    closed spec fn view(&self) -> Seq<(u64, GeometryHandle)> {
        self.pending@
    }
}

impl MeshCacheInsertBuffer {
    /// An empty buffer.
    pub fn new() -> (r: MeshCacheInsertBuffer)
        ensures
            r@ == Seq::<(u64, GeometryHandle)>::empty(),
    {
        MeshCacheInsertBuffer { pending: Vec::new() }
    }

    /// Number of waiting meshes.
    pub fn len(&self) -> (r: usize)
        ensures
            r == self@.len(),
    {
        self.pending.len()
    }

    /// Appends a finished mesh; it reaches the cache at the next `MeshCache::apply_buffers`.
    pub fn buffer_insert(&mut self, fingerprint: u64, handle: GeometryHandle)
        ensures
            final(self)@ == old(self)@.push((fingerprint, handle)),
    {
        self.pending.push((fingerprint, handle));
    }
}

/// The map that merging `pending` into `m` gives: in order, each later pair replacing an
/// earlier one with the same fingerprint.
pub open spec fn insert_all(m: Map<u64, GeometryHandle>, pending: Seq<(u64, GeometryHandle)>) -> Map<
    u64,
    GeometryHandle,
>
    decreases pending.len(),
{
    if pending.len() == 0 {
        m
    } else {
        insert_all(m, pending.drop_last()).insert(pending.last().0, pending.last().1)
    }
}

/// Whether a handle is issued and still held by at least one chunk, given the owner counts.
pub open spec fn live_in(owners: Seq<usize>, h: GeometryHandle) -> bool {
    h.id < owners.len() && owners[h.id as int] > 0
}

/// The entries of `m` whose handle is still held.
pub open spec fn swept(m: Map<u64, GeometryHandle>, owners: Seq<usize>) -> Map<u64, GeometryHandle> {
    Map::new(|fp: u64| m.contains_key(fp) && live_in(owners, m[fp]), |fp: u64| m[fp])
}

/// Content-addressed store of meshes: maps a voxel fingerprint to the handle of a mesh built
/// from such voxels, and counts for each handle the chunks that hold it. The cache does not
/// keep a mesh alive: an entry whose handle no chunk holds reads as absent, and the next
/// merge removes it.
pub struct MeshCache {
    entries: Vec<MeshCacheEntry>,
    owners: Vec<usize>,
    map: Ghost<Map<u64, GeometryHandle>>,
}

impl MeshCache {
    /// The remembered entries, by fingerprint, live or not.
    pub closed spec fn entries(&self) -> Map<u64, GeometryHandle> {
        self.map@
    }

    /// For each issued handle, by id, the number of chunks holding it.
    pub closed spec fn owner_counts(&self) -> Seq<usize> {
        self.owners@
    }

    /// Whether `h` was issued by this cache.
    pub open spec fn issued(&self, h: GeometryHandle) -> bool {
        h.id < self.owner_counts().len()
    }

    /// Whether `h` is held by at least one chunk.
    pub open spec fn is_live(&self, h: GeometryHandle) -> bool {
        live_in(self.owner_counts(), h)
    }

    /// What a lookup of `fp` gives: the remembered handle, if some chunk still holds it.
    pub open spec fn lookup(&self, fp: u64) -> Option<GeometryHandle> {
        if self.entries().contains_key(fp) && self.is_live(self.entries()[fp]) {
            Some(self.entries()[fp])
        } else {
            None
        }
    }

    /// The entries are keyed by distinct fingerprints, agree with the map they stand for,
    /// and only name issued handles.
    pub closed spec fn wf(&self) -> bool {
        &&& forall|i: int, j: int|
            0 <= i < j < self.entries@.len() ==> #[trigger] self.entries@[i].fingerprint
                != #[trigger] self.entries@[j].fingerprint
        &&& forall|i: int|
            0 <= i < self.entries@.len() ==> self.map@.contains_key(
                #[trigger] self.entries@[i].fingerprint,
            ) && self.map@[self.entries@[i].fingerprint] == self.entries@[i].handle
        &&& forall|fp: u64| #[trigger]
            self.map@.contains_key(fp) ==> exists|i: int|
                0 <= i < self.entries@.len() && #[trigger] self.entries@[i].fingerprint == fp
        &&& forall|fp: u64| #[trigger]
            self.map@.contains_key(fp) ==> self.map@[fp].id < self.owners@.len()
        &&& forall|i: int|
            0 <= i < self.entries@.len() ==> (#[trigger] self.entries@[i]).handle.id
                < self.owners@.len()
    }

    /// Every remembered entry names a handle that this cache issued.
    pub proof fn lemma_entries_issued(&self)
        requires
            self.wf(),
        ensures
            forall|fp: u64| #[trigger]
                self.entries().contains_key(fp) ==> self.issued(self.entries()[fp]),
    {
    }

    /// An empty cache that has issued no handle.
    pub fn new() -> (r: MeshCache)
        ensures
            r.wf(),
            r.entries() == Map::<u64, GeometryHandle>::empty(),
            r.owner_counts() == Seq::<usize>::empty(),
    {
        MeshCache { entries: Vec::new(), owners: Vec::new(), map: Ghost(Map::empty()) }
    }

    /// Issues a new handle, held by one owner: the chunk that built the mesh.
    pub fn new_handle(&mut self) -> (h: GeometryHandle)
        requires
            old(self).wf(),
            old(self).owner_counts().len() < usize::MAX,
        ensures
            final(self).wf(),
            h.id == old(self).owner_counts().len(),
            final(self).owner_counts() == old(self).owner_counts().push(1),
            final(self).entries() == old(self).entries(),
    {
        let h = GeometryHandle { id: self.owners.len() };
        self.owners.push(1);
        assert forall|i: int| 0 <= i < self.entries@.len() implies (#[trigger] self.entries@[i]).handle.id
            < self.owners@.len() by {
            assert(self.entries@[i].handle.id < old(self).owners@.len());
        }
        assert forall|fp: u64| #[trigger] self.map@.contains_key(fp) implies self.map@[fp].id < self.owners@.len() by {
            assert(old(self).map@[fp].id < old(self).owners@.len());
        }
        h
    }

    /// Number of chunks holding `h`.
    pub fn owner_count(&self, h: GeometryHandle) -> (r: usize)
        requires
            self.issued(h),
        ensures
            r == self.owner_counts()[h.id as int],
    {
        self.owners[h.id]
    }

    /// One more chunk holds `h`.
    pub fn acquire(&mut self, h: GeometryHandle)
        requires
            old(self).wf(),
            old(self).issued(h),
            old(self).owner_counts()[h.id as int] < usize::MAX,
        ensures
            final(self).wf(),
            final(self).owner_counts() == old(self).owner_counts().update(
                h.id as int,
                (old(self).owner_counts()[h.id as int] + 1) as usize,
            ),
            final(self).entries() == old(self).entries(),
    {
        let i = h.id;
        let n = self.owners[i];
        self.owners.set(i, n + 1);
    }

    /// One chunk that held `h` lets it go.
    pub fn release(&mut self, h: GeometryHandle)
        requires
            old(self).wf(),
            old(self).issued(h),
            old(self).owner_counts()[h.id as int] > 0,
        ensures
            final(self).wf(),
            final(self).owner_counts() == old(self).owner_counts().update(
                h.id as int,
                (old(self).owner_counts()[h.id as int] - 1) as usize,
            ),
            final(self).entries() == old(self).entries(),
    {
        let i = h.id;
        let n = self.owners[i];
        self.owners.set(i, n - 1);
    }

    /// Number of handles issued so far.
    pub fn handle_count(&self) -> (r: usize)
        ensures
            r == self.owner_counts().len(),
    {
        self.owners.len()
    }

    /// Position in `entries` of the entry for `fp`, if there is one.
    fn find(&self, fp: u64) -> (r: Option<usize>)
        requires
            self.wf(),
        ensures
            r is None ==> !self.entries().contains_key(fp),
            r matches Some(i) ==> i < self.entries@.len() && self.entries@[i as int].fingerprint
                == fp,
    {
        let mut i: usize = 0;
        while i < self.entries.len()
            invariant
                self.wf(),
                i <= self.entries@.len(),
                forall|j: int| 0 <= j < i ==> self.entries@[j].fingerprint != fp,
            decreases self.entries@.len() - i,
        {
            if self.entries[i].fingerprint == fp {
                return Some(i);
            }
            i = i + 1;
        }
        None
    }

    /// The handle remembered for `fp`, if some chunk still holds it.
    pub fn get(&self, fp: u64) -> (r: Option<GeometryHandle>)
        requires
            self.wf(),
        ensures
            r == self.lookup(fp),
    {
        match self.find(fp) {
            None => None,
            Some(i) => {
                let h = self.entries[i].handle;
                if self.owners[h.id] > 0 {
                    Some(h)
                } else {
                    None
                }
            },
        }
    }

    /// A copy of the remembered entries, live or not, one per fingerprint.
    pub fn get_map(&self) -> (r: Vec<MeshCacheEntry>)
        requires
            self.wf(),
        ensures
            forall|i: int, j: int|
                0 <= i < j < r@.len() ==> #[trigger] r@[i].fingerprint != #[trigger] r@[j].fingerprint,
            forall|i: int|
                0 <= i < r@.len() ==> self.entries().contains_key(#[trigger] r@[i].fingerprint)
                    && self.entries()[r@[i].fingerprint] == r@[i].handle,
            forall|fp: u64| #[trigger]
                self.entries().contains_key(fp) ==> exists|i: int|
                    0 <= i < r@.len() && #[trigger] r@[i].fingerprint == fp,
    {
        self.entries.clone()
    }

    /// Remembers `h` for `fp`, replacing what was there.
    fn insert(&mut self, fp: u64, h: GeometryHandle)
        requires
            old(self).wf(),
            old(self).issued(h),
        ensures
            final(self).wf(),
            final(self).entries() == old(self).entries().insert(fp, h),
            final(self).owner_counts() == old(self).owner_counts(),
    {
        let ghost old_entries = self.entries@;
        let e = MeshCacheEntry { fingerprint: fp, handle: h };
        match self.find(fp) {
            Some(i) => {
                self.entries.set(i, e);
                self.map = Ghost(self.map@.insert(fp, h));
                assert forall|k: u64| #[trigger]
                    self.map@.contains_key(k) implies exists|j: int|
                        0 <= j < self.entries@.len() && #[trigger] self.entries@[j].fingerprint
                            == k by {
                    if k != fp {
                        let j = choose|j: int|
                            0 <= j < old_entries.len() && #[trigger] old_entries[j].fingerprint
                                == k;
                        assert(self.entries@[j].fingerprint == k);
                    } else {
                        assert(self.entries@[i as int].fingerprint == k);
                    }
                }
            },
            None => {
                self.entries.push(e);
                self.map = Ghost(self.map@.insert(fp, h));
                assert forall|k: u64| #[trigger]
                    self.map@.contains_key(k) implies exists|j: int|
                        0 <= j < self.entries@.len() && #[trigger] self.entries@[j].fingerprint
                            == k by {
                    if k != fp {
                        let j = choose|j: int|
                            0 <= j < old_entries.len() && #[trigger] old_entries[j].fingerprint
                                == k;
                        assert(self.entries@[j].fingerprint == k);
                    } else {
                        assert(self.entries@[old_entries.len() as int].fingerprint == k);
                    }
                }
            },
        }
    }

    /// Drops the entries whose handle no chunk holds any more.
    #[verifier::rlimit(30)]
    fn remove_expired(&mut self)
        requires
            old(self).wf(),
        ensures
            final(self).wf(),
            final(self).entries() == swept(old(self).entries(), old(self).owner_counts()),
            final(self).owner_counts() == old(self).owner_counts(),
    {
        let ghost old_entries = self.entries@;
        let ghost m = self.map@;
        let ghost owners = self.owners@;
        let ghost mut src: Seq<int> = Seq::empty();
        let mut kept: Vec<MeshCacheEntry> = Vec::new();
        let mut i: usize = 0;
        while i < self.entries.len()
            invariant
                self.wf(),
                self.entries@ == old_entries,
                self.map@ == m,
                self.owners@ == owners,
                i <= old_entries.len(),
                src.len() == kept@.len(),
                forall|k: int|
                    0 <= k < kept@.len() ==> 0 <= #[trigger] src[k] < i && kept@[k]
                        == old_entries[src[k]] && live_in(owners, old_entries[src[k]].handle),
                forall|a: int, b: int| 0 <= a < b < src.len() ==> #[trigger] src[a] < #[trigger] src[b],
                forall|j: int|
                    0 <= j < i && live_in(owners, #[trigger] old_entries[j].handle) ==> exists|k: int|
                        0 <= k < src.len() && #[trigger] src[k] == j,
            decreases old_entries.len() - i,
        {
            let e = self.entries[i];
            if self.owners[e.handle.id] > 0 {
                kept.push(e);
                proof {
                    let ghost prev = src;
                    src = src.push(i as int);
                    assert(src[src.len() - 1] == i);
                    assert forall|j: int|
                        0 <= j < i + 1 && live_in(owners, #[trigger] old_entries[j].handle) implies exists|k: int|
                            0 <= k < src.len() && #[trigger] src[k] == j by {
                        if j == i {
                            assert(src[src.len() - 1] == j);
                        } else {
                            let k = choose|k: int| 0 <= k < prev.len() && #[trigger] prev[k] == j;
                            assert(src[k] == j);
                        }
                    }
                }
            } else {
                proof {
                    assert(!live_in(owners, old_entries[i as int].handle));
                }
            }
            i = i + 1;
        }
        let ghost new_map = swept(m, owners);
        self.entries = kept;
        self.map = Ghost(new_map);
        proof {
            assert forall|a: int, b: int|
                0 <= a < b < self.entries@.len() implies #[trigger] self.entries@[a].fingerprint
                    != #[trigger] self.entries@[b].fingerprint by {
                assert(src[a] < src[b]);
                assert(old_entries[src[a]].fingerprint != old_entries[src[b]].fingerprint);
            }
            assert forall|k: int| 0 <= k < self.entries@.len() implies new_map.contains_key(
                #[trigger] self.entries@[k].fingerprint,
            ) && new_map[self.entries@[k].fingerprint] == self.entries@[k].handle by {
                assert(m.contains_key(old_entries[src[k]].fingerprint));
            }
            assert forall|fp: u64| #[trigger] new_map.contains_key(fp) implies exists|k: int|
                0 <= k < self.entries@.len() && #[trigger] self.entries@[k].fingerprint == fp by {
                let j = choose|j: int|
                    0 <= j < old_entries.len() && #[trigger] old_entries[j].fingerprint == fp;
                assert(live_in(owners, old_entries[j].handle));
                let k = choose|k: int| 0 <= k < src.len() && #[trigger] src[k] == j;
                assert(self.entries@[k].fingerprint == fp);
            }
            assert forall|k: int| 0 <= k < self.entries@.len() implies (#[trigger] self.entries@[k]).handle.id
                < owners.len() by {
                assert(old_entries[src[k]].handle.id < owners.len());
            }
        }
    }

    /// Merges the waiting meshes, in order, then drops the entries whose handle no chunk
    /// holds. With nothing waiting it changes nothing.
    pub fn apply_buffers(&mut self, insert_buffer: &mut MeshCacheInsertBuffer)
        requires
            old(self).wf(),
            forall|i: int|
                0 <= i < old(insert_buffer)@.len() ==> old(self).issued(
                    #[trigger] old(insert_buffer)@[i].1,
                ),
        ensures
            final(self).wf(),
            final(self).owner_counts() == old(self).owner_counts(),
            old(insert_buffer)@.len() == 0 ==> final(self).entries() == old(self).entries()
                && final(insert_buffer)@ == old(insert_buffer)@,
            old(insert_buffer)@.len() > 0 ==> final(self).entries() == swept(
                insert_all(old(self).entries(), old(insert_buffer)@),
                old(self).owner_counts(),
            ) && final(insert_buffer)@.len() == 0,
    {
        if insert_buffer.pending.len() == 0 {
            return;
        }
        let ghost start = self.map@;
        proof {
            assert forall|j: int| 0 <= j < insert_buffer.pending@.len() implies self.issued(
                #[trigger] insert_buffer.pending@[j].1,
            ) by {
                assert(old(insert_buffer)@[j] == insert_buffer.pending@[j]);
            }
        }
        let mut i: usize = 0;
        while i < insert_buffer.pending.len()
            invariant
                self.wf(),
                self.owners@ == old(self).owners@,
                i <= insert_buffer.pending@.len(),
                insert_buffer.pending@ == old(insert_buffer).pending@,
                forall|j: int|
                    0 <= j < insert_buffer.pending@.len() ==> self.issued(
                        #[trigger] insert_buffer.pending@[j].1,
                    ),
                self.map@ == insert_all(start, insert_buffer.pending@.subrange(0, i as int)),
            decreases insert_buffer.pending@.len() - i,
        {
            let (fp, h) = insert_buffer.pending[i];
            proof {
                let s = insert_buffer.pending@.subrange(0, i + 1);
                assert(s.drop_last() =~= insert_buffer.pending@.subrange(0, i as int));
                assert(s.last() == insert_buffer.pending@[i as int]);
                assert(self.issued(insert_buffer.pending@[i as int].1));
            }
            self.insert(fp, h);
            i = i + 1;
        }
        proof {
            assert(insert_buffer.pending@.subrange(0, i as int) =~= insert_buffer.pending@);
        }
        self.remove_expired();
        insert_buffer.pending.clear();
    }
}

impl Default for MeshCache {
    /// An empty cache that has issued no handle.
    fn default() -> (r: MeshCache)
        ensures
            r.wf(),
            r.entries() == Map::<u64, GeometryHandle>::empty(),
            r.owner_counts() == Seq::<usize>::empty(),
    {
        MeshCache::new()
    }
}

/// Merging pairs none of which has fingerprint `fp` leaves the entry for `fp` as it was.
pub proof fn lemma_insert_all_untouched(
    m: Map<u64, GeometryHandle>,
    pending: Seq<(u64, GeometryHandle)>,
    fp: u64,
)
    requires
        forall|i: int| 0 <= i < pending.len() ==> (#[trigger] pending[i]).0 != fp,
    ensures
        insert_all(m, pending).contains_key(fp) == m.contains_key(fp),
        m.contains_key(fp) ==> insert_all(m, pending)[fp] == m[fp],
    decreases pending.len(),
{
    if pending.len() > 0 {
        assert(pending.last() == pending[pending.len() - 1]);
        assert forall|i: int| 0 <= i < pending.drop_last().len() implies (
        #[trigger] pending.drop_last()[i]).0 != fp by {
            assert(pending.drop_last()[i] == pending[i]);
        }
        lemma_insert_all_untouched(m, pending.drop_last(), fp);
    }
}

/// A merge reclaims: every entry left afterwards names a handle that some chunk holds, and the
/// entry for a fingerprint whose handle no chunk holds any more is gone, unless the merge
/// itself brought a new pair for that fingerprint.
pub proof fn lemma_merge_reclaims(
    m: Map<u64, GeometryHandle>,
    pending: Seq<(u64, GeometryHandle)>,
    owners: Seq<usize>,
    fp: u64,
)
    ensures
        swept(insert_all(m, pending), owners).contains_key(fp) ==> live_in(
            owners,
            swept(insert_all(m, pending), owners)[fp],
        ),
        (forall|i: int| 0 <= i < pending.len() ==> (#[trigger] pending[i]).0 != fp) && m.contains_key(fp)
            && !live_in(owners, m[fp]) ==> !swept(insert_all(m, pending), owners).contains_key(fp),
{
    if (forall|i: int| 0 <= i < pending.len() ==> (#[trigger] pending[i]).0 != fp) {
        lemma_insert_all_untouched(m, pending, fp);
    }
}

} // verus!
