use vstd::prelude::*;

use crate::chunk::ChunkCoordinate;

verus! {

/// Edge length of a chunk, in voxels.
pub const CHUNK_SIZE: u32 = 32;

/// Edge length of a chunk's buffer: the chunk plus a border of one voxel on each side.
pub const PADDED_CHUNK_SIZE: u32 = 34;

/// Number of voxels in a chunk's buffer.
pub const PADDED_CHUNK_VOLUME: usize = 39304;

/// Starting value of a content fingerprint.
pub const FINGERPRINT_SEED: u64 = 14695981039346656037;

/// Multiplier applied to a content fingerprint after each voxel.
pub const FINGERPRINT_FACTOR: u64 = 1099511628211;

/// The value of one voxel.
#[derive(Copy, Clone, Debug, Hash, PartialEq, Eq, Structural)]
pub enum WorldVoxel {
    /// Not sampled yet: the oracle could not tell.
    Unset,
    /// Empty space.
    Air,
    /// A solid voxel of the given material.
    Solid(u8),
}

/// Whether a voxel takes up space. `Unset` does not.
pub open spec fn is_solid_spec(v: WorldVoxel) -> bool {
    v is Solid
}

impl WorldVoxel {
    /// Whether the voxel is solid: `Unset` and `Air` are empty.
    pub fn is_solid(&self) -> (r: bool)
        ensures
            r == is_solid_spec(*self),
    {
        match self {
            WorldVoxel::Solid(_) => true,
            _ => false,
        }
    }

    /// Whether the oracle has not given a value for this voxel.
    pub fn is_unset(&self) -> (r: bool)
        ensures
            r == (*self is Unset),
    {
        match self {
            WorldVoxel::Unset => true,
            _ => false,
        }
    }
}

/// A number that tells the three kinds of voxel and all materials apart.
pub open spec fn voxel_code(v: WorldVoxel) -> u64 {
    match v {
        WorldVoxel::Unset => 0,
        WorldVoxel::Air => 1,
        WorldVoxel::Solid(m) => (2 + m as u64) as u64,
    }
}

/// One step of the fingerprint: mix in the code of the next voxel.
pub open spec fn fingerprint_step(h: u64, code: u64) -> u64 {
    (((h ^ code) as int * FINGERPRINT_FACTOR as int) % 0x1_0000_0000_0000_0000int) as u64
}

/// The fingerprint of a sequence of voxels, taken in order.
pub open spec fn fingerprint_of(s: Seq<WorldVoxel>) -> u64
    decreases s.len(),
{
    if s.len() == 0 {
        FINGERPRINT_SEED
    } else {
        fingerprint_step(fingerprint_of(s.drop_last()), voxel_code(s.last()))
    }
}

/// Buffers with the same voxels, in the same order and with the same materials, have the
/// same fingerprint.
pub proof fn lemma_same_content_same_fingerprint(a: Seq<WorldVoxel>, b: Seq<WorldVoxel>)
    requires
        a =~= b,
    ensures
        fingerprint_of(a) == fingerprint_of(b),
{
}

/// Two voxels that differ have different codes: the fingerprint sees the material, not only
/// whether a voxel is solid.
pub proof fn lemma_code_distinguishes_voxels(a: WorldVoxel, b: WorldVoxel)
    requires
        a != b,
    ensures
        voxel_code(a) != voxel_code(b),
{
}

/// Index in a buffer of the voxel at padded position `(x, y, z)`.
pub open spec fn padded_index_spec(x: int, y: int, z: int) -> int {
    x + y * 34 + z * 34 * 34
}

/// Whether a position lies inside a chunk's buffer.
pub open spec fn in_padded(x: int, y: int, z: int) -> bool {
    0 <= x < 34 && 0 <= y < 34 && 0 <= z < 34
}

/// Index in a buffer of the voxel at padded position `(x, y, z)`.
pub fn padded_index(x: u32, y: u32, z: u32) -> (r: usize)
    requires
        in_padded(x as int, y as int, z as int),
    ensures
        r as int == padded_index_spec(x as int, y as int, z as int),
        r < PADDED_CHUNK_VOLUME,
{
    (x + y * PADDED_CHUNK_SIZE + z * PADDED_CHUNK_SIZE * PADDED_CHUNK_SIZE) as usize
}

/// World position, in voxels, of the voxel at padded position `p` of the chunk at `c`.
/// Position 0 of the buffer is the border voxel one step before the chunk's first voxel.
pub open spec fn world_axis(c: i32, p: int) -> int {
    c as int * 32 + p - 1
}

/// World position of the voxel at padded position `(x, y, z)` of the chunk at `c`.
pub fn world_position(c: ChunkCoordinate, x: u32, y: u32, z: u32) -> (r: (i64, i64, i64))
    requires
        in_padded(x as int, y as int, z as int),
    ensures
        r.0 == world_axis(c.x, x as int),
        r.1 == world_axis(c.y, y as int),
        r.2 == world_axis(c.z, z as int),
{
    let size = CHUNK_SIZE as i64;
    (
        c.x as i64 * size + x as i64 - 1,
        c.y as i64 * size + y as i64 - 1,
        c.z as i64 * size + z as i64 - 1,
    )
}

/// A source of voxel values for one chunk: asked for a world position, it says what is there.
/// It may keep state of its own between questions.
pub trait VoxelLookup {
    /// What the source promises of its answer `v` at `position`. By default it promises
    /// nothing.
    open spec fn answers(position: (i64, i64, i64), v: WorldVoxel) -> bool {
        true
    }

    fn lookup(&mut self, position: (i64, i64, i64)) -> (v: WorldVoxel)
        ensures
            Self::answers(position, v),
    ;
}

/// The source used when none is given: it cannot tell anything, so every voxel is `Unset`.
#[derive(Copy, Clone, Debug, Default)]
pub struct UnsetLookup;

impl VoxelLookup for UnsetLookup {
    open spec fn answers(position: (i64, i64, i64), v: WorldVoxel) -> bool {
        v == WorldVoxel::Unset
    }

    fn lookup(&mut self, position: (i64, i64, i64)) -> (v: WorldVoxel) {
        WorldVoxel::Unset
    }
}

/// World position of the voxel at index `i` of the buffer of the chunk at `c`.
pub open spec fn position_of(c: ChunkCoordinate, i: int) -> (i64, i64, i64) {
    (
        world_axis(c.x, i % 34) as i64,
        world_axis(c.y, (i / 34) % 34) as i64,
        world_axis(c.z, i / 1156) as i64,
    )
}

/// World position of the voxel at index `i` of the buffer of the chunk at `c`: the inverse
/// of `padded_index`, moved to the chunk's place in the world.
pub fn sample_position(c: ChunkCoordinate, i: usize) -> (r: (i64, i64, i64))
    requires
        i < PADDED_CHUNK_VOLUME,
    ensures
        r == position_of(c, i as int),
{
    let x = (i % 34) as u32;
    let y = ((i / 34) % 34) as u32;
    let z = (i / 1156) as u32;
    world_position(c, x, y, z)
}

/// The voxels of one chunk and its border, in the order of `padded_index`.
#[derive(Clone, Debug)]
pub struct VoxelBuffer {
    voxels: Vec<WorldVoxel>,
}

impl View for VoxelBuffer {
    type V = Seq<WorldVoxel>;

    closed spec fn view(&self) -> Seq<WorldVoxel> {
        self.voxels@
    }
}

impl VoxelBuffer {
    /// A buffer holds one value for each voxel of the chunk and its border.
    pub open spec fn wf(&self) -> bool {
        self@.len() == PADDED_CHUNK_VOLUME
    }

    /// A buffer in which no voxel has been sampled.
    pub fn new() -> (r: VoxelBuffer)
        ensures
            r.wf(),
            forall|i: int| 0 <= i < r@.len() ==> r@[i] == WorldVoxel::Unset,
    {
        let mut voxels: Vec<WorldVoxel> = Vec::new();
        let mut i: usize = 0;
        while i < PADDED_CHUNK_VOLUME
            invariant
                i <= PADDED_CHUNK_VOLUME,
                voxels@.len() == i,
                forall|j: int| 0 <= j < i ==> voxels@[j] == WorldVoxel::Unset,
            decreases PADDED_CHUNK_VOLUME - i,
        {
            voxels.push(WorldVoxel::Unset);
            i = i + 1;
        }
        VoxelBuffer { voxels }
    }

    /// A buffer holding the given voxels, if there is exactly one for each position.
    pub fn from_voxels(voxels: Vec<WorldVoxel>) -> (r: Option<VoxelBuffer>)
        ensures
            r.is_some() == (voxels@.len() == PADDED_CHUNK_VOLUME),
            r matches Some(b) ==> b@ == voxels@ && b.wf(),
    {
        if voxels.len() == PADDED_CHUNK_VOLUME {
            Some(VoxelBuffer { voxels })
        } else {
            None
        }
    }

    /// Asks `source` once for each voxel of the chunk at `chunk` and its border, in buffer
    /// order, and keeps its answers: voxel `i` is the answer at `position_of(chunk, i)`.
    pub fn sample<L: VoxelLookup>(chunk: ChunkCoordinate, source: &mut L) -> (r: VoxelBuffer)
        ensures
            r.wf(),
            forall|i: int| 0 <= i < PADDED_CHUNK_VOLUME ==> L::answers(position_of(chunk, i), #[trigger] r@[i]),
    {
        let mut answers: Vec<WorldVoxel> = Vec::new();
        let mut i: usize = 0;
        while i < PADDED_CHUNK_VOLUME
            invariant
                i <= PADDED_CHUNK_VOLUME,
                answers@.len() == i,
                forall|j: int| 0 <= j < i ==> L::answers(position_of(chunk, j), #[trigger] answers@[j]),
            decreases PADDED_CHUNK_VOLUME - i,
        {
            let p = sample_position(chunk, i);
            let v = source.lookup(p);
            answers.push(v);
            i = i + 1;
        }
        Self::from_voxels(answers).unwrap()
    }

    /// The voxel at padded position `(x, y, z)`.
    pub fn get(&self, x: u32, y: u32, z: u32) -> (r: WorldVoxel)
        requires
            self.wf(),
            in_padded(x as int, y as int, z as int),
        ensures
            r == self@[padded_index_spec(x as int, y as int, z as int)],
    {
        self.voxels[padded_index(x, y, z)]
    }

    /// Sets the voxel at padded position `(x, y, z)`.
    pub fn set(&mut self, x: u32, y: u32, z: u32, v: WorldVoxel)
        requires
            old(self).wf(),
            in_padded(x as int, y as int, z as int),
        ensures
            final(self).wf(),
            final(self)@ == old(self)@.update(padded_index_spec(x as int, y as int, z as int), v),
    {
        let i = padded_index(x, y, z);
        self.voxels.set(i, v);
    }

    /// Whether the buffer holds no solid voxel: such a chunk is meshed as empty, whether its
    /// voxels are `Air` or still `Unset`.
    pub fn is_empty(&self) -> (r: bool)
        ensures
            r == (forall|i: int| 0 <= i < self@.len() ==> !is_solid_spec(#[trigger] self@[i])),
    {
        let mut i: usize = 0;
        while i < self.voxels.len()
            invariant
                i <= self.voxels@.len(),
                forall|j: int| 0 <= j < i ==> !is_solid_spec(#[trigger] self.voxels@[j]),
            decreases self.voxels@.len() - i,
        {
            if self.voxels[i].is_solid() {
                assert(is_solid_spec(self@[i as int]));
                return false;
            }
            i = i + 1;
        }
        assert(forall|j: int| 0 <= j < self@.len() ==> self@[j] == self.voxels@[j]);
        true
    }

    /// The content fingerprint of the buffer, used as the key of the mesh cache.
    pub fn fingerprint(&self) -> (r: u64)
        ensures
            r == fingerprint_of(self@),
    {
        let mut h: u64 = FINGERPRINT_SEED;
        let mut i: usize = 0;
        while i < self.voxels.len()
            invariant
                i <= self.voxels@.len(),
                h == fingerprint_of(self.voxels@.subrange(0, i as int)),
            decreases self.voxels@.len() - i,
        {
            proof {
                assert(self.voxels@.subrange(0, i + 1).drop_last() =~= self.voxels@.subrange(0, i as int));
            }
            let code = voxel_code_exec(self.voxels[i]);
            h = mix(h, code);
            i = i + 1;
        }
        proof {
            assert(self.voxels@.subrange(0, self.voxels@.len() as int) =~= self.voxels@);
        }
        h
    }
}

/// The code of a voxel, as `voxel_code` gives it.
fn voxel_code_exec(v: WorldVoxel) -> (r: u64)
    ensures
        r == voxel_code(v),
{
    match v {
        WorldVoxel::Unset => 0,
        WorldVoxel::Air => 1,
        WorldVoxel::Solid(m) => 2 + m as u64,
    }
}

/// One step of the fingerprint, as `fingerprint_step` gives it.
fn mix(h: u64, code: u64) -> (r: u64)
    ensures
        r == fingerprint_step(h, code),
{
    let x: u64 = h ^ code;
    let wide: u128 = x as u128 * FINGERPRINT_FACTOR as u128;
    (wide % 0x1_0000_0000_0000_0000u128) as u64
}

} // verus!
