use voxel_stream::chunk::ChunkCoordinate;
use voxel_stream::voxel::{
    padded_index, sample_position, world_position, UnsetLookup, VoxelBuffer, VoxelLookup,
    WorldVoxel, PADDED_CHUNK_VOLUME,
};

struct Slab {
    asked: usize,
}

impl VoxelLookup for Slab {
    fn lookup(&mut self, position: (i64, i64, i64)) -> WorldVoxel {
        self.asked += 1;
        if position.1 < 0 {
            WorldVoxel::Solid(0)
        } else {
            WorldVoxel::Air
        }
    }
}

struct Silent;

impl VoxelLookup for Silent {
    fn lookup(&mut self, _position: (i64, i64, i64)) -> WorldVoxel {
        WorldVoxel::Unset
    }
}

#[test]
fn padded_index_layout() {
    assert_eq!(padded_index(0, 0, 0), 0);
    assert_eq!(padded_index(1, 0, 0), 1);
    assert_eq!(padded_index(0, 1, 0), 34);
    assert_eq!(padded_index(0, 0, 1), 1156);
    assert_eq!(padded_index(33, 33, 33), PADDED_CHUNK_VOLUME - 1);
}

#[test]
fn world_position_includes_border() {
    let c = ChunkCoordinate { x: 1, y: -1, z: 0 };
    assert_eq!(world_position(c, 0, 0, 0), (31, -33, -1));
    assert_eq!(world_position(c, 1, 1, 1), (32, -32, 0));
}

#[test]
fn sampling_asks_every_position() {
    let mut s = Slab { asked: 0 };
    let b = VoxelBuffer::sample(ChunkCoordinate { x: 0, y: -1, z: 0 }, &mut s);
    assert_eq!(s.asked, PADDED_CHUNK_VOLUME);
    assert_eq!(b.get(5, 5, 5), WorldVoxel::Solid(0));
    assert_eq!(b.get(5, 33, 5), WorldVoxel::Air);
    assert!(!b.is_empty());
}

#[test]
fn unset_everywhere_is_empty() {
    let b = VoxelBuffer::sample(ChunkCoordinate { x: 3, y: 3, z: 3 }, &mut Silent);
    assert!(b.is_empty());
    assert!(b.get(0, 0, 0).is_unset());
    assert!(!b.get(0, 0, 0).is_solid());
    let air = VoxelBuffer::from_voxels(vec![WorldVoxel::Air; PADDED_CHUNK_VOLUME]).unwrap();
    assert!(air.is_empty());
    assert_ne!(air.fingerprint(), b.fingerprint());
}

#[test]
fn from_voxels_checks_length() {
    assert!(VoxelBuffer::from_voxels(vec![WorldVoxel::Air; 10]).is_none());
    assert!(VoxelBuffer::from_voxels(vec![WorldVoxel::Air; PADDED_CHUNK_VOLUME]).is_some());
}

#[test]
fn same_content_same_fingerprint() {
    let a = VoxelBuffer::sample(ChunkCoordinate { x: 0, y: -1, z: 0 }, &mut Slab { asked: 0 });
    let b = VoxelBuffer::sample(ChunkCoordinate { x: 7, y: -1, z: -4 }, &mut Slab { asked: 0 });
    assert_eq!(a.fingerprint(), b.fingerprint());
}

#[test]
fn material_changes_fingerprint() {
    let mut a = VoxelBuffer::new();
    let mut b = VoxelBuffer::new();
    a.set(3, 4, 5, WorldVoxel::Solid(1));
    b.set(3, 4, 5, WorldVoxel::Solid(2));
    assert_ne!(a.fingerprint(), b.fingerprint());
    b.set(3, 4, 5, WorldVoxel::Solid(1));
    assert_eq!(a.fingerprint(), b.fingerprint());
}

#[test]
fn order_changes_fingerprint() {
    let mut a = VoxelBuffer::new();
    let mut b = VoxelBuffer::new();
    a.set(0, 0, 0, WorldVoxel::Solid(1));
    a.set(1, 0, 0, WorldVoxel::Air);
    b.set(0, 0, 0, WorldVoxel::Air);
    b.set(1, 0, 0, WorldVoxel::Solid(1));
    assert_ne!(a.fingerprint(), b.fingerprint());
}

#[test]
fn fingerprint_exact_values() {
    let unset = VoxelBuffer::new();
    assert_eq!(unset.fingerprint(), 2006285744477976517u64);
    let air = VoxelBuffer::from_voxels(vec![WorldVoxel::Air; PADDED_CHUNK_VOLUME]).unwrap();
    assert_eq!(air.fingerprint(), 10968620038254001869u64);
}

#[test]
fn default_source_gives_an_empty_buffer() {
    let b = VoxelBuffer::sample(ChunkCoordinate { x: -2, y: 5, z: 9 }, &mut UnsetLookup);
    assert!(b.is_empty());
    assert_eq!(b.get(17, 0, 33), WorldVoxel::Unset);
    assert_eq!(b.fingerprint(), VoxelBuffer::new().fingerprint());
}

#[test]
fn sample_positions_follow_buffer_order() {
    let c = ChunkCoordinate { x: 1, y: -1, z: 2 };
    assert_eq!(sample_position(c, 0), (31, -33, 63));
    assert_eq!(sample_position(c, padded_index(1, 2, 3)), world_position(c, 1, 2, 3));
    assert_eq!(sample_position(c, PADDED_CHUNK_VOLUME - 1), (64, 0, 96));
}
