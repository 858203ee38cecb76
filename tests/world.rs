use voxel_stream::chunk::{ChunkCoordinate, ChunkRegistry, ChunkState, LifecycleError};
use voxel_stream::configuration::{ChunkDespawnStrategy, VoxelWorldConfig};
use voxel_stream::visibility::{
    contains_coordinate, despawn_candidates, is_within_distance, should_despawn,
    spawn_candidates,
};
use voxel_stream::voxel::{VoxelBuffer, VoxelLookup, WorldVoxel};
use voxel_stream::world::{VoxelWorld, WorldError};

fn at(x: i32, y: i32, z: i32) -> ChunkCoordinate {
    ChunkCoordinate { x, y, z }
}

fn config(distance: u32, cap: usize) -> VoxelWorldConfig {
    let mut c = VoxelWorldConfig::default();
    c.spawning_distance = distance;
    c.max_spawn_per_frame = cap;
    c
}

struct Ground;

impl VoxelLookup for Ground {
    fn lookup(&mut self, position: (i64, i64, i64)) -> WorldVoxel {
        if position.1 < 0 {
            WorldVoxel::Solid(0)
        } else {
            WorldVoxel::Air
        }
    }
}

/// Runs a queued chunk through its worker and completes it.
fn compute(w: &mut VoxelWorld, c: ChunkCoordinate) -> voxel_stream::world::CompletedChunk {
    w.start_computing(c).unwrap();
    let fp = VoxelBuffer::sample(c, &mut Ground).fingerprint();
    w.complete_chunk(c, fp).unwrap()
}

#[test]
fn admission_cap_spreads_spawns_over_frames() {
    let mut w = VoxelWorld::new(config(10, 1));
    let cands = vec![at(0, 0, 0), at(1, 0, 0), at(2, 0, 0), at(3, 0, 0), at(4, 0, 0)];
    let mut order = Vec::new();
    for _frame in 0..5 {
        let q = w.queue_spawns(&cands);
        assert_eq!(q.len(), 1);
        order.push(q[0]);
        w.end_frame();
    }
    assert_eq!(order, cands);
    assert!(w.queue_spawns(&cands).is_empty());
    for c in &cands {
        assert_eq!(w.state(*c), ChunkState::QueuedForSpawn);
    }
}

#[test]
fn admission_skips_duplicates_and_busy_chunks() {
    let mut w = VoxelWorld::new(config(10, 10));
    let q = w.queue_spawns(&vec![at(0, 0, 0), at(0, 0, 0), at(1, 1, 1)]);
    assert_eq!(q, vec![at(0, 0, 0), at(1, 1, 1)]);
    w.start_computing(at(0, 0, 0)).unwrap();
    let q = w.queue_spawns(&vec![at(0, 0, 0), at(1, 1, 1), at(2, 2, 2)]);
    assert_eq!(q, vec![at(2, 2, 2)]);
    assert_eq!(w.state(at(0, 0, 0)), ChunkState::Computing);
}

#[test]
fn slabs_share_one_mesh() {
    let mut w = VoxelWorld::new(config(10, 10));
    let a = at(0, -1, 0);
    let b = at(5, -1, 3);
    w.queue_spawns(&vec![a, b]);
    let first = compute(&mut w, a);
    assert!(!first.reused);
    w.end_frame();
    let second = compute(&mut w, b);
    assert!(second.reused);
    assert_eq!(first.handle, second.handle);
    assert_eq!(w.state(a), ChunkState::Spawned(first.handle));
    assert_eq!(w.state(b), ChunkState::Spawned(first.handle));
    assert_eq!(w.owner_count(first.handle), 2);
}

#[test]
fn same_frame_completions_may_build_twice() {
    let mut w = VoxelWorld::new(config(10, 10));
    let a = at(0, -1, 0);
    let b = at(1, -1, 0);
    w.queue_spawns(&vec![a, b]);
    let first = compute(&mut w, a);
    let second = compute(&mut w, b);
    assert!(!second.reused);
    assert_ne!(first.handle, second.handle);
    assert_eq!(w.pending_len(), 2);
    w.end_frame();
    assert_eq!(w.pending_len(), 0);
}

#[test]
fn respawn_reuses_mesh_while_held() {
    let mut w = VoxelWorld::new(config(10, 10));
    let a = at(0, -1, 0);
    let b = at(1, -1, 0);
    w.queue_spawns(&vec![a]);
    let first = compute(&mut w, a);
    w.end_frame();
    w.queue_spawns(&vec![b]);
    compute(&mut w, b);
    w.queue_despawn(a).unwrap();
    assert_eq!(w.despawn_chunk(a), Ok(first.handle));
    assert_eq!(w.state(a), ChunkState::Unspawned);
    w.queue_spawns(&vec![a]);
    let again = compute(&mut w, a);
    assert!(again.reused);
    assert_eq!(again.handle, first.handle);
}

#[test]
fn last_despawn_reclaims_mesh() {
    let mut w = VoxelWorld::new(config(10, 10));
    let a = at(0, -1, 0);
    w.queue_spawns(&vec![a]);
    let done = compute(&mut w, a);
    w.end_frame();
    let fp = VoxelBuffer::sample(a, &mut Ground).fingerprint();
    assert_eq!(w.lookup(fp), Some(done.handle));
    w.queue_despawn(a).unwrap();
    assert_eq!(w.lookup(fp), Some(done.handle));
    w.despawn_chunk(a).unwrap();
    assert_eq!(w.owner_count(done.handle), 0);
    assert_eq!(w.lookup(fp), None);
    w.queue_spawns(&vec![a]);
    let again = compute(&mut w, a);
    assert!(!again.reused);
    assert_ne!(again.handle, done.handle);
}

#[test]
fn empty_end_of_frame_is_a_no_op() {
    let mut w = VoxelWorld::new(config(10, 10));
    w.end_frame();
    assert_eq!(w.pending_len(), 0);
    let a = at(0, -1, 0);
    w.queue_spawns(&vec![a]);
    let done = compute(&mut w, a);
    w.end_frame();
    w.end_frame();
    assert_eq!(w.lookup(VoxelBuffer::sample(a, &mut Ground).fingerprint()), Some(done.handle));
}

#[test]
fn wrong_transitions_are_refused() {
    let mut w = VoxelWorld::new(config(10, 10));
    let a = at(0, 0, 0);
    assert_eq!(
        w.start_computing(a),
        Err(LifecycleError { coordinate: a, found: ChunkState::Unspawned })
    );
    assert_eq!(
        w.complete_chunk(a, 1),
        Err(WorldError::Lifecycle(LifecycleError { coordinate: a, found: ChunkState::Unspawned }))
    );
    w.queue_spawns(&vec![a]);
    assert_eq!(
        w.queue_despawn(a),
        Err(LifecycleError { coordinate: a, found: ChunkState::QueuedForSpawn })
    );
    assert_eq!(
        w.despawn_chunk(a),
        Err(LifecycleError { coordinate: a, found: ChunkState::QueuedForSpawn })
    );
    w.start_computing(a).unwrap();
    assert_eq!(
        w.start_computing(a),
        Err(LifecycleError { coordinate: a, found: ChunkState::Computing })
    );
}

#[test]
fn registry_transitions() {
    let mut r = ChunkRegistry::new();
    let a = at(1, 2, 3);
    assert_eq!(r.queue_spawns(&vec![a], 5), vec![a]);
    assert_eq!(r.len(), 1);
    r.start_computing(a).unwrap();
    let h = voxel_stream::mesh_cache::GeometryHandle { id: 3 };
    r.finish_computing(a, h).unwrap();
    assert_eq!(r.state(a), ChunkState::Spawned(h));
    r.queue_despawn(a).unwrap();
    assert_eq!(r.state(a), ChunkState::QueuedForDespawn(h));
    assert_eq!(r.finish_despawn(a), Ok(h));
    assert_eq!(r.state(a), ChunkState::Unspawned);
    assert_eq!(r.len(), 0);
}

#[test]
fn distance_is_euclidean_in_chunks() {
    let o = at(0, 0, 0);
    assert!(is_within_distance(o, at(2, 0, 0), 2));
    assert!(is_within_distance(o, at(1, 1, 0), 2));
    assert!(!is_within_distance(o, at(2, 1, 0), 2));
    assert!(!is_within_distance(o, at(10, 0, 0), 2));
    assert!(is_within_distance(at(i32::MIN, 0, 0), at(i32::MIN, 0, 0), 0));
    assert!(is_within_distance(at(i32::MIN, 0, 0), at(i32::MAX, 0, 0), u32::MAX));
    assert!(!is_within_distance(at(i32::MIN, 0, 0), at(i32::MAX, 0, 0), u32::MAX - 1));
}

#[test]
fn despawn_strategies() {
    let o = at(0, 0, 0);
    let near = at(1, 0, 0);
    let far = at(10, 0, 0);
    assert!(should_despawn(ChunkDespawnStrategy::FarAwayOrOutOfView, o, near, 2, false));
    assert!(!should_despawn(ChunkDespawnStrategy::FarAwayOrOutOfView, o, near, 2, true));
    assert!(should_despawn(ChunkDespawnStrategy::FarAwayOrOutOfView, o, far, 2, true));
    assert!(!should_despawn(ChunkDespawnStrategy::FarAway, o, near, 2, false));
    assert!(should_despawn(ChunkDespawnStrategy::FarAway, o, far, 2, true));
}

#[test]
fn camera_at_origin_spawns_only_near_chunks() {
    let mut w = VoxelWorld::new(config(2, 10000));
    let camera = at(0, 0, 0);
    // Chunks that the view rays passed through, in view in front of the camera.
    let seen = vec![at(0, 0, 1), at(0, -1, 1), at(0, 0, 2), at(0, -1, 2), at(0, 0, 10)];
    let cands = spawn_candidates(w.chunks(), camera, 2, &seen);
    assert_eq!(cands, vec![at(0, 0, 1), at(0, -1, 1), at(0, 0, 2)]);
    let queued = w.queue_spawns(&cands);
    for c in &queued {
        compute(&mut w, *c);
    }
    w.end_frame();
    for c in &cands {
        assert!(matches!(w.state(*c), ChunkState::Spawned(_)));
    }
    assert_eq!(w.state(at(0, 0, 10)), ChunkState::Unspawned);
    assert_eq!(w.state(at(0, -1, 2)), ChunkState::Unspawned);
    // Already spawned chunks are no longer candidates.
    assert!(spawn_candidates(w.chunks(), camera, 2, &seen).is_empty());
    // Everything stays while in view; turning away despawns what is out of view.
    let still = despawn_candidates(
        w.chunks(),
        camera,
        2,
        ChunkDespawnStrategy::FarAwayOrOutOfView,
        &seen,
    );
    assert!(still.is_empty());
    let visible = vec![at(0, 0, 1)];
    let gone = despawn_candidates(
        w.chunks(),
        camera,
        2,
        ChunkDespawnStrategy::FarAwayOrOutOfView,
        &visible,
    );
    assert_eq!(gone.len(), 2);
    assert!(!contains_coordinate(&gone, at(0, 0, 1)));
    let kept = despawn_candidates(w.chunks(), camera, 2, ChunkDespawnStrategy::FarAway, &visible);
    assert!(kept.is_empty());
    let moved = despawn_candidates(w.chunks(), at(0, 0, 20), 2, ChunkDespawnStrategy::FarAway, &visible);
    assert_eq!(moved.len(), 3);
}

#[test]
fn radius_discovery_covers_the_ball() {
    let r = ChunkRegistry::new();
    let o = at(0, 0, 0);
    let one = voxel_stream::visibility::radius_candidates(&r, o, 1);
    assert_eq!(one.len(), 7);
    assert!(contains_coordinate(&one, at(0, 0, -1)));
    assert!(!contains_coordinate(&one, at(1, 1, 0)));
    let two = voxel_stream::visibility::radius_candidates(&r, o, 2);
    assert_eq!(two.len(), 33);
    assert_eq!(voxel_stream::visibility::radius_candidates(&r, o, 0), vec![o]);
}

#[test]
fn radius_discovery_skips_spawned_and_edges() {
    let mut w = VoxelWorld::new(config(1, 10));
    w.queue_spawns(&vec![at(0, 0, 0), at(1, 0, 0)]);
    let left = voxel_stream::visibility::radius_candidates(w.chunks(), at(0, 0, 0), 1);
    assert_eq!(left.len(), 5);
    assert!(!contains_coordinate(&left, at(1, 0, 0)));
    let r = ChunkRegistry::new();
    let corner = voxel_stream::visibility::radius_candidates(&r, at(i32::MAX, i32::MAX, i32::MAX), 1);
    assert_eq!(corner.len(), 4);
}

#[test]
fn strategies_choose_discovery() {
    let r = ChunkRegistry::new();
    let o = at(0, 0, 0);
    let seen = vec![at(0, 0, 1), at(0, 0, 5)];
    let mut c = config(1, 10);
    let rays = voxel_stream::visibility::frame_spawn_candidates(&r, &c, o, &seen);
    assert_eq!(rays, vec![at(0, 0, 1)]);
    c.chunk_despawn_strategy = ChunkDespawnStrategy::FarAway;
    c.chunk_spawn_strategy = voxel_stream::configuration::ChunkSpawnStrategy::Close;
    let all = voxel_stream::visibility::frame_spawn_candidates(&r, &c, o, &seen);
    assert_eq!(all.len(), 7);
}
