use voxel_stream::configuration::{
    ChunkDespawnStrategy, ChunkSpawnStrategy, DefaultWorld, FaceTextureIndex, VoxelWorldConfig,
};

#[test]
fn face_index_from_six_layers() {
    let f = FaceTextureIndex::from([1u32, 2, 3, 4, 5, 6]);
    assert_eq!(f.right, 1);
    assert_eq!(f.left, 2);
    assert_eq!(f.top, 3);
    assert_eq!(f.bottom, 4);
    assert_eq!(f.front, 5);
    assert_eq!(f.back, 6);
}

#[test]
fn face_index_from_three_layers() {
    let f = FaceTextureIndex::from([7u32, 8, 9]);
    assert_eq!(f.top, 7);
    assert_eq!(f.left, 8);
    assert_eq!(f.right, 8);
    assert_eq!(f.bottom, 9);
    assert_eq!(f.front, 8);
    assert_eq!(f.back, 8);
    assert_eq!(
        FaceTextureIndex::from([1u32, 2, 3]),
        FaceTextureIndex { top: 1, left: 2, right: 2, front: 2, back: 2, bottom: 3 }
    );
}

#[test]
fn face_index_from_one_layer() {
    let f = FaceTextureIndex::from(4u32);
    assert_eq!(
        f,
        FaceTextureIndex { top: 4, left: 4, right: 4, front: 4, back: 4, bottom: 4 }
    );
}

#[test]
fn config_defaults() {
    let c = VoxelWorldConfig::default();
    assert_eq!(c.spawning_distance, 10);
    assert_eq!(c.chunk_despawn_strategy, ChunkDespawnStrategy::FarAwayOrOutOfView);
    assert_eq!(c.chunk_spawn_strategy, ChunkSpawnStrategy::CloseAndInView);
    assert_eq!(c.max_spawn_per_frame, 10000);
    assert_eq!(c.spawning_rays, 100);
    assert_eq!(c.spawning_ray_margin, 25);
    assert!(!c.debug_draw_chunks);
    assert!(c.voxel_texture.is_none());
    assert!(c.init_custom_materials);
    assert!(!c.spawns_outside_view());
    assert_eq!(ChunkDespawnStrategy::default(), ChunkDespawnStrategy::FarAwayOrOutOfView);
    assert_eq!(ChunkSpawnStrategy::default(), ChunkSpawnStrategy::CloseAndInView);
}

#[test]
fn close_strategy_needs_far_away_despawn() {
    let mut c = VoxelWorldConfig::default();
    c.chunk_spawn_strategy = ChunkSpawnStrategy::Close;
    assert!(!c.spawns_outside_view());
    c.chunk_despawn_strategy = ChunkDespawnStrategy::FarAway;
    assert!(c.spawns_outside_view());
}

#[test]
fn default_world_texture_mapper() {
    let w = DefaultWorld;
    assert_eq!(w.texture_index_mapper(0), FaceTextureIndex::from(0u32));
    assert_eq!(w.texture_index_mapper(1), FaceTextureIndex::from(1u32));
    assert_eq!(w.texture_index_mapper(2), FaceTextureIndex::from(2u32));
    assert_eq!(w.texture_index_mapper(3), FaceTextureIndex::from(3u32));
    assert_eq!(w.texture_index_mapper(4), FaceTextureIndex::from(0u32));
    assert_eq!(w.texture_index_mapper(255), FaceTextureIndex::from(0u32));
    assert_eq!(w.config().spawning_distance, 10);
}
