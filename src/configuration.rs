use vstd::prelude::*;

verus! {

/// Texture layer index used for each face of a voxel.
#[derive(Copy, Clone, Debug, Hash, PartialEq, Eq, Structural)]
pub struct FaceTextureIndex {
    pub top: u32,
    pub left: u32,
    pub right: u32,
    pub front: u32,
    pub back: u32,
    pub bottom: u32,
}

/// The same texture layer on all six faces.
pub open spec fn uniform_faces(value: u32) -> FaceTextureIndex {
    FaceTextureIndex { top: value, left: value, right: value, front: value, back: value, bottom: value }
}

/// Per-face layers given as `[x+, x-, y+, y-, z+, z-]`.
impl From<[u32; 6]> for FaceTextureIndex {
    fn from(value: [u32; 6]) -> (r: FaceTextureIndex) {
        FaceTextureIndex {
            right: value[0],
            left: value[1],
            top: value[2],
            bottom: value[3],
            front: value[4],
            back: value[5],
        }
    }
}

impl vstd::std_specs::convert::FromSpecImpl<[u32; 6]> for FaceTextureIndex {
    open spec fn obeys_from_spec() -> bool {
        true
    }

    open spec fn from_spec(value: [u32; 6]) -> FaceTextureIndex {
        FaceTextureIndex {
            right: value@[0],
            left: value@[1],
            top: value@[2],
            bottom: value@[3],
            front: value@[4],
            back: value@[5],
        }
    }
}

/// Layers given as `[top, side, bottom]`: the top face takes the first layer, the four side
/// faces the middle one and the bottom face the last one.
impl From<[u32; 3]> for FaceTextureIndex {
    fn from(value: [u32; 3]) -> (r: FaceTextureIndex) {
        FaceTextureIndex {
            left: value[1],
            right: value[1],
            top: value[0],
            bottom: value[2],
            front: value[1],
            back: value[1],
        }
    }
}

impl vstd::std_specs::convert::FromSpecImpl<[u32; 3]> for FaceTextureIndex {
    open spec fn obeys_from_spec() -> bool {
        true
    }

    open spec fn from_spec(value: [u32; 3]) -> FaceTextureIndex {
        FaceTextureIndex {
            left: value@[1],
            right: value@[1],
            top: value@[0],
            bottom: value@[2],
            front: value@[1],
            back: value@[1],
        }
    }
}

/// One layer for all six faces.
impl From<u32> for FaceTextureIndex {
    fn from(value: u32) -> (r: FaceTextureIndex) {
        FaceTextureIndex {
            left: value,
            right: value,
            top: value,
            bottom: value,
            front: value,
            back: value,
        }
    }
}

impl vstd::std_specs::convert::FromSpecImpl<u32> for FaceTextureIndex {
    open spec fn obeys_from_spec() -> bool {
        true
    }

    open spec fn from_spec(value: u32) -> FaceTextureIndex {
        uniform_faces(value)
    }
}

/// When chunks that are already spawned get removed.
#[derive(Copy, Clone, Debug, PartialEq, Eq, Structural)]
pub enum ChunkDespawnStrategy {
    /// Despawn chunks that are further than `spawning_distance` away from the camera
    /// or outside of the viewport.
    FarAwayOrOutOfView,
    /// Only despawn chunks that are further than `spawning_distance` away from the camera.
    FarAway,
}

impl Default for ChunkDespawnStrategy {
    fn default() -> (r: ChunkDespawnStrategy)
        ensures
            r == ChunkDespawnStrategy::FarAwayOrOutOfView,
    {
        ChunkDespawnStrategy::FarAwayOrOutOfView
    }
}

/// Which missing chunks get spawned.
#[derive(Copy, Clone, Debug, PartialEq, Eq, Structural)]
pub enum ChunkSpawnStrategy {
    /// Spawn chunks that are within `spawning_distance` of the camera
    /// and also inside the viewport.
    CloseAndInView,
    /// Spawn chunks that are within `spawning_distance` of the camera, whether they are in
    /// the viewport or not. Only has an effect together with `ChunkDespawnStrategy::FarAway`.
    Close,
}

impl Default for ChunkSpawnStrategy {
    fn default() -> (r: ChunkSpawnStrategy)
        ensures
            r == ChunkSpawnStrategy::CloseAndInView,
    {
        ChunkSpawnStrategy::CloseAndInView
    }
}

/// Settings of a voxel world, each with a default value.
#[derive(Clone, Debug)]
pub struct VoxelWorldConfig {
    /// Distance in chunks to spawn chunks around the camera (default 10).
    pub spawning_distance: u32,
    /// Strategy for despawning chunks (default `FarAwayOrOutOfView`).
    pub chunk_despawn_strategy: ChunkDespawnStrategy,
    /// Strategy for spawning chunks, used only with the `FarAway` despawn strategy
    /// (default `CloseAndInView`).
    pub chunk_spawn_strategy: ChunkSpawnStrategy,
    /// Most chunks that may get queued for spawning in one frame (default 10000).
    pub max_spawn_per_frame: usize,
    /// Number of rays cast through the view to find chunks to spawn (default 100).
    pub spawning_rays: usize,
    /// How far outside of the viewport the spawning rays get cast (default 25).
    pub spawning_ray_margin: u32,
    /// Draw chunk outlines for debugging (default off).
    pub debug_draw_chunks: bool,
    /// Path of the array texture and its number of layers, if any (default none).
    pub voxel_texture: Option<(String, u32)>,
    /// Whether the world sets up its own material (default on).
    pub init_custom_materials: bool,
}

pub const DEFAULT_SPAWNING_DISTANCE: u32 = 10;
pub const DEFAULT_MAX_SPAWN_PER_FRAME: usize = 10000;
pub const DEFAULT_SPAWNING_RAYS: usize = 100;
pub const DEFAULT_SPAWNING_RAY_MARGIN: u32 = 25;

impl VoxelWorldConfig {
    /// Whether the despawn strategy lets the `Close` spawn strategy take effect.
    pub open spec fn spawns_out_of_view(&self) -> bool {
        self.chunk_despawn_strategy == ChunkDespawnStrategy::FarAway
            && self.chunk_spawn_strategy == ChunkSpawnStrategy::Close
    }

    /// Whether chunks outside the view get spawned: only with the `Close` spawn strategy
    /// together with the `FarAway` despawn strategy.
    pub fn spawns_outside_view(&self) -> (r: bool)
        ensures
            r == self.spawns_out_of_view(),
    {
        self.chunk_despawn_strategy == ChunkDespawnStrategy::FarAway
            && self.chunk_spawn_strategy == ChunkSpawnStrategy::Close
    }
}

impl Default for VoxelWorldConfig {
    fn default() -> (r: VoxelWorldConfig)
        ensures
            r.spawning_distance == DEFAULT_SPAWNING_DISTANCE,
            r.chunk_despawn_strategy == ChunkDespawnStrategy::FarAwayOrOutOfView,
            r.chunk_spawn_strategy == ChunkSpawnStrategy::CloseAndInView,
            r.max_spawn_per_frame == DEFAULT_MAX_SPAWN_PER_FRAME,
            r.spawning_rays == DEFAULT_SPAWNING_RAYS,
            r.spawning_ray_margin == DEFAULT_SPAWNING_RAY_MARGIN,
            !r.debug_draw_chunks,
            r.voxel_texture.is_none(),
            r.init_custom_materials,
    {
        VoxelWorldConfig {
            spawning_distance: DEFAULT_SPAWNING_DISTANCE,
            chunk_despawn_strategy: ChunkDespawnStrategy::FarAwayOrOutOfView,
            chunk_spawn_strategy: ChunkSpawnStrategy::CloseAndInView,
            max_spawn_per_frame: DEFAULT_MAX_SPAWN_PER_FRAME,
            spawning_rays: DEFAULT_SPAWNING_RAYS,
            spawning_ray_margin: DEFAULT_SPAWNING_RAY_MARGIN,
            debug_draw_chunks: false,
            voxel_texture: None,
            init_custom_materials: true,
        }
    }
}

/// The texture layer that the default world gives a material: materials 0 to 3 map to the
/// layer of the same number on every face, any other material to layer 0.
pub open spec fn default_texture_layer(material: u8) -> u32 {
    if material <= 3 {
        material as u32
    } else {
        0
    }
}

/// The world used when no other settings are given: all defaults, `u8` materials.
#[derive(Copy, Clone, Debug, Default)]
pub struct DefaultWorld;

impl DefaultWorld {
    /// The settings of the default world.
    pub fn config(&self) -> (r: VoxelWorldConfig)
        ensures
            r.spawning_distance == DEFAULT_SPAWNING_DISTANCE,
            r.chunk_despawn_strategy == ChunkDespawnStrategy::FarAwayOrOutOfView,
            r.chunk_spawn_strategy == ChunkSpawnStrategy::CloseAndInView,
            r.max_spawn_per_frame == DEFAULT_MAX_SPAWN_PER_FRAME,
            r.spawning_rays == DEFAULT_SPAWNING_RAYS,
            r.spawning_ray_margin == DEFAULT_SPAWNING_RAY_MARGIN,
            !r.debug_draw_chunks,
            r.voxel_texture.is_none(),
            r.init_custom_materials,
    {
        VoxelWorldConfig::default()
    }

    /// Maps a material to the texture layers of its faces.
    pub fn texture_index_mapper(&self, material: u8) -> (r: FaceTextureIndex)
        ensures
            r == uniform_faces(default_texture_layer(material)),
    {
        match material {
            0 => FaceTextureIndex::from(0u32),
            1 => FaceTextureIndex::from(1u32),
            2 => FaceTextureIndex::from(2u32),
            3 => FaceTextureIndex::from(3u32),
            _ => FaceTextureIndex::from(0u32),
        }
    }
}

} // verus!
