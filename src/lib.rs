//! Streaming voxel chunks: which chunks to spawn and despawn around a camera, the life cycle
//! of each chunk, and a content-addressed cache that lets chunks with the same voxels share
//! one mesh, dropping it once no chunk holds it.

pub mod chunk;
pub mod configuration;
pub mod mesh_cache;
pub mod visibility;
pub mod voxel;
pub mod world;
