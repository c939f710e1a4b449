//! Chunked voxel terrain: block classification, tree placement, a chunk cache
//! and a face-culled mesh builder, all on integers.

pub mod animation;
pub mod block;
pub mod column;
pub mod grid;
pub mod mesh;
pub mod noise;
pub mod terrain;
pub mod voxel;
