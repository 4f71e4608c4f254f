//! Incremental meshing of a chunked voxel world.
//!
//! A world is a sparse grid of cubic chunks. Each chunk is a dense, padded
//! array of voxels. This crate turns chunk contents into triangle geometry by
//! greedy face merging and schedules that work under a per-tick budget.
//!
//! Every function here carries a contract that is checked statically.

pub mod voxel;
pub mod shape;
pub mod chunk;
pub mod greedy;
pub mod mesh;
pub mod mesher;
pub mod surface;
pub mod storage;
pub mod render;
pub mod scratch;
pub mod scheduler;
