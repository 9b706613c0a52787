//! Streaming of a procedural voxel world: a deterministic integer hash, the
//! generation of chunks of voxels from a seed and a height field, a bounded
//! least-recently-used store of loaded chunks, and the rule that decides which
//! chunk to generate next.

pub mod cache;
pub mod chunks;
pub mod constants;
pub mod noise;
pub mod state;
pub mod streaming;
