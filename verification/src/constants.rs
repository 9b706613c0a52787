//! The sizes that the world is built with unless told otherwise.

use vstd::prelude::*;

verus! {

/// The edge of a chunk, in voxels.
pub const CHUNK_SIZE: usize = 10;

/// The number of cells of a chunk.
pub const CHUNK_SIZE_CUBE: usize = CHUNK_SIZE * CHUNK_SIZE * CHUNK_SIZE;

/// The number of chunks that stay loaded.
pub const CHUNKS_LOADED: usize = 9;

} // verus!
