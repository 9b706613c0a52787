//! Which chunk to generate next: the chunk that holds the viewer, unless it
//! is loaded or already being generated, and the bookkeeping of the chunks
//! that are under way.

use vstd::prelude::*;
use vstd::arithmetic::div_mod::lemma_fundamental_div_mod_converse;
use crate::cache::{holds_key, lemma_put_wf, spec_put, wf_entries, LoadedChunks, MAX_CAPACITY};
use crate::chunks::{spec_visible, visible_voxels, ChunkCoordinate, Voxel, VoxelChunk};

verus! {

/// The coordinate of the chunk of edge `size` that holds the point `(x, y)`:
/// each axis divided by the edge and rounded down.
pub open spec fn spec_containing_chunk(x: i64, y: i64, size: u64) -> ChunkCoordinate {
    ChunkCoordinate { x: (x as int / size as int) as i64, y: (y as int / size as int) as i64 }
}

/// `a` divided by `size`, rounded down.
fn floor_div(a: i64, size: u64) -> (q: i64)
    requires
        size > 0,
    ensures
        q == a as int / size as int,
{
    if a >= 0 {
        let q: u64 = a as u64 / size;
        assert(q <= a) by (nonlinear_arith)
            requires
                q == a as int / size as int,
                a >= 0,
                size > 0,
        ;
        q as i64
    } else {
        let m: u64 = (-(a + 1)) as u64;
        let q: u64 = m / size;
        let r: u64 = m % size;
        proof {
            assert(m == size * q + r && 0 <= r < size && q <= m) by (nonlinear_arith)
                requires
                    size > 0,
                    q == m / size,
                    r == m % size,
            ;
            assert(a as int == (-(q as int) - 1) * (size as int) + (size as int - 1 - r as int))
                by (nonlinear_arith)
                requires
                    a as int == -(m as int) - 1,
                    m == size * q + r,
            ;
            lemma_fundamental_div_mod_converse(
                a as int,
                size as int,
                -(q as int) - 1,
                size as int - 1 - r as int,
            );
        }
        -1 - (q as i64)
    }
}

/// The coordinate of the chunk of edge `size` that holds the point `(x, y)`.
/// There is none where the edge is zero.
pub fn containing_chunk(x: i64, y: i64, size: u64) -> (found: Option<ChunkCoordinate>)
    ensures
        found == if size == 0 {
            None
        } else {
            Some(spec_containing_chunk(x, y, size))
        },
{
    if size == 0 {
        None
    } else {
        Some(ChunkCoordinate { x: floor_div(x, size), y: floor_div(y, size) })
    }
}

/// The request that a tick makes: the chunk that holds the viewer, unless
/// there is no viewer, no such chunk, or the chunk is loaded or under way.
pub open spec fn spec_next_request(
    viewer: Option<(i64, i64)>,
    size: u64,
    loaded: Seq<((i64, i64), VoxelChunk)>,
    pending: Set<ChunkCoordinate>,
) -> Option<ChunkCoordinate> {
    match viewer {
        None => None,
        Some(at) => {
            let target = spec_containing_chunk(at.0, at.1, size);
            if size == 0 || holds_key(loaded, (target.x, target.y)) || pending.contains(target) {
                None
            } else {
                Some(target)
            }
        },
    }
}

/// A chunk is asked for once: what a tick asks for is the chunk that holds
/// the viewer, and it is asked for neither while it is under way nor once it
/// has been put into the store of loaded chunks.
pub proof fn lemma_request_once(
    viewer: Option<(i64, i64)>,
    size: u64,
    loaded: Seq<((i64, i64), VoxelChunk)>,
    capacity: nat,
    pending: Set<ChunkCoordinate>,
    chunk: VoxelChunk,
)
    requires
        wf_entries(loaded, capacity),
    ensures
        match spec_next_request(viewer, size, loaded, pending) {
            Some(asked) => viewer.is_some() && asked == spec_containing_chunk(
                viewer.unwrap().0,
                viewer.unwrap().1,
                size,
            ) && spec_next_request(viewer, size, loaded, pending.insert(asked)).is_none()
                && spec_next_request(
                viewer,
                size,
                spec_put(loaded, capacity, (asked.x, asked.y), chunk),
                pending.remove(asked),
            ).is_none(),
            None => true,
        },
{
    match spec_next_request(viewer, size, loaded, pending) {
        Some(asked) => {
            lemma_put_wf(loaded, capacity, (asked.x, asked.y), chunk);
        },
        None => {},
    }
}

/// Whether `coordinate` is among `pending`.
fn is_pending(pending: &Vec<ChunkCoordinate>, coordinate: ChunkCoordinate) -> (found: bool)
    ensures
        found == pending@.to_set().contains(coordinate),
{
    let mut i: usize = 0;
    while i < pending.len()
        invariant
            i <= pending@.len(),
            forall|j: int| 0 <= j < i ==> pending@[j] != coordinate,
        decreases pending@.len() - i,
    {
        if pending[i] == coordinate {
            assert(pending@.contains(coordinate));
            return true;
        }
        i += 1;
    }
    assert(!pending@.contains(coordinate));
    false
}

/// Decides what to generate for a viewer at `viewer`, in a world of chunks of
/// edge `size`, with the chunks `loaded` held and those of `pending` under
/// way: the chunk that holds the viewer, if it is neither held nor under way.
/// Without a viewer nothing is asked for.
pub fn next_request(
    viewer: Option<(i64, i64)>,
    size: u64,
    loaded: &LoadedChunks,
    pending: &Vec<ChunkCoordinate>,
) -> (request: Option<ChunkCoordinate>)
    ensures
        request == spec_next_request(viewer, size, loaded@, pending@.to_set()),
{
    match viewer {
        None => None,
        Some(at) => match containing_chunk(at.0, at.1, size) {
            None => None,
            Some(target) => {
                if loaded.is_loaded(target.x, target.y) || is_pending(pending, target) {
                    None
                } else {
                    Some(target)
                }
            },
        },
    }
}

/// Why a streamer was not made.
#[derive(Debug, PartialEq, Eq, Clone, Copy, Structural)]
pub enum ConfigError {
    /// The edge of a chunk is zero.
    ChunkSize,
    /// There is no material.
    MaterialCount,
    /// The number of chunks to keep loaded is zero or above `MAX_CAPACITY`.
    Capacity,
}

/// What a generation task is given: all of it by value.
#[derive(Debug, PartialEq, Eq, Clone, Copy, Structural)]
pub struct GenerationRequest {
    pub seed: u64,
    pub coordinate: ChunkCoordinate,
    pub size: u64,
    pub material_count: u64,
}

/// The state of the streaming of a world: its settings, the chunks that are
/// loaded and the coordinates of the chunks that are under way.
pub struct ChunkStreamer {
    seed: u64,
    chunk_size: u64,
    material_count: u64,
    loaded: LoadedChunks,
    pending: Vec<ChunkCoordinate>,
}

impl ChunkStreamer {
    /// The seed of the world.
    pub closed spec fn spec_seed(&self) -> u64 {
        self.seed
    }

    /// The edge of a chunk.
    pub closed spec fn spec_chunk_size(&self) -> u64 {
        self.chunk_size
    }

    /// The number of materials.
    pub closed spec fn spec_material_count(&self) -> u64 {
        self.material_count
    }

    /// The loaded chunks, the one put least recently first.
    pub closed spec fn spec_loaded(&self) -> Seq<((i64, i64), VoxelChunk)> {
        self.loaded@
    }

    /// The number of chunks that stay loaded.
    pub closed spec fn spec_capacity(&self) -> nat {
        self.loaded.spec_capacity()
    }

    /// The coordinates of the chunks that are under way.
    pub closed spec fn spec_pending(&self) -> Set<ChunkCoordinate> {
        self.pending@.to_set()
    }

    /// The streamer's invariant: chunks have an edge, there is a material,
    /// and the store of loaded chunks is well formed.
    pub open spec fn wf(&self) -> bool {
        &&& self.spec_chunk_size() >= 1
        &&& self.spec_material_count() >= 1
        &&& wf_entries(self.spec_loaded(), self.spec_capacity())
    }

    /// Whether nothing but the set of chunks under way differs between `self`
    /// and `other`.
    pub open spec fn same_but_pending(&self, other: &ChunkStreamer) -> bool {
        &&& self.spec_seed() == other.spec_seed()
        &&& self.spec_chunk_size() == other.spec_chunk_size()
        &&& self.spec_material_count() == other.spec_material_count()
        &&& self.spec_loaded() == other.spec_loaded()
        &&& self.spec_capacity() == other.spec_capacity()
    }

    /// What is wrong with the settings, if anything; the edge is looked at
    /// first, then the materials, then the capacity.
    pub open spec fn spec_config_error(
        chunk_size: u64,
        material_count: u64,
        capacity: usize,
    ) -> Option<ConfigError> {
        if chunk_size == 0 {
            Some(ConfigError::ChunkSize)
        } else if material_count == 0 {
            Some(ConfigError::MaterialCount)
        } else if capacity < 1 || capacity > MAX_CAPACITY {
            Some(ConfigError::Capacity)
        } else {
            None
        }
    }

    /// A streamer with nothing loaded and nothing under way, or the first
    /// fault of the settings.
    pub fn new(seed: u64, chunk_size: u64, material_count: u64, capacity: usize) -> (made: Result<
        ChunkStreamer,
        ConfigError,
    >)
        ensures
            match made {
                Ok(streamer) => Self::spec_config_error(chunk_size, material_count, capacity)
                    .is_none() && streamer.wf() && streamer.spec_seed() == seed
                    && streamer.spec_chunk_size() == chunk_size && streamer.spec_material_count()
                    == material_count && streamer.spec_capacity() == capacity
                    && streamer.spec_loaded().len() == 0 && streamer.spec_pending()
                    == Set::<ChunkCoordinate>::empty(),
                Err(e) => Self::spec_config_error(chunk_size, material_count, capacity) == Some(e),
            },
    {
        if chunk_size == 0 {
            return Err(ConfigError::ChunkSize);
        }
        if material_count == 0 {
            return Err(ConfigError::MaterialCount);
        }
        match LoadedChunks::new(capacity) {
            None => Err(ConfigError::Capacity),
            Some(loaded) => {
                let pending: Vec<ChunkCoordinate> = Vec::new();
                assert(pending@.to_set() =~= Set::<ChunkCoordinate>::empty());
                Ok(ChunkStreamer { seed, chunk_size, material_count, loaded, pending })
            },
        }
    }

    /// The seed of the world.
    pub fn seed(&self) -> (seed: u64)
        ensures
            seed == self.spec_seed(),
    {
        self.seed
    }

    /// The edge of a chunk.
    pub fn chunk_size(&self) -> (size: u64)
        ensures
            size == self.spec_chunk_size(),
    {
        self.chunk_size
    }

    /// The number of materials.
    pub fn material_count(&self) -> (count: u64)
        ensures
            count == self.spec_material_count(),
    {
        self.material_count
    }

    /// Whether the chunk at `coordinate` is loaded.
    pub fn is_loaded(&self, coordinate: ChunkCoordinate) -> (loaded: bool)
        ensures
            loaded == holds_key(self.spec_loaded(), (coordinate.x, coordinate.y)),
    {
        self.loaded.is_loaded(coordinate.x, coordinate.y)
    }

    /// Whether the chunk at `coordinate` is under way.
    pub fn is_pending(&self, coordinate: ChunkCoordinate) -> (pending: bool)
        ensures
            pending == self.spec_pending().contains(coordinate),
    {
        is_pending(&self.pending, coordinate)
    }

    /// The number of chunks that are loaded.
    pub fn loaded_len(&self) -> (n: usize)
        ensures
            n == self.spec_loaded().len(),
    {
        self.loaded.len()
    }

    /// What a tick would ask for with the viewer at `viewer`; the state stays
    /// as it is.
    pub fn next_request(&self, viewer: Option<(i64, i64)>) -> (request: Option<ChunkCoordinate>)
        ensures
            request == spec_next_request(
                viewer,
                self.spec_chunk_size(),
                self.spec_loaded(),
                self.spec_pending(),
            ),
    {
        next_request(viewer, self.chunk_size, &self.loaded, &self.pending)
    }
}

/// The coordinates of `pending` other than `done`, in their order.
fn without(pending: &Vec<ChunkCoordinate>, done: ChunkCoordinate) -> (rest: Vec<ChunkCoordinate>)
    ensures
        rest@.to_set() == pending@.to_set().remove(done),
{
    let mut rest: Vec<ChunkCoordinate> = Vec::new();
    let mut i: usize = 0;
    while i < pending.len()
        invariant
            i <= pending@.len(),
            forall|c: ChunkCoordinate|
                #[trigger] rest@.contains(c) <==> c != done && pending@.take(i as int).contains(c),
        decreases pending@.len() - i,
    {
        let current = pending[i];
        let ghost before = rest@;
        if current != done {
            rest.push(current);
        }
        proof {
            let seen = pending@.take(i as int);
            let more = pending@.take(i + 1);
            assert(more =~= seen.push(current));
            assert forall|c: ChunkCoordinate|
                #[trigger] rest@.contains(c) <==> c != done && more.contains(c) by {
                if more.contains(c) {
                    let j = choose|j: int| 0 <= j < more.len() && more[j] == c;
                    if j < seen.len() {
                        assert(seen[j] == c);
                    }
                }
                if seen.contains(c) {
                    let j = choose|j: int| 0 <= j < seen.len() && seen[j] == c;
                    assert(more[j] == c);
                }
                assert(more[seen.len() as int] == current);
                if before.contains(c) {
                    let j = choose|j: int| 0 <= j < before.len() && before[j] == c;
                    assert(rest@[j] == c);
                }
                if rest@.contains(c) {
                    let j = choose|j: int| 0 <= j < rest@.len() && rest@[j] == c;
                    if j < before.len() {
                        assert(before[j] == c);
                    }
                }
                if current != done {
                    assert(rest@[before.len() as int] == current);
                }
            }
        }
        i += 1;
    }
    proof {
        assert(pending@.take(i as int) =~= pending@);
        assert(rest@.to_set() =~= pending@.to_set().remove(done));
    }
    rest
}

/// One tick of the loading of chunks. Where the chunk that holds the viewer
/// is neither loaded nor under way, it is marked as under way and the
/// request to generate it is handed out, with the world's seed, the edge and
/// the number of materials. Otherwise nothing changes and nothing is asked
/// for.
pub fn load_chunk(streamer: &mut ChunkStreamer, viewer: Option<(i64, i64)>) -> (request: Option<
    GenerationRequest,
>)
    requires
        old(streamer).wf(),
    ensures
        final(streamer).wf(),
        final(streamer).same_but_pending(old(streamer)),
        match request {
            Some(asked) => spec_next_request(
                viewer,
                old(streamer).spec_chunk_size(),
                old(streamer).spec_loaded(),
                old(streamer).spec_pending(),
            ) == Some(asked.coordinate) && asked.seed == old(streamer).spec_seed() && asked.size
                == old(streamer).spec_chunk_size() && asked.material_count == old(
                streamer,
            ).spec_material_count() && final(streamer).spec_pending() == old(
                streamer,
            ).spec_pending().insert(asked.coordinate),
            None => spec_next_request(
                viewer,
                old(streamer).spec_chunk_size(),
                old(streamer).spec_loaded(),
                old(streamer).spec_pending(),
            ).is_none() && final(streamer).spec_pending() == old(streamer).spec_pending(),
        },
{
    match streamer.next_request(viewer) {
        None => None,
        Some(coordinate) => {
            let ghost before = streamer.pending@;
            streamer.pending.push(coordinate);
            proof {
                assert(streamer.pending@.to_set() =~= before.to_set().insert(coordinate)) by {
                    assert forall|c: ChunkCoordinate|
                        streamer.pending@.contains(c) <==> before.contains(c) || c
                            == coordinate by {
                        if before.contains(c) {
                            let j = choose|j: int| 0 <= j < before.len() && before[j] == c;
                            assert(streamer.pending@[j] == c);
                        }
                        assert(streamer.pending@[before.len() as int] == coordinate);
                    }
                }
            }
            Some(
                GenerationRequest {
                    seed: streamer.seed,
                    coordinate,
                    size: streamer.chunk_size,
                    material_count: streamer.material_count,
                },
            )
        },
    }
}

/// Takes in a chunk that a generation task has finished. The chunk is no
/// longer under way and is put into the store of loaded chunks, under its
/// coordinate, where it may push out the chunk put least recently. Handed
/// back are the voxels to show: those of the chunk whose material is one of
/// `materials`.
pub fn create_voxels(streamer: &mut ChunkStreamer, chunk: VoxelChunk, materials: &Vec<u64>) -> (visible:
    Vec<Voxel>)
    requires
        old(streamer).wf(),
    ensures
        final(streamer).wf(),
        visible@ == spec_visible(chunk.voxels@, materials@),
        final(streamer).spec_loaded() == spec_put(
            old(streamer).spec_loaded(),
            old(streamer).spec_capacity(),
            (chunk.position.x, chunk.position.y),
            chunk,
        ),
        final(streamer).spec_pending() == old(streamer).spec_pending().remove(chunk.position),
        final(streamer).spec_seed() == old(streamer).spec_seed(),
        final(streamer).spec_chunk_size() == old(streamer).spec_chunk_size(),
        final(streamer).spec_material_count() == old(streamer).spec_material_count(),
        final(streamer).spec_capacity() == old(streamer).spec_capacity(),
{
    let visible = visible_voxels(&chunk, materials);
    let position = chunk.position;
    streamer.pending = without(&streamer.pending, position);
    streamer.loaded.insert(position.x, position.y, chunk);
    visible
}

} // verus!
