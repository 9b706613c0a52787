//! Chunks of voxels and their generation from a seed and a height field.

use vstd::prelude::*;
use crate::noise::{noise_1d, noise_2d, noise_3d, spec_noise_1d, spec_noise_2d, spec_noise_3d};

verus! {

/// The place of a chunk in the grid of chunks. Two chunks with equal
/// coordinates are the same chunk.
#[derive(Debug, PartialEq, Eq, Clone, Copy, Hash, Structural)]
pub struct ChunkCoordinate {
    pub x: i64,
    pub y: i64,
}

/// One unit cube of terrain: its place inside its chunk, its identity and the
/// index of its material.
#[derive(Debug, PartialEq, Eq, Clone, Copy, Structural)]
pub struct Voxel {
    pub x: u64,
    pub y: u64,
    pub z: u64,
    pub id: u64,
    pub pbr_id: u64,
}

/// A chunk: its coordinate and its voxels, column by column.
#[derive(Debug, PartialEq, Eq, Clone)]
pub struct VoxelChunk {
    pub position: ChunkCoordinate,
    pub voxels: Vec<Voxel>,
}

/// Why a chunk was not generated.
#[derive(Debug, PartialEq, Eq, Clone, Copy, Structural)]
pub enum GenerateError {
    /// There is no material to pick from.
    NoMaterials,
    /// The height field does not hold one height for each column.
    HeightFieldShape,
    /// A column is taller than the chunk.
    ColumnTooTall,
}

impl Default for Voxel {
    fn default() -> (voxel: Self)
        ensures
            voxel == (Voxel { x: 0, y: 0, z: 0, id: 0, pbr_id: 0 }),
    {
        Voxel { x: 0, y: 0, z: 0, id: 0, pbr_id: 0 }
    }
}

impl Default for VoxelChunk {
    fn default() -> (chunk: Self)
        ensures
            chunk.position == (ChunkCoordinate { x: 0, y: 0 }),
            chunk.voxels@ == Seq::<Voxel>::empty(),
    {
        VoxelChunk { position: ChunkCoordinate { x: 0, y: 0 }, voxels: Vec::new() }
    }
}

/// The number of the cell `(x, y, z)` when the cells of a chunk of edge `size`
/// are counted from one, `z` fastest and `x` slowest, on 64 bits.
pub open spec fn spec_linear_index(size: u64, x: u64, y: u64, z: u64) -> u64 {
    x.wrapping_mul(size).wrapping_add(y).wrapping_mul(size).wrapping_add(z).wrapping_add(1)
}

/// The voxel of the cell `(x, y, z)`.
pub open spec fn spec_voxel(seed: u64, size: u64, materials: u64, x: u64, y: u64, z: u64) -> Voxel {
    Voxel {
        x,
        y,
        z,
        id: spec_noise_1d(spec_linear_index(size, x, y, z), seed),
        pbr_id: spec_noise_3d(x, y, z, seed) % materials,
    }
}

/// The voxels of the column over `(x, z)`, from the ground up.
pub open spec fn spec_column(
    seed: u64,
    size: u64,
    materials: u64,
    x: u64,
    z: u64,
    height: nat,
) -> Seq<Voxel> {
    Seq::new(height, |y: int| spec_voxel(seed, size, materials, x, y as u64, z))
}

/// The voxels of the first `count` columns. Column `c` stands over
/// `(c / size, c % size)` and is `heights[c]` voxels tall.
pub open spec fn spec_columns(
    seed: u64,
    size: u64,
    materials: u64,
    heights: Seq<u64>,
    count: nat,
) -> Seq<Voxel>
    decreases count,
{
    if count == 0 {
        Seq::empty()
    } else {
        let c = (count - 1) as nat;
        spec_columns(seed, size, materials, heights, c) + spec_column(
            seed,
            size,
            materials,
            (c / size as nat) as u64,
            (c % size as nat) as u64,
            heights[c as int] as nat,
        )
    }
}

/// Whether a chunk of edge `size` can be made from `heights` with `materials`
/// materials.
pub open spec fn spec_generate_error(size: u64, materials: u64, heights: Seq<u64>) -> Option<
    GenerateError,
> {
    if materials == 0 {
        Some(GenerateError::NoMaterials)
    } else if heights.len() != size * size {
        Some(GenerateError::HeightFieldShape)
    } else if exists|c: int| 0 <= c < heights.len() && heights[c] > size {
        Some(GenerateError::ColumnTooTall)
    } else {
        None
    }
}

/// The seed of the height field of the chunk at `coordinate`.
pub open spec fn spec_chunk_seed(seed: u64, coordinate: ChunkCoordinate) -> u64 {
    spec_noise_2d(coordinate.x as u64, coordinate.y as u64, seed)
}

/// The seed to hand to the height-field generator for the chunk at
/// `coordinate`. Negative coordinates count down from two to the 64th.
pub fn chunk_seed(seed: u64, coordinate: ChunkCoordinate) -> (field_seed: u64)
    ensures
        field_seed == spec_chunk_seed(seed, coordinate),
{
    noise_2d(coordinate.x as u64, coordinate.y as u64, seed)
}

/// The heights of the first `count` columns, added up.
pub open spec fn spec_voxel_count(heights: Seq<u64>, count: nat) -> nat
    decreases count,
{
    if count == 0 {
        0
    } else {
        spec_voxel_count(heights, (count - 1) as nat) + heights[count - 1] as nat
    }
}

/// The first `count` columns hold as many voxels as their heights add up to.
pub proof fn lemma_voxel_count(seed: u64, size: u64, materials: u64, heights: Seq<u64>, count: nat)
    ensures
        spec_columns(seed, size, materials, heights, count).len() == spec_voxel_count(
            heights,
            count,
        ),
    decreases count,
{
    if count > 0 {
        lemma_voxel_count(seed, size, materials, heights, (count - 1) as nat);
    }
}

/// Each voxel's material is one of the `materials` materials.
pub proof fn lemma_materials_in_range(
    seed: u64,
    size: u64,
    materials: u64,
    heights: Seq<u64>,
    count: nat,
)
    requires
        materials > 0,
    ensures
        forall|i: int|
            0 <= i < spec_columns(seed, size, materials, heights, count).len() ==> (
            #[trigger] spec_columns(seed, size, materials, heights, count)[i]).pbr_id
                < materials,
    decreases count,
{
    if count > 0 {
        let c = (count - 1) as nat;
        lemma_materials_in_range(seed, size, materials, heights, c);
        let before = spec_columns(seed, size, materials, heights, c);
        let x = (c / size as nat) as u64;
        let z = (c % size as nat) as u64;
        let column = spec_column(seed, size, materials, x, z, heights[c as int] as nat);
        let all = spec_columns(seed, size, materials, heights, count);
        assert(all == before + column);
        assert forall|i: int| 0 <= i < all.len() implies (#[trigger] all[i]).pbr_id
            < materials by {
            if i < before.len() {
                assert(all[i] == before[i]);
            } else {
                let y = i - before.len();
                assert(all[i] == column[y]);
                let hashed = spec_noise_3d(x, y as u64, z, seed);
                assert(column[y].pbr_id == hashed % materials);
                assert(hashed % materials < materials);
            }
        }
    }
}

/// The voxel `y` cells up the column `c` stands behind the voxels of the
/// columns before it, and is the voxel of its cell.
pub proof fn lemma_voxel_at(
    seed: u64,
    size: u64,
    materials: u64,
    heights: Seq<u64>,
    count: nat,
    c: nat,
    y: nat,
)
    requires
        c < count <= heights.len(),
        y < heights[c as int],
    ensures
        spec_voxel_count(heights, c) + y < spec_columns(seed, size, materials, heights, count).len(),
        spec_columns(seed, size, materials, heights, count)[(spec_voxel_count(heights, c)
            + y) as int]
            == spec_voxel(
            seed,
            size,
            materials,
            (c / size as nat) as u64,
            y as u64,
            (c % size as nat) as u64,
        ),
    decreases count,
{
    let before = spec_columns(seed, size, materials, heights, (count - 1) as nat);
    lemma_voxel_count(seed, size, materials, heights, (count - 1) as nat);
    if c + 1 < count {
        lemma_voxel_at(seed, size, materials, heights, (count - 1) as nat, c, y);
    }
}

/// Columns that are all `height` tall hold `height` voxels each.
pub proof fn lemma_level_ground(heights: Seq<u64>, count: nat, height: u64)
    requires
        count <= heights.len(),
        forall|c: int| 0 <= c < count ==> heights[c] == height,
    ensures
        spec_voxel_count(heights, count) == count * height,
    decreases count,
{
    if count > 0 {
        lemma_level_ground(heights, (count - 1) as nat, height);
        assert(count * height == (count - 1) * height + height) by (nonlinear_arith);
    } else {
        assert(count * height == 0) by (nonlinear_arith)
            requires
                count == 0,
        ;
    }
}

/// The number of the cell `(x, y, z)`, counted from one.
fn linear_index(size: u64, x: u64, y: u64, z: u64) -> (index: u64)
    ensures
        index == spec_linear_index(size, x, y, z),
{
    x.wrapping_mul(size).wrapping_add(y).wrapping_mul(size).wrapping_add(z).wrapping_add(1)
}

/// Whether `heights` holds one height for each column of a chunk of edge
/// `size`.
fn has_shape(size: u64, heights: &Vec<u64>) -> (shaped: bool)
    ensures
        shaped <==> heights@.len() == size * size,
{
    let n: u64 = heights.len() as u64;
    if size == 0 {
        n == 0
    } else {
        let q: u64 = n / size;
        let r: u64 = n % size;
        proof {
            assert(n == size * q + r && 0 <= r < size) by (nonlinear_arith)
                requires
                    size > 0,
                    q == n / size,
                    r == n % size,
            ;
            assert((q == size && r == 0) <==> n == size * size) by (nonlinear_arith)
                requires
                    size > 0,
                    n == size * q + r,
                    0 <= r < size,
            ;
        }
        q == size && r == 0
    }
}

/// The first column that is taller than `size`, if there is one.
fn first_too_tall(size: u64, heights: &Vec<u64>) -> (found: Option<usize>)
    ensures
        match found {
            Some(c) => c < heights@.len() && heights@[c as int] > size && forall|d: int|
                0 <= d < c ==> heights@[d] <= size,
            None => forall|d: int| 0 <= d < heights@.len() ==> heights@[d] <= size,
        },
{
    let mut c: usize = 0;
    while c < heights.len()
        invariant
            c <= heights@.len(),
            forall|d: int| 0 <= d < c ==> heights@[d] <= size,
        decreases heights@.len() - c,
    {
        if heights[c] > size {
            return Some(c);
        }
        c += 1;
    }
    None
}

/// Generates the chunk at `pos`: over each column `(x, z)` of a square of
/// edge `size` it stacks as many voxels as `heights` gives for that column,
/// the column of `(x, z)` at index `x * size + z`. A voxel's identity is the
/// noise of its cell's number, its material the noise of its place, reduced
/// to the number of materials.
///
/// Nothing is generated without a material, from a height field of another
/// shape, or with a column taller than the chunk; the errors are tested in
/// that order.
pub fn generate_chunk(
    seed: u64,
    pos: ChunkCoordinate,
    size: u64,
    number_of_materials: u64,
    heights: &Vec<u64>,
) -> (generated: Result<VoxelChunk, GenerateError>)
    ensures
        match generated {
            Ok(chunk) => spec_generate_error(size, number_of_materials, heights@).is_none()
                && chunk.position == pos && chunk.voxels@ == spec_columns(
                seed,
                size,
                number_of_materials,
                heights@,
                heights@.len(),
            ) && chunk.voxels@.len() == spec_voxel_count(heights@, heights@.len()) && forall|
                i: int,
            |
                0 <= i < chunk.voxels@.len() ==> (#[trigger] chunk.voxels@[i]).pbr_id
                    < number_of_materials,
            Err(e) => spec_generate_error(size, number_of_materials, heights@) == Some(e),
        },
{
    if number_of_materials == 0 {
        return Err(GenerateError::NoMaterials);
    }
    if !has_shape(size, heights) {
        return Err(GenerateError::HeightFieldShape);
    }
    if first_too_tall(size, heights).is_some() {
        return Err(GenerateError::ColumnTooTall);
    }
    let mut voxels: Vec<Voxel> = Vec::new();
    let mut c: usize = 0;
    while c < heights.len()
        invariant
            c <= heights@.len(),
            number_of_materials > 0,
            heights@.len() == size * size,
            voxels@ == spec_columns(seed, size, number_of_materials, heights@, c as nat),
        decreases heights@.len() - c,
    {
        assert(size > 0) by (nonlinear_arith)
            requires
                c < size * size,
        ;
        let x: u64 = c as u64 / size;
        let z: u64 = c as u64 % size;
        let height: u64 = heights[c];
        let mut y: u64 = 0;
        while y < height
            invariant
                y <= height,
                number_of_materials > 0,
                voxels@ == spec_columns(seed, size, number_of_materials, heights@, c as nat)
                    + spec_column(seed, size, number_of_materials, x, z, y as nat),
            decreases height - y,
        {
            let voxel = Voxel {
                x,
                y,
                z,
                id: noise_1d(linear_index(size, x, y, z), seed),
                pbr_id: noise_3d(x, y, z, seed) % number_of_materials,
            };
            voxels.push(voxel);
            assert(spec_column(seed, size, number_of_materials, x, z, (y + 1) as nat)
                =~= spec_column(seed, size, number_of_materials, x, z, y as nat).push(voxel));
            y += 1;
        }
        c += 1;
    }
    proof {
        lemma_voxel_count(seed, size, number_of_materials, heights@, heights@.len());
        lemma_materials_in_range(seed, size, number_of_materials, heights@, heights@.len());
    }
    Ok(VoxelChunk { position: pos, voxels })
}

/// The voxels among `voxels` whose material is one of `materials`, in their
/// order.
pub open spec fn spec_visible(voxels: Seq<Voxel>, materials: Seq<u64>) -> Seq<Voxel> {
    voxels.filter(|voxel: Voxel| materials.contains(voxel.pbr_id))
}

/// Whether `material` is one of `materials`.
fn has_material(materials: &Vec<u64>, material: u64) -> (found: bool)
    ensures
        found == materials@.contains(material),
{
    let mut i: usize = 0;
    while i < materials.len()
        invariant
            i <= materials@.len(),
            forall|j: int| 0 <= j < i ==> materials@[j] != material,
        decreases materials@.len() - i,
    {
        if materials[i] == material {
            return true;
        }
        i += 1;
    }
    false
}

/// The voxels of `chunk` that can be shown: those whose material is one of
/// `materials`, in the order in which the chunk holds them. A voxel of an
/// unknown material is left out, which is no fault.
pub fn visible_voxels(chunk: &VoxelChunk, materials: &Vec<u64>) -> (visible: Vec<Voxel>)
    ensures
        visible@ == spec_visible(chunk.voxels@, materials@),
{
    let ghost known = |voxel: Voxel| materials@.contains(voxel.pbr_id);
    let mut visible: Vec<Voxel> = Vec::new();
    let mut i: usize = 0;
    proof {
        reveal(Seq::filter);
        assert(chunk.voxels@.take(0).len() == 0);
    }
    while i < chunk.voxels.len()
        invariant
            i <= chunk.voxels@.len(),
            known == |voxel: Voxel| materials@.contains(voxel.pbr_id),
            visible@ == chunk.voxels@.take(i as int).filter(known),
        decreases chunk.voxels@.len() - i,
    {
        let voxel = chunk.voxels[i];
        proof {
            reveal(Seq::filter);
            assert(chunk.voxels@.take(i + 1).drop_last() =~= chunk.voxels@.take(i as int));
            assert(chunk.voxels@.take(i + 1).last() == voxel);
        }
        if has_material(materials, voxel.pbr_id) {
            visible.push(voxel);
        }
        i += 1;
    }
    assert(chunk.voxels@.take(i as int) =~= chunk.voxels@);
    visible
}

/// Whether the chunk `vc` lies within `len` of `pos` on both axes.
pub fn is_loaded(vc: &VoxelChunk, pos: ChunkCoordinate, len: u64) -> (near: bool)
    ensures
        near <==> vstd::math::abs(vc.position.x - pos.x) < len && vstd::math::abs(
            vc.position.y - pos.y,
        ) < len,
{
    let dx: i128 = vc.position.x as i128 - pos.x as i128;
    let across: i128 = if dx < 0 { -dx } else { dx };
    if across >= len as i128 {
        return false;
    }
    let dy: i128 = vc.position.y as i128 - pos.y as i128;
    let along: i128 = if dy < 0 { -dy } else { dy };
    if along >= len as i128 {
        return false;
    }
    true
}

} // verus!
