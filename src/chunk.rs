//! Chunk storage: a dense column of voxels, its local indexing and the
//! terrain fill that builds it from per-column surface data.

use vstd::prelude::*;

use crate::biome::{chosen_biome, BiomeSelector, ClimateSample};
use crate::block::BlockType;
use crate::coords::{IVec2, IVec3};

verus! {

/// Width and depth of a chunk, in blocks.
pub const CHUNK_SIZE: usize = 16;

/// Height of a chunk, in blocks.
pub const CHUNK_HEIGHT: usize = 128;

/// Half the chunk height: the centre of the base height band.
pub const HALF_CHUNK_HEIGHT: usize = 64;

/// Blocks below this height that are not bedrock hold water.
pub const WATER_HEIGHT: usize = 84;

/// Number of columns in a chunk.
pub const CHUNK_AREA: usize = CHUNK_SIZE * CHUNK_SIZE;

/// Number of voxels in a chunk.
pub const CHUNK_VOLUME: usize = CHUNK_SIZE * CHUNK_SIZE * CHUNK_HEIGHT;

/// Largest chunk coordinate (in absolute value) whose blocks have world
/// positions, one block of margin included, that fit in an `i32`.
pub const MAX_CHUNK_COORD: i32 = 134_217_726;

pub open spec fn valid_chunk_coord(c: IVec2) -> bool {
    -MAX_CHUNK_COORD <= c.x <= MAX_CHUNK_COORD && -MAX_CHUNK_COORD <= c.y <= MAX_CHUNK_COORD
}

/// Whether a local position lies inside a chunk.
pub open spec fn in_chunk(x: int, y: int, z: int) -> bool {
    0 <= x < CHUNK_SIZE && 0 <= y < CHUNK_HEIGHT && 0 <= z < CHUNK_SIZE
}

/// Linear index of a local position: y varies fastest, then z, then x.
pub open spec fn index_of(x: int, y: int, z: int) -> int {
    y + z * CHUNK_HEIGHT + x * (CHUNK_HEIGHT * CHUNK_SIZE)
}

/// Local position stored at a linear index.
pub open spec fn position_of(i: int) -> (int, int, int) {
    (i / (CHUNK_HEIGHT * CHUNK_SIZE) as int, i % CHUNK_HEIGHT as int, (i / CHUNK_HEIGHT as int)
        % CHUNK_SIZE as int)
}

/// Surface data for one column: its blended height and the ground block of
/// the biome that was picked for it.
#[derive(Copy, Clone, Debug, PartialEq, Eq, Structural)]
pub struct SurfaceColumn {
    pub height: i32,
    pub ground: BlockType,
}

/// Column height after clamping into the chunk.
pub open spec fn clamped_height(h: int) -> int {
    if h < 0 {
        0
    } else if h > CHUNK_HEIGHT - 1 {
        CHUNK_HEIGHT - 1
    } else {
        h
    }
}

/// What the terrain fill puts at height `y` of a column: bedrock at the
/// bottom, water below the water level, the ground block from the water
/// level up to and including the clamped surface height, air above both.
pub open spec fn column_block(col: SurfaceColumn, y: int) -> BlockType {
    if y == 0 {
        BlockType::Bedrock
    } else if y < WATER_HEIGHT {
        BlockType::Water
    } else if y <= clamped_height(col.height as int) {
        col.ground
    } else {
        BlockType::Air
    }
}

/// Index of a column in the surface data of a chunk.
pub open spec fn column_index(x: int, z: int) -> int {
    x * CHUNK_SIZE + z
}

/// The voxels that the terrain fill produces from the surface data.
pub open spec fn filled_blocks(columns: Seq<SurfaceColumn>) -> Seq<BlockType> {
    Seq::new(
        CHUNK_VOLUME as nat,
        |i: int|
            column_block(
                columns[column_index(position_of(i).0, position_of(i).2)],
                position_of(i).1,
            ),
    )
}

/// What terrain generation knows of one column before filling it: its
/// blended surface height and its climate.
#[derive(Copy, Clone, Debug, PartialEq, Eq, Structural)]
pub struct ColumnSample {
    pub height: i32,
    pub climate: ClimateSample,
}

/// Surface data of a column: its height, and the ground block of the biome
/// that `BiomeSelector::pick` chooses for its climate.
pub open spec fn surface_of(selector: BiomeSelector, c: ColumnSample) -> SurfaceColumn {
    SurfaceColumn {
        height: c.height,
        ground: selector.biomes@[chosen_biome(selector.biomes@, c.climate)].ground,
    }
}

/// A fixed-size column of voxels owned by one chunk coordinate.
#[derive(Clone, Debug)]
pub struct Chunk {
    pub coord: IVec2,
    pub blocks: Vec<BlockType>,
}

/// Proves that `index_of` and `position_of` are inverse bijections between
/// the local positions of a chunk and `[0, CHUNK_VOLUME)`.
pub proof fn lemma_index_bijection(x: int, y: int, z: int, i: int)
    ensures
        in_chunk(x, y, z) ==> 0 <= index_of(x, y, z) < CHUNK_VOLUME && position_of(index_of(x, y, z))
            == (x, y, z),
        0 <= i < CHUNK_VOLUME ==> in_chunk(position_of(i).0, position_of(i).1, position_of(i).2)
            && index_of(position_of(i).0, position_of(i).1, position_of(i).2) == i,
{
    if in_chunk(x, y, z) {
        lemma_index_forward(x, y, z);
    }
    if 0 <= i < CHUNK_VOLUME {
        lemma_index_backward(i);
    }
}

proof fn lemma_index_forward(x: int, y: int, z: int)
    requires
        in_chunk(x, y, z),
    ensures
        0 <= index_of(x, y, z) < CHUNK_VOLUME,
        position_of(index_of(x, y, z)) == (x, y, z),
{
    let i = y + z * 128 + x * 2048;
    assert(0 <= i < 32768) by (nonlinear_arith)
        requires
            0 <= x < 16,
            0 <= y < 128,
            0 <= z < 16,
            i == y + z * 128 + x * 2048,
    ;
    assert(i / 2048 == x && i % 128 == y && (i / 128) % 16 == z) by (nonlinear_arith)
        requires
            0 <= x < 16,
            0 <= y < 128,
            0 <= z < 16,
            i == y + z * 128 + x * 2048,
    ;
}

proof fn lemma_index_backward(i: int)
    requires
        0 <= i < CHUNK_VOLUME,
    ensures
        in_chunk(position_of(i).0, position_of(i).1, position_of(i).2),
        index_of(position_of(i).0, position_of(i).1, position_of(i).2) == i,
{
    let x = i / 2048;
    let y = i % 128;
    let z = (i / 128) % 16;
    assert(0 <= x < 16 && 0 <= y < 128 && 0 <= z < 16 && y + z * 128 + x * 2048 == i)
        by (nonlinear_arith)
        requires
            0 <= i < 32768,
            x == i / 2048,
            y == i % 128,
            z == (i / 128) % 16,
    ;
}

impl Chunk {
    /// The chunk's invariant: one voxel per local position, and a coordinate
    /// whose world positions fit in an `i32`.
    pub open spec fn wf(&self) -> bool {
        self.blocks@.len() == CHUNK_VOLUME && valid_chunk_coord(self.coord)
    }

    /// The voxel at a local position.
    pub open spec fn block_at(&self, x: int, y: int, z: int) -> BlockType {
        self.blocks@[index_of(x, y, z)]
    }

    /// Fills the chunk at `(chunk_x, chunk_z)` from its surface data, one
    /// entry per column, the column `(x, z)` at `x * CHUNK_SIZE + z`.
    pub fn from_surface(chunk_x: i32, chunk_z: i32, columns: &Vec<SurfaceColumn>) -> (r: Chunk)
        requires
            valid_chunk_coord(IVec2 { x: chunk_x, y: chunk_z }),
            columns@.len() == CHUNK_AREA,
        ensures
            r.wf(),
            r.coord == (IVec2 { x: chunk_x, y: chunk_z }),
            r.blocks@ == filled_blocks(columns@),
    {
        let mut blocks: Vec<BlockType> = Vec::with_capacity(CHUNK_VOLUME);
        let mut i: usize = 0;
        while i < CHUNK_VOLUME
            invariant
                i <= CHUNK_VOLUME,
                columns@.len() == CHUNK_AREA,
                blocks@.len() == i,
                forall|k: int| 0 <= k < i ==> blocks@[k] == #[trigger] filled_blocks(columns@)[k],
            decreases CHUNK_VOLUME - i,
        {
            let p = Self::from_index(i);
            proof {
                lemma_index_backward(i as int);
            }
            let col = columns[p.x as usize * CHUNK_SIZE + p.z as usize];
            let h: i32 = if col.height < 0 {
                0
            } else if col.height > (CHUNK_HEIGHT - 1) as i32 {
                (CHUNK_HEIGHT - 1) as i32
            } else {
                col.height
            };
            let block = if p.y == 0 {
                BlockType::Bedrock
            } else if p.y < WATER_HEIGHT as i32 {
                BlockType::Water
            } else if p.y <= h {
                col.ground
            } else {
                BlockType::Air
            };
            blocks.push(block);
            i = i + 1;
        }
        assert(blocks@ =~= filled_blocks(columns@));
        Chunk { coord: IVec2::new(chunk_x, chunk_z), blocks }
    }

    /// Generates the chunk at `(chunk_x, chunk_z)` from one sample per
    /// column (the column `(x, z)` at `x * CHUNK_SIZE + z`): each column takes
    /// the ground block of its best-matching biome and is filled up to its
    /// clamped height, with bedrock at the bottom and water below the water
    /// level.
    pub fn new(chunk_x: i32, chunk_z: i32, selector: &BiomeSelector, columns: &Vec<ColumnSample>) -> (r: Chunk)
        requires
            valid_chunk_coord(IVec2 { x: chunk_x, y: chunk_z }),
            selector.wf(),
            columns@.len() == CHUNK_AREA,
            forall|k: int| 0 <= k < columns@.len() ==> (#[trigger] columns@[k]).climate.wf(),
        ensures
            r.wf(),
            r.coord == (IVec2 { x: chunk_x, y: chunk_z }),
            r.blocks@ == filled_blocks(columns@.map_values(|c: ColumnSample| surface_of(*selector, c))),
    {
        let mut surface: Vec<SurfaceColumn> = Vec::with_capacity(CHUNK_AREA);
        let mut k: usize = 0;
        while k < columns.len()
            invariant
                selector.wf(),
                k <= columns@.len(),
                forall|j: int| 0 <= j < columns@.len() ==> (#[trigger] columns@[j]).climate.wf(),
                surface@.len() == k,
                forall|j: int| 0 <= j < k ==> surface@[j] == #[trigger] surface_of(*selector, columns@[j]),
            decreases columns@.len() - k,
        {
            let c = columns[k];
            let biome = selector.pick(&c.climate);
            surface.push(SurfaceColumn { height: c.height, ground: biome.ground_block() });
            k = k + 1;
        }
        assert(surface@ =~= columns@.map_values(|c: ColumnSample| surface_of(*selector, c)));
        Self::from_surface(chunk_x, chunk_z, &surface)
    }

    pub fn coord(&self) -> (r: IVec2)
        ensures
            r == self.coord,
    {
        self.coord
    }

    pub fn x(&self) -> (r: i32)
        ensures
            r == self.coord.x,
    {
        self.coord.x
    }

    pub fn z(&self) -> (r: i32)
        ensures
            r == self.coord.y,
    {
        self.coord.y
    }

    /// Linear index of an in-bounds local position.
    pub fn to_index(v: IVec3) -> (r: usize)
        requires
            in_chunk(v.x as int, v.y as int, v.z as int),
        ensures
            r as int == index_of(v.x as int, v.y as int, v.z as int),
            r < CHUNK_VOLUME,
    {
        proof {
            lemma_index_forward(v.x as int, v.y as int, v.z as int);
        }
        v.y as usize + v.z as usize * CHUNK_HEIGHT + v.x as usize * (CHUNK_HEIGHT * CHUNK_SIZE)
    }

    /// Local position stored at a linear index.
    pub fn from_index(i: usize) -> (r: IVec3)
        requires
            i < CHUNK_VOLUME,
        ensures
            (r.x as int, r.y as int, r.z as int) == position_of(i as int),
            in_chunk(r.x as int, r.y as int, r.z as int),
    {
        proof {
            lemma_index_backward(i as int);
        }
        IVec3::new(
            (i / (CHUNK_HEIGHT * CHUNK_SIZE)) as i32,
            (i % CHUNK_HEIGHT) as i32,
            ((i / CHUNK_HEIGHT) % CHUNK_SIZE) as i32,
        )
    }

    /// The voxel at a local position, or `None` outside the chunk.
    pub fn get_local(&self, local: IVec3) -> (r: Option<BlockType>)
        requires
            self.wf(),
        ensures
            r == (if in_chunk(local.x as int, local.y as int, local.z as int) {
                Some(self.block_at(local.x as int, local.y as int, local.z as int))
            } else {
                None
            }),
    {
        if local.x < 0 || local.x >= CHUNK_SIZE as i32 || local.y < 0 || local.y
            >= CHUNK_HEIGHT as i32 || local.z < 0 || local.z >= CHUNK_SIZE as i32 {
            return None;
        }
        Some(self.blocks[Self::to_index(local)])
    }

    /// World position of the chunk's minimum corner.
    pub fn chunk_origin(&self) -> (r: IVec3)
        requires
            self.wf(),
        ensures
            r.x == self.coord.x * CHUNK_SIZE,
            r.y == 0,
            r.z == self.coord.y * CHUNK_SIZE,
    {
        IVec3::new(self.coord.x * CHUNK_SIZE as i32, 0, self.coord.y * CHUNK_SIZE as i32)
    }
}

/// Generation is a function of the coordinate, the biome catalogue and the
/// column samples alone: two chunks generated from the same inputs hold the
/// same voxels.
pub proof fn lemma_generation_deterministic(
    selector: BiomeSelector,
    columns: Seq<ColumnSample>,
    a: Chunk,
    b: Chunk,
)
    requires
        a.blocks@ == filled_blocks(columns.map_values(|c: ColumnSample| surface_of(selector, c))),
        b.blocks@ == filled_blocks(columns.map_values(|c: ColumnSample| surface_of(selector, c))),
        a.coord == b.coord,
    ensures
        a.blocks@ == b.blocks@,
        forall|x: int, y: int, z: int| #[trigger] a.block_at(x, y, z) == b.block_at(x, y, z),
{
}

} // verus!
