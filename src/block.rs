//! Block kinds, their texture identifiers and the six face directions.

use vstd::prelude::*;

use crate::coords::IVec3;

verus! {

/// What a single voxel holds.
#[derive(Copy, Clone, Debug, PartialEq, Eq, Structural)]
pub enum BlockType {
    Air,
    Grass,
    Dirt,
    Sand,
    Bedrock,
    OakWood,
    OakLeaf,
    Water,
    Stone,
    Snow,
}

/// One tile of the block texture atlas.
#[derive(Copy, Clone, Debug, PartialEq, Eq, Hash, Structural)]
pub enum BlockTextureId {
    GrassSide,
    GrassTop,
    Sand,
    Dirt,
    Bedrock,
    OakWoodSide,
    OakWoodTop,
    OakLeaf,
    Water,
    Stone,
    Snow,
}

/// The six faces of a unit cube.
#[derive(Copy, Clone, Debug, PartialEq, Eq, Structural)]
pub enum FaceDirection {
    Right,
    Left,
    Top,
    Bottom,
    Front,
    Back,
}

/// Every texture identifier, in declaration order.
pub open spec fn all_texture_ids() -> Seq<BlockTextureId> {
    seq![
        BlockTextureId::GrassSide,
        BlockTextureId::GrassTop,
        BlockTextureId::Sand,
        BlockTextureId::Dirt,
        BlockTextureId::Bedrock,
        BlockTextureId::OakWoodSide,
        BlockTextureId::OakWoodTop,
        BlockTextureId::OakLeaf,
        BlockTextureId::Water,
        BlockTextureId::Stone,
        BlockTextureId::Snow,
    ]
}

/// Asset path of the image behind a texture identifier.
pub open spec fn texture_path(id: BlockTextureId) -> Seq<char> {
    match id {
        BlockTextureId::GrassTop => "minecraft_assets/textures/block/grass_block_top.png"@,
        BlockTextureId::GrassSide => "minecraft_assets/textures/block/grass_block_side.png"@,
        BlockTextureId::Dirt => "minecraft_assets/textures/block/dirt.png"@,
        BlockTextureId::Sand => "minecraft_assets/textures/block/sand.png"@,
        BlockTextureId::Bedrock => "minecraft_assets/textures/block/bedrock.png"@,
        BlockTextureId::OakLeaf => "minecraft_assets/textures/block/pale_oak_leaves.png"@,
        BlockTextureId::OakWoodSide => "minecraft_assets/textures/block/oak_log.png"@,
        BlockTextureId::OakWoodTop => "minecraft_assets/textures/block/oak_log_top.png"@,
        BlockTextureId::Water => "minecraft_assets/textures/block/water.png"@,
        BlockTextureId::Snow => "minecraft_assets/textures/block/snow.png"@,
        BlockTextureId::Stone => "minecraft_assets/textures/block/stone.png"@,
    }
}

impl BlockTextureId {
    /// All identifiers, one each, in declaration order.
    pub fn get_all() -> (r: Vec<BlockTextureId>)
        ensures
            r@ == all_texture_ids(),
    {
        vec![
            BlockTextureId::GrassSide,
            BlockTextureId::GrassTop,
            BlockTextureId::Sand,
            BlockTextureId::Dirt,
            BlockTextureId::Bedrock,
            BlockTextureId::OakWoodSide,
            BlockTextureId::OakWoodTop,
            BlockTextureId::OakLeaf,
            BlockTextureId::Water,
            BlockTextureId::Stone,
            BlockTextureId::Snow,
        ]
    }

    /// Asset path of the texture image.
    pub fn path(&self) -> (r: String)
        ensures
            r@ == texture_path(*self),
    {
        let s: &str = match self {
            BlockTextureId::GrassTop => "minecraft_assets/textures/block/grass_block_top.png",
            BlockTextureId::GrassSide => "minecraft_assets/textures/block/grass_block_side.png",
            BlockTextureId::Dirt => "minecraft_assets/textures/block/dirt.png",
            BlockTextureId::Sand => "minecraft_assets/textures/block/sand.png",
            BlockTextureId::Bedrock => "minecraft_assets/textures/block/bedrock.png",
            BlockTextureId::OakLeaf => "minecraft_assets/textures/block/pale_oak_leaves.png",
            BlockTextureId::OakWoodSide => "minecraft_assets/textures/block/oak_log.png",
            BlockTextureId::OakWoodTop => "minecraft_assets/textures/block/oak_log_top.png",
            BlockTextureId::Water => "minecraft_assets/textures/block/water.png",
            BlockTextureId::Snow => "minecraft_assets/textures/block/snow.png",
            BlockTextureId::Stone => "minecraft_assets/textures/block/stone.png",
        };
        s.to_owned()
    }
}

/// The face directions in the order the mesher visits them.
pub open spec fn directions() -> Seq<FaceDirection> {
    seq![
        FaceDirection::Top,
        FaceDirection::Bottom,
        FaceDirection::Left,
        FaceDirection::Right,
        FaceDirection::Front,
        FaceDirection::Back,
    ]
}

/// Outward unit normal of a face direction.
pub open spec fn normal_of(d: FaceDirection) -> (int, int, int) {
    match d {
        FaceDirection::Right => (1, 0, 0),
        FaceDirection::Left => (-1, 0, 0),
        FaceDirection::Top => (0, 1, 0),
        FaceDirection::Bottom => (0, -1, 0),
        FaceDirection::Front => (0, 0, 1),
        FaceDirection::Back => (0, 0, -1),
    }
}

/// Whether a kind never hides a neighbouring face.
pub open spec fn seethrough(b: BlockType) -> bool {
    b == BlockType::Air
}

/// Texture of one face of a block, none for air.
pub open spec fn texture_of(b: BlockType, face: FaceDirection) -> Option<BlockTextureId> {
    match b {
        BlockType::Air => None,
        BlockType::Grass => Some(
            match face {
                FaceDirection::Top => BlockTextureId::GrassTop,
                FaceDirection::Bottom => BlockTextureId::Dirt,
                _ => BlockTextureId::GrassSide,
            },
        ),
        BlockType::OakWood => Some(
            match face {
                FaceDirection::Top => BlockTextureId::OakWoodTop,
                FaceDirection::Bottom => BlockTextureId::OakWoodTop,
                _ => BlockTextureId::OakWoodSide,
            },
        ),
        BlockType::OakLeaf => Some(BlockTextureId::OakLeaf),
        BlockType::Dirt => Some(BlockTextureId::Dirt),
        BlockType::Bedrock => Some(BlockTextureId::Bedrock),
        BlockType::Sand => Some(BlockTextureId::Sand),
        BlockType::Water => Some(BlockTextureId::Water),
        BlockType::Stone => Some(BlockTextureId::Stone),
        BlockType::Snow => Some(BlockTextureId::Snow),
    }
}

impl BlockType {
    pub fn is_seethrough(&self) -> (r: bool)
        ensures
            r == seethrough(*self),
    {
        match self {
            Self::Air => true,
            _ => false,
        }
    }

    pub fn texture_id(&self, face: FaceDirection) -> (r: Option<BlockTextureId>)
        ensures
            r == texture_of(*self, face),
    {
        match self {
            BlockType::Air => None,
            BlockType::Grass => Some(
                match face {
                    FaceDirection::Top => BlockTextureId::GrassTop,
                    FaceDirection::Bottom => BlockTextureId::Dirt,
                    _ => BlockTextureId::GrassSide,
                },
            ),
            BlockType::OakWood => Some(
                match face {
                    FaceDirection::Top => BlockTextureId::OakWoodTop,
                    FaceDirection::Bottom => BlockTextureId::OakWoodTop,
                    _ => BlockTextureId::OakWoodSide,
                },
            ),
            BlockType::OakLeaf => Some(BlockTextureId::OakLeaf),
            BlockType::Dirt => Some(BlockTextureId::Dirt),
            BlockType::Bedrock => Some(BlockTextureId::Bedrock),
            BlockType::Sand => Some(BlockTextureId::Sand),
            BlockType::Water => Some(BlockTextureId::Water),
            BlockType::Stone => Some(BlockTextureId::Stone),
            BlockType::Snow => Some(BlockTextureId::Snow),
        }
    }
}

impl FaceDirection {
    /// Outward unit normal.
    pub fn normal(self) -> (r: IVec3)
        ensures
            (r.x as int, r.y as int, r.z as int) == normal_of(self),
    {
        match self {
            Self::Right => IVec3::new(1, 0, 0),
            Self::Left => IVec3::new(-1, 0, 0),
            Self::Top => IVec3::new(0, 1, 0),
            Self::Bottom => IVec3::new(0, -1, 0),
            Self::Front => IVec3::new(0, 0, 1),
            Self::Back => IVec3::new(0, 0, -1),
        }
    }
}

/// The face directions in the order the mesher visits them.
pub fn all_directions() -> (r: Vec<FaceDirection>)
    ensures
        r@ == directions(),
{
    vec![
        FaceDirection::Top,
        FaceDirection::Bottom,
        FaceDirection::Left,
        FaceDirection::Right,
        FaceDirection::Front,
        FaceDirection::Back,
    ]
}

} // verus!
