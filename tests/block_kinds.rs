use voxel_engine::block::{all_directions, BlockTextureId, BlockType, FaceDirection};

#[test]
fn get_all_lists_every_texture_once_in_order() {
    let all = BlockTextureId::get_all();
    assert_eq!(
        all,
        vec![
            BlockTextureId::GrassSide,
            BlockTextureId::GrassTop,
            BlockTextureId::Sand,
            BlockTextureId::Dirt,
            BlockTextureId::Bedrock,
            BlockTextureId::OakWoodSide,
            BlockTextureId::OakWoodTop,
            BlockTextureId::OakLeaf,
            BlockTextureId::Water,
            BlockTextureId::Stone,
            BlockTextureId::Snow,
        ]
    );
}

#[test]
fn texture_paths_point_into_the_block_directory() {
    assert_eq!(
        BlockTextureId::GrassTop.path(),
        "minecraft_assets/textures/block/grass_block_top.png"
    );
    assert_eq!(
        BlockTextureId::OakLeaf.path(),
        "minecraft_assets/textures/block/pale_oak_leaves.png"
    );
    assert_eq!(BlockTextureId::Stone.path(), "minecraft_assets/textures/block/stone.png");
}

#[test]
fn only_air_is_seethrough() {
    assert!(BlockType::Air.is_seethrough());
    assert!(!BlockType::Water.is_seethrough());
    assert!(!BlockType::Bedrock.is_seethrough());
    assert!(!BlockType::OakLeaf.is_seethrough());
}

#[test]
fn textures_depend_on_the_face() {
    assert_eq!(BlockType::Air.texture_id(FaceDirection::Top), None);
    assert_eq!(BlockType::Grass.texture_id(FaceDirection::Top), Some(BlockTextureId::GrassTop));
    assert_eq!(BlockType::Grass.texture_id(FaceDirection::Bottom), Some(BlockTextureId::Dirt));
    assert_eq!(BlockType::Grass.texture_id(FaceDirection::Left), Some(BlockTextureId::GrassSide));
    assert_eq!(BlockType::OakWood.texture_id(FaceDirection::Bottom), Some(BlockTextureId::OakWoodTop));
    assert_eq!(BlockType::OakWood.texture_id(FaceDirection::Front), Some(BlockTextureId::OakWoodSide));
    assert_eq!(BlockType::Snow.texture_id(FaceDirection::Back), Some(BlockTextureId::Snow));
}

#[test]
fn normals_are_outward_unit_vectors() {
    let n = FaceDirection::Left.normal();
    assert_eq!((n.x, n.y, n.z), (-1, 0, 0));
    let n = FaceDirection::Top.normal();
    assert_eq!((n.x, n.y, n.z), (0, 1, 0));
    let n = FaceDirection::Back.normal();
    assert_eq!((n.x, n.y, n.z), (0, 0, -1));
    assert_eq!(all_directions()[0], FaceDirection::Top);
    assert_eq!(all_directions().len(), 6);
}
