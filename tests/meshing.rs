use voxel_engine::block::{BlockTextureId, BlockType};
use voxel_engine::chunk::{Chunk, SurfaceColumn, CHUNK_AREA, CHUNK_VOLUME};
use voxel_engine::coords::{IVec2, IVec3};
use voxel_engine::mesh_builder::MeshBuilder;
use voxel_engine::mesher::BlockAccess;
use voxel_engine::registry::{ChunkMap, WorldBlockAccess};

fn single_voxel(pos: IVec3, block: BlockType) -> Chunk {
    let mut blocks = vec![BlockType::Air; CHUNK_VOLUME];
    blocks[Chunk::to_index(pos)] = block;
    Chunk { coord: IVec2::new(0, 0), blocks }
}

fn solid_chunk(x: i32, z: i32) -> Chunk {
    Chunk::from_surface(x, z, &vec![SurfaceColumn { height: 127, ground: BlockType::Stone }; CHUNK_AREA])
}

#[test]
fn isolated_bedrock_voxel_gets_six_faces() {
    let chunk = single_voxel(IVec3::new(0, 0, 0), BlockType::Bedrock);
    for y in 1..128 {
        assert_eq!(chunk.get_local(IVec3::new(0, y, 0)), Some(BlockType::Air));
    }
    let registry = ChunkMap::new();
    let mesh = chunk.build_chunk_mesh(&registry);
    assert_eq!(mesh.positions.len(), 24);
    assert_eq!(mesh.normals.len(), 24);
    assert_eq!(mesh.textures.len(), 24);
    assert_eq!(mesh.indices.len(), 36);
    assert!(mesh.textures.iter().all(|t| *t == BlockTextureId::Bedrock));
}

#[test]
fn face_buffers_hold_corners_normals_and_indices() {
    let chunk = single_voxel(IVec3::new(3, 5, 7), BlockType::Grass);
    let mesh = chunk.build_chunk_mesh(&ChunkMap::new());
    // the top face comes first
    assert_eq!(mesh.positions[0], IVec3::new(5, 11, 15));
    assert_eq!(mesh.positions[1], IVec3::new(7, 11, 15));
    assert_eq!(mesh.positions[2], IVec3::new(7, 11, 13));
    assert_eq!(mesh.positions[3], IVec3::new(5, 11, 13));
    assert_eq!(mesh.normals[0], IVec3::new(0, 1, 0));
    assert_eq!(mesh.textures[0], BlockTextureId::GrassTop);
    // then the bottom face
    assert_eq!(mesh.normals[4], IVec3::new(0, -1, 0));
    assert_eq!(mesh.textures[4], BlockTextureId::Dirt);
    assert_eq!(mesh.textures[8], BlockTextureId::GrassSide);
    assert_eq!(&mesh.indices[0..12], &[0, 1, 2, 0, 2, 3, 4, 5, 6, 4, 6, 7]);
}

#[test]
fn touching_voxels_hide_their_shared_faces() {
    let mut blocks = vec![BlockType::Air; CHUNK_VOLUME];
    blocks[Chunk::to_index(IVec3::new(4, 4, 4))] = BlockType::Stone;
    blocks[Chunk::to_index(IVec3::new(5, 4, 4))] = BlockType::Stone;
    let chunk = Chunk { coord: IVec2::new(0, 0), blocks };
    let mesh = chunk.build_chunk_mesh(&ChunkMap::new());
    assert_eq!(mesh.indices.len(), 10 * 6);
}

#[test]
fn add_face_appends_one_quad() {
    let mut mb = MeshBuilder::with_capacity_faces(2);
    mb.add_face(voxel_engine::block::FaceDirection::Right, IVec3::new(0, 0, 0), BlockTextureId::Sand);
    mb.add_face(voxel_engine::block::FaceDirection::Back, IVec3::new(1, 2, 3), BlockTextureId::Dirt);
    assert_eq!(mb.positions.len(), 8);
    assert_eq!(mb.positions[0], IVec3::new(1, -1, 1));
    assert_eq!(mb.positions[4], IVec3::new(3, 3, 5));
    assert_eq!(mb.normals[4], IVec3::new(0, 0, -1));
    assert_eq!(mb.indices, vec![0, 1, 2, 0, 2, 3, 4, 5, 6, 4, 6, 7]);
}

#[test]
fn loaded_neighbour_culls_the_seam_unloaded_one_does_not() {
    let mut registry = ChunkMap::new();
    registry.insert(solid_chunk(0, 0), true);
    let alone = registry.get(IVec2::new(0, 0)).unwrap().build_chunk_mesh(&registry);
    // top and bottom 256 each, four sides of 16 x 128
    assert_eq!(alone.indices.len() / 6, 256 + 256 + 4 * 2048);
    registry.insert(solid_chunk(1, 0), true);
    let with_neighbour = registry.get(IVec2::new(0, 0)).unwrap().build_chunk_mesh(&registry);
    assert_eq!(with_neighbour.indices.len() / 6, 256 + 256 + 3 * 2048);
}

#[test]
fn block_access_resolves_across_chunks() {
    let mut registry = ChunkMap::new();
    let mut blocks = vec![BlockType::Air; CHUNK_VOLUME];
    blocks[Chunk::to_index(IVec3::new(15, 90, 15))] = BlockType::OakLeaf;
    registry.insert(Chunk { coord: IVec2::new(-1, -1), blocks }, false);
    assert_eq!(registry.get_block(IVec3::new(-1, 90, -1)), Some(BlockType::OakLeaf));
    assert_eq!(registry.get_block(IVec3::new(-16, 90, -16)), Some(BlockType::Air));
    assert_eq!(registry.get_block(IVec3::new(-17, 90, -1)), None);
    assert_eq!(registry.get_block(IVec3::new(0, 90, 0)), None);
    assert_eq!(registry.get_block(IVec3::new(-1, 128, -1)), None);
    assert_eq!(registry.get_block(IVec3::new(-1, -1, -1)), None);
}

#[test]
fn seam_solidity_matches_the_owning_chunk() {
    let mut registry = ChunkMap::new();
    registry.insert(solid_chunk(0, 0), true);
    let mut blocks = vec![BlockType::Air; CHUNK_VOLUME];
    blocks[Chunk::to_index(IVec3::new(0, 50, 3))] = BlockType::Stone;
    registry.insert(Chunk { coord: IVec2::new(1, 0), blocks }, true);
    // chunk (0, 0) sees the neighbour's voxel at world (16, 50, 3) as solid
    let seen = registry.get_block(IVec3::new(16, 50, 3)).unwrap();
    let own = registry.get(IVec2::new(1, 0)).unwrap().get_local(IVec3::new(0, 50, 3)).unwrap();
    assert_eq!(seen.is_seethrough(), own.is_seethrough());
    assert!(!seen.is_seethrough());
    let mesh = registry.get(IVec2::new(0, 0)).unwrap().build_chunk_mesh(&registry);
    // one face on the +x side at (15, 50, 3) is hidden by that voxel
    assert_eq!(mesh.indices.len() / 6, 256 + 256 + 4 * 2048 - 1);
}

#[test]
fn world_block_access_reads_through_the_map() {
    let mut registry = ChunkMap::new();
    registry.insert(solid_chunk(0, 0), true);
    registry.insert(solid_chunk(0, 1), true);
    let access = WorldBlockAccess { map: &registry };
    assert_eq!(access.get_block(IVec3::new(3, 100, 17)), Some(BlockType::Stone));
    assert_eq!(access.get_block(IVec3::new(3, 10, 17)), Some(BlockType::Water));
    assert_eq!(access.get_block(IVec3::new(3, 10, -1)), None);
    let through_view = registry.get(IVec2::new(0, 0)).unwrap().build_chunk_mesh(&access);
    let direct = registry.get(IVec2::new(0, 0)).unwrap().build_chunk_mesh(&registry);
    assert_eq!(through_view.indices.len(), direct.indices.len());
    assert_eq!(through_view.positions, direct.positions);
    assert_eq!(direct.indices.len() / 6, 256 + 256 + 3 * 2048);
}
