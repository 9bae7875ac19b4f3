use voxel_engine::biome::{BiomeSelector, ClimateSample};
use voxel_engine::block::BlockType;
use voxel_engine::chunk::{
    Chunk, ColumnSample, SurfaceColumn, CHUNK_AREA, CHUNK_HEIGHT, CHUNK_SIZE, CHUNK_VOLUME, WATER_HEIGHT,
};
use voxel_engine::coords::{IVec2, IVec3};

fn flat(height: i32, ground: BlockType) -> Vec<SurfaceColumn> {
    vec![SurfaceColumn { height, ground }; CHUNK_AREA]
}

#[test]
fn index_round_trip_covers_the_volume() {
    let mut seen = vec![false; CHUNK_VOLUME];
    for x in 0..CHUNK_SIZE as i32 {
        for y in 0..CHUNK_HEIGHT as i32 {
            for z in 0..CHUNK_SIZE as i32 {
                let i = Chunk::to_index(IVec3::new(x, y, z));
                assert!(i < CHUNK_VOLUME);
                assert!(!seen[i]);
                seen[i] = true;
                assert_eq!(Chunk::from_index(i), IVec3::new(x, y, z));
            }
        }
    }
    assert!(seen.iter().all(|s| *s));
    assert_eq!(Chunk::to_index(IVec3::new(0, 1, 0)), 1);
    assert_eq!(Chunk::to_index(IVec3::new(0, 0, 1)), 128);
    assert_eq!(Chunk::to_index(IVec3::new(1, 0, 0)), 2048);
}

#[test]
fn fill_puts_bedrock_water_ground_and_air() {
    let chunk = Chunk::from_surface(2, -3, &flat(100, BlockType::Grass));
    let at = |y: i32| chunk.get_local(IVec3::new(4, y, 9));
    assert_eq!(at(0), Some(BlockType::Bedrock));
    assert_eq!(at(1), Some(BlockType::Water));
    assert_eq!(at(WATER_HEIGHT as i32 - 1), Some(BlockType::Water));
    assert_eq!(at(WATER_HEIGHT as i32), Some(BlockType::Grass));
    assert_eq!(at(99), Some(BlockType::Grass));
    assert_eq!(at(100), Some(BlockType::Grass));
    assert_eq!(at(101), Some(BlockType::Air));
    assert_eq!(at(127), Some(BlockType::Air));
}

#[test]
fn low_columns_fill_with_water_to_the_water_level() {
    let chunk = Chunk::from_surface(0, 0, &flat(-5, BlockType::Sand));
    assert_eq!(chunk.get_local(IVec3::new(0, 0, 0)), Some(BlockType::Bedrock));
    assert_eq!(chunk.get_local(IVec3::new(0, 83, 0)), Some(BlockType::Water));
    assert_eq!(chunk.get_local(IVec3::new(0, 84, 0)), Some(BlockType::Air));
}

#[test]
fn surface_voxel_holds_the_ground_block() {
    let chunk = Chunk::from_surface(0, 0, &flat(WATER_HEIGHT as i32, BlockType::Sand));
    assert_eq!(chunk.get_local(IVec3::new(3, WATER_HEIGHT as i32, 3)), Some(BlockType::Sand));
    assert_eq!(chunk.get_local(IVec3::new(3, WATER_HEIGHT as i32 + 1, 3)), Some(BlockType::Air));
}

#[test]
fn tall_columns_are_clamped_to_the_chunk() {
    let chunk = Chunk::from_surface(0, 0, &flat(500, BlockType::Stone));
    assert_eq!(chunk.get_local(IVec3::new(15, 126, 15)), Some(BlockType::Stone));
    assert_eq!(chunk.get_local(IVec3::new(15, 127, 15)), Some(BlockType::Stone));
}

#[test]
fn get_local_rejects_positions_outside() {
    let chunk = Chunk::from_surface(0, 0, &flat(90, BlockType::Dirt));
    assert_eq!(chunk.get_local(IVec3::new(-1, 5, 5)), None);
    assert_eq!(chunk.get_local(IVec3::new(16, 5, 5)), None);
    assert_eq!(chunk.get_local(IVec3::new(5, -1, 5)), None);
    assert_eq!(chunk.get_local(IVec3::new(5, 128, 5)), None);
    assert_eq!(chunk.get_local(IVec3::new(5, 5, 16)), None);
    assert_eq!(chunk.get_local(IVec3::new(15, 127, 15)), Some(BlockType::Air));
}

#[test]
fn chunk_origin_scales_the_coordinate() {
    let chunk = Chunk::from_surface(-2, 5, &flat(90, BlockType::Dirt));
    assert_eq!(chunk.chunk_origin(), IVec3::new(-32, 0, 80));
    assert_eq!(chunk.coord(), IVec2::new(-2, 5));
    assert_eq!(chunk.x(), -2);
    assert_eq!(chunk.z(), 5);
}

fn samples() -> Vec<ColumnSample> {
    let mut out = Vec::new();
    for x in 0..CHUNK_SIZE as u32 {
        for z in 0..CHUNK_SIZE as u32 {
            let climate = if x < 8 {
                ClimateSample { temperature: 8500, moisture: 2500 }
            } else {
                ClimateSample { temperature: 1500, moisture: 3000 }
            };
            out.push(ColumnSample { height: 90 + z as i32, climate });
        }
    }
    out
}

#[test]
fn new_takes_the_ground_of_the_best_biome() {
    let selector = BiomeSelector::default();
    let chunk = Chunk::new(1, 1, &selector, &samples());
    assert_eq!(chunk.get_local(IVec3::new(0, 89, 0)), Some(BlockType::Sand));
    assert_eq!(chunk.get_local(IVec3::new(0, 90, 0)), Some(BlockType::Sand));
    assert_eq!(chunk.get_local(IVec3::new(0, 91, 0)), Some(BlockType::Air));
    assert_eq!(chunk.get_local(IVec3::new(12, 105, 15)), Some(BlockType::Snow));
    assert_eq!(chunk.get_local(IVec3::new(12, 106, 15)), Some(BlockType::Air));
}

#[test]
fn generation_is_deterministic() {
    let selector = BiomeSelector::default();
    let a = Chunk::new(7, -4, &selector, &samples());
    let b = Chunk::new(7, -4, &selector, &samples());
    assert_eq!(a.coord, b.coord);
    assert_eq!(a.blocks, b.blocks);
}
