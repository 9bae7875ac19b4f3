use voxel_engine::biome::{Biome, BiomeKind, BiomeSelector, ClimateSample, SurfaceRules};
use voxel_engine::biomes::{Desert, Jungle, Plains, Tundra};
use voxel_engine::block::BlockType;

#[test]
fn compute_delta_is_weighted_fourth_power() {
    let plains = SurfaceRules { desired_temperature: 6000, desired_moisture: 5000, temp_weight: 10, moist_weight: 10 };
    let sample = ClimateSample { temperature: 7000, moisture: 3000 };
    assert_eq!(plains.compute_delta(&sample), 170_000_000_000_000);
    let at_target = ClimateSample { temperature: 6000, moisture: 5000 };
    assert_eq!(plains.compute_delta(&at_target), 0);
}

#[test]
fn pick_finds_the_biome_at_its_own_target() {
    let selector = BiomeSelector::default();
    assert_eq!(selector.biomes.len(), 7);
    let desert = selector.pick(&ClimateSample { temperature: 8500, moisture: 2500 });
    assert_eq!(desert.kind, BiomeKind::Desert);
    assert_eq!(desert.ground_block(), BlockType::Sand);
    let jungle = selector.pick(&ClimateSample { temperature: 8500, moisture: 9000 });
    assert_eq!(jungle.kind, BiomeKind::Jungle);
    let tundra = selector.pick(&ClimateSample { temperature: 0, moisture: 3000 });
    assert_eq!(tundra.kind, BiomeKind::Tundra);
    assert_eq!(tundra.ground_block(), BlockType::Snow);
}

#[test]
fn pick_on_equal_costs_returns_one_of_them() {
    let rules = SurfaceRules { desired_temperature: 5000, desired_moisture: 5000, temp_weight: 10, moist_weight: 10 };
    let selector = BiomeSelector {
        biomes: vec![
            Biome { surface: rules, kind: BiomeKind::Savanna, ground: BlockType::Dirt },
            Biome { surface: rules, kind: BiomeKind::Plains, ground: BlockType::Grass },
        ],
    };
    let picked = selector.pick(&ClimateSample { temperature: 1000, moisture: 9000 });
    assert!(picked.kind == BiomeKind::Savanna || picked.kind == BiomeKind::Plains);
    assert_eq!(picked.surface, rules);
}

#[test]
fn standalone_biomes_have_their_ground() {
    assert_eq!(Plains.ground_block(), BlockType::Grass);
    assert_eq!(Desert.ground_block(), BlockType::Sand);
    assert_eq!(Jungle.ground_block(), BlockType::Grass);
    assert_eq!(Tundra.ground_block(), BlockType::Snow);
    assert_eq!(Desert.get_surface().temp_weight, 50);
    assert_eq!(Tundra.get_surface().desired_temperature, 1500);
}

#[test]
fn selector_construction_rejects_bad_catalogues() {
    assert!(BiomeSelector::new(vec![]).is_none());
    let bad = SurfaceRules { desired_temperature: 10_001, desired_moisture: 0, temp_weight: 10, moist_weight: 10 };
    assert!(BiomeSelector::new(vec![Biome { surface: bad, kind: BiomeKind::Plains, ground: BlockType::Grass }]).is_none());
    let heavy = SurfaceRules { desired_temperature: 0, desired_moisture: 0, temp_weight: 101, moist_weight: 10 };
    assert!(BiomeSelector::new(vec![Biome { surface: heavy, kind: BiomeKind::Plains, ground: BlockType::Grass }]).is_none());
    let good = SurfaceRules { desired_temperature: 10_000, desired_moisture: 0, temp_weight: 100, moist_weight: 0 };
    let sel = BiomeSelector::new(vec![Biome { surface: good, kind: BiomeKind::Desert, ground: BlockType::Sand }]).unwrap();
    assert_eq!(sel.pick(&ClimateSample { temperature: 0, moisture: 0 }).kind, BiomeKind::Desert);
}
