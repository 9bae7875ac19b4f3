use voxel_engine::structure::{hash_2d, StructureRule};

#[test]
fn hash_2d_known_values() {
    assert_eq!(hash_2d(0, 0, 0), 0);
    assert_eq!(hash_2d(1, 2, 42), 3926075980);
    assert_eq!(hash_2d(-5, 7, 42), 303388792);
    assert_eq!(hash_2d(100, -100, 12345), 3110898013);
}

#[test]
fn should_place_checks_height_then_hash() {
    let always = StructureRule { rarity: u32::MAX, min_height: 80, max_height: 100 };
    assert!(always.should_place(1, 2, 90, 42));
    assert!(!always.should_place(1, 2, 79, 42));
    assert!(!always.should_place(1, 2, 101, 42));
    let never = StructureRule { rarity: 0, min_height: 80, max_height: 100 };
    assert!(!never.should_place(1, 2, 90, 42));
    // hash_2d(-5, 7, 42) == 303388792
    let some = StructureRule { rarity: 303388793, min_height: 0, max_height: 127 };
    assert!(some.should_place(-5, 7, 90, 42));
    let fewer = StructureRule { rarity: 303388792, min_height: 0, max_height: 127 };
    assert!(!fewer.should_place(-5, 7, 90, 42));
}
