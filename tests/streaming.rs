use voxel_engine::block::BlockType;
use voxel_engine::chunk::{Chunk, SurfaceColumn, CHUNK_AREA};
use voxel_engine::coords::IVec2;
use voxel_engine::registry::ChunkMap;
use voxel_engine::streaming::{
    detect_player_chunk, execute_despawns, mesh_work, execute_promotions, execute_spawns, reconcile_chunks,
    update_desired_chunk_set, DesiredChunkEntry, PlayerChunkPositionTracker, StreamingController,
};

fn generator() -> impl Fn(IVec2) -> Chunk {
    let columns = vec![SurfaceColumn { height: 90, ground: BlockType::Grass }; CHUNK_AREA];
    move |c: IVec2| Chunk::from_surface(c.x, c.y, &columns)
}

fn meshed_count(registry: &ChunkMap) -> usize {
    registry.coords().iter().filter(|c| registry.is_meshed(**c) == Some(true)).count()
}

#[test]
fn detect_player_chunk_uses_floor_division() {
    let mut t = PlayerChunkPositionTracker { current: IVec2::new(0, 0), previous: IVec2::new(0, 0) };
    assert!(!detect_player_chunk(&mut t, 15, 0));
    assert!(detect_player_chunk(&mut t, -1, -17));
    assert_eq!(t.current, IVec2::new(-1, -2));
    assert_eq!(t.previous, IVec2::new(0, 0));
    assert!(!detect_player_chunk(&mut t, -16, -32));
    assert_eq!(t.previous, IVec2::new(0, 0));
}

#[test]
fn desired_set_is_a_meshed_square_with_a_loaded_ring() {
    let t = PlayerChunkPositionTracker { current: IVec2::new(0, 0), previous: IVec2::new(0, 0) };
    let mut desired = Vec::new();
    assert!(update_desired_chunk_set(&t, 8, &mut desired));
    assert_eq!(desired.len(), 361);
    assert_eq!(desired.iter().filter(|e| e.should_be_meshed).count(), 289);
    for e in &desired {
        assert!(e.coord.x.abs() <= 9 && e.coord.y.abs() <= 9);
        assert_eq!(e.should_be_meshed, e.coord.x.abs() <= 8 && e.coord.y.abs() <= 8);
    }
    // no recomputation while the viewer stays put
    assert!(!update_desired_chunk_set(&t, 3, &mut desired));
    assert_eq!(desired.len(), 361);
}

#[test]
fn reconcile_diffs_desired_against_registry() {
    let gen = generator();
    let mut registry = ChunkMap::new();
    registry.insert(gen(IVec2::new(0, 0)), false);
    registry.insert(gen(IVec2::new(5, 5)), true);
    let desired = vec![
        DesiredChunkEntry { coord: IVec2::new(0, 0), should_be_meshed: true },
        DesiredChunkEntry { coord: IVec2::new(1, 0), should_be_meshed: false },
    ];
    let (mut spawn, mut despawn, mut promote) = (Vec::new(), Vec::new(), Vec::new());
    reconcile_chunks(&desired, &registry, &mut spawn, &mut despawn, &mut promote);
    assert_eq!(spawn, vec![desired[1]]);
    assert_eq!(promote, vec![IVec2::new(0, 0)]);
    assert_eq!(despawn, vec![IVec2::new(5, 5)]);

    execute_promotions(&mut promote, &mut registry);
    assert_eq!(registry.is_meshed(IVec2::new(0, 0)), Some(true));
    assert!(promote.is_empty());
    assert_eq!(execute_despawns(&mut despawn, &mut registry, None), 1);
    assert!(!registry.contains_coord(IVec2::new(5, 5)));
    assert!(despawn.is_empty());
    assert_eq!(execute_spawns(&mut spawn, &mut registry, None, &gen), 1);
    assert_eq!(registry.is_meshed(IVec2::new(1, 0)), Some(false));
    assert_eq!(registry.len(), 2);
}

#[test]
fn execute_spawns_respects_the_budget() {
    let gen = generator();
    let mut registry = ChunkMap::new();
    let mut spawn: Vec<DesiredChunkEntry> = (0..10)
        .map(|i| DesiredChunkEntry { coord: IVec2::new(i, 0), should_be_meshed: true })
        .collect();
    assert_eq!(execute_spawns(&mut spawn, &mut registry, Some(3), &gen), 3);
    assert_eq!(registry.len(), 3);
    assert_eq!(spawn.len(), 7);
    // entries leave from the back of the queue
    assert!(registry.contains_coord(IVec2::new(9, 0)));
    assert!(registry.contains_coord(IVec2::new(7, 0)));
    assert!(!registry.contains_coord(IVec2::new(6, 0)));
    assert_eq!(execute_spawns(&mut spawn, &mut registry, None, &gen), 7);
    assert_eq!(registry.len(), 10);
    assert_eq!(execute_spawns(&mut spawn, &mut registry, Some(3), &gen), 0);
}

#[test]
fn streaming_around_origin_loads_the_full_square() {
    let gen = generator();
    let mut registry = ChunkMap::new();
    let mut ctrl = StreamingController::new(8, None, None);
    assert_eq!(ctrl.tick(&mut registry, 0, 0, &gen), 361);
    assert_eq!(registry.len(), 361);
    assert_eq!(meshed_count(&registry), 289);
    assert_eq!(ctrl.tick(&mut registry, 3, 5, &gen), 0);
    assert_eq!(registry.len(), 361);
}

#[test]
fn budgeted_streaming_converges_and_stays_put() {
    let gen = generator();
    let mut registry = ChunkMap::new();
    let mut ctrl = StreamingController::new(8, Some(50), None);
    let mut ticks = 0;
    while ctrl.tick(&mut registry, 0, 0, &gen) > 0 {
        ticks += 1;
        assert!(registry.len() <= 50 * ticks);
    }
    assert_eq!(ticks, 8);
    assert_eq!(registry.len(), 361);
    assert_eq!(meshed_count(&registry), 289);
    for x in -9..=9 {
        for z in -9..=9 {
            assert_eq!(registry.is_meshed(IVec2::new(x, z)), Some(x.abs() <= 8 && z.abs() <= 8));
        }
    }
    assert_eq!(ctrl.tick(&mut registry, 0, 0, &gen), 0);
    assert_eq!(registry.len(), 361);
}

#[test]
fn moving_viewer_despawns_behind_and_promotes_ahead() {
    let gen = generator();
    let mut registry = ChunkMap::new();
    let mut ctrl = StreamingController::new(8, None, None);
    ctrl.tick(&mut registry, 0, 0, &gen);
    assert_eq!(ctrl.tick(&mut registry, 48, 0, &gen), 57);
    assert_eq!(registry.len(), 361);
    assert!(!registry.contains_coord(IVec2::new(-7, 0)));
    assert!(registry.contains_coord(IVec2::new(12, 0)));
    assert_eq!(registry.is_meshed(IVec2::new(9, 0)), Some(true));
    assert_eq!(registry.is_meshed(IVec2::new(12, 0)), Some(false));
    for x in -5..=11 {
        for z in -8..=8 {
            assert_eq!(registry.is_meshed(IVec2::new(x, z)), Some(true));
        }
    }
}

#[test]
fn mesh_work_builds_missing_and_drops_stale_meshes() {
    let gen = generator();
    let mut registry = ChunkMap::new();
    registry.insert(gen(IVec2::new(0, 0)), true);
    registry.insert(gen(IVec2::new(1, 0)), true);
    registry.insert(gen(IVec2::new(2, 0)), false);
    let have = vec![IVec2::new(1, 0), IVec2::new(2, 0), IVec2::new(7, 7)];
    let (build, drop) = mesh_work(&registry, &have);
    assert_eq!(build, vec![IVec2::new(0, 0)]);
    assert_eq!(drop, vec![IVec2::new(2, 0), IVec2::new(7, 7)]);
}

#[test]
fn despawns_respect_their_budget() {
    let gen = generator();
    let mut registry = ChunkMap::new();
    let mut ctrl = StreamingController::new(2, None, Some(4));
    ctrl.tick(&mut registry, 0, 0, &gen);
    assert_eq!(registry.len(), 49);
    // moving 10 chunks away leaves all 49 old chunks to unload, 4 per tick
    assert_eq!(ctrl.tick(&mut registry, 160, 0, &gen), 49);
    assert_eq!(registry.len(), 49 + 45);
    let mut ticks = 1;
    while registry.len() > 49 {
        assert_eq!(ctrl.tick(&mut registry, 160, 0, &gen), 0);
        ticks += 1;
    }
    assert_eq!(ticks, 13);
    assert!(registry.contains_coord(IVec2::new(10, 0)));
    assert!(!registry.contains_coord(IVec2::new(0, 0)));
    ctrl.tick(&mut registry, 160, 0, &gen);
    assert_eq!(registry.len(), 49);
}
