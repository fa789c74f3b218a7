//! Laws that span many calls, each on concrete values.

use ra_engine::battle::BattleState;
use ra_engine::{ComponentKind, EcsCommandBuffer, EcsWorld};
use ra_engine::navigation::nearest_adjacent_to_footprint;
use ra_engine::terrain_spawn::OverlayTypeRegistry;
use ra_engine::{
    produce_step_due, start_lightning_storm, tick_lightning_storm, LightingProfile, TerrainSpawnerState,
    TerrainSpawnerTick,
};

fn world() -> BattleState {
    BattleState {
        tick: 0,
        match_seed: 0,
        map_width: 20,
        map_height: 20,
        overlays: Vec::new(),
        overlay_types: OverlayTypeRegistry { harvestable: vec![true] },
        terrain_spawners: Vec::new(),
        overlay_paint_dirty: Vec::new(),
        lightning_storm: None,
        lighting: LightingProfile::Normal,
    }
}

#[test]
fn a_whole_build_pays_exactly_its_cost() {
    for (cost, total) in [(1000, 3), (999, 7), (1, 5), (2500, 1)] {
        let mut paid = 0;
        for remaining in (1..=total).rev() {
            let due = produce_step_due(cost, total, remaining, paid);
            assert!(due >= 0);
            paid += due;
        }
        assert_eq!(paid, cost);
    }
    assert_eq!(produce_step_due(1000, 3, 3, 0), 333);
    assert_eq!(produce_step_due(1000, 3, 2, 333), 333);
    assert_eq!(produce_step_due(1000, 3, 1, 666), 334);
}

#[test]
fn an_ore_tree_plays_midpoint_times_rate_ticks() {
    // Six frames: midpoint 3; two ticks per frame.
    let mut tree = TerrainSpawnerState::new(1, 1, "TIBTRE01".to_string(), 1_000_000, 2, 6);
    assert_eq!(tree.tick(0), TerrainSpawnerTick::Started);
    for k in 0..5 {
        assert_eq!(tree.tick(999_999 - k), TerrainSpawnerTick::Active);
    }
    assert_eq!(tree.tick(0), TerrainSpawnerTick::SpawnDue);
    assert_eq!(tree.tick(2_000_000), TerrainSpawnerTick::Idle);
}

#[test]
fn a_storm_clears_after_countdown_plus_duration_plus_two_ticks() {
    let mut w = world();
    start_lightning_storm(&mut w, 4, 4, 2, 3);
    for _ in 0..6 {
        tick_lightning_storm(&mut w);
        assert!(w.lightning_storm.is_some());
    }
    assert_eq!(w.lighting, LightingProfile::Ion);
    tick_lightning_storm(&mut w);
    assert!(w.lightning_storm.is_none());
    assert_eq!(w.lighting, LightingProfile::Normal);
}

#[test]
fn an_endless_storm_keeps_going() {
    let mut w = world();
    start_lightning_storm(&mut w, 4, 4, 0, -1);
    for _ in 0..200 {
        tick_lightning_storm(&mut w);
        assert!(w.lightning_storm.is_some());
    }
}

#[test]
fn live_entities_follow_the_history() {
    const HEALTH: ComponentKind = 1;
    let mut w: EcsWorld<u32> = EcsWorld::new();
    let a = w.spawn();
    let b = w.spawn();
    assert!(w.despawn(a));
    assert!(!w.despawn(a));
    let c = w.spawn();
    assert_eq!(w.len(), 2);
    assert!(!w.contains(a) && w.contains(b) && w.contains(c));
    let mut buf = EcsCommandBuffer::new();
    buf.spawn_with(HEALTH, 9);
    buf.despawn(b);
    let mut probe = w.copy();
    let next = probe.spawn();
    w.apply(buf);
    assert_eq!(w.len(), 2);
    assert!(!w.contains(b) && w.contains(next));
    assert_eq!(w.get(next, HEALTH), Some(&9));
}

#[test]
fn the_approach_cell_is_the_first_nearest_edge_cell() {
    // A 2x2 footprint at (10, 10): from (0, 0), (10, 9) and (9, 10) are both
    // at distance 19; (10, 9) comes first in row order.
    assert_eq!(nearest_adjacent_to_footprint(0, 0, 10, 10, 2, 2), (10, 9));
    // From the far side the nearest edge cell lies below the footprint.
    assert_eq!(nearest_adjacent_to_footprint(11, 30, 10, 10, 2, 2), (11, 12));
}
