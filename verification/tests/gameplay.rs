//! Deterministic gameplay rules: ore trees, storm, pacing, distances, costs.

use ra_engine::ai::{ai_category_order, chebyshev_u16, deterministic_roll, AiCategory};
use ra_engine::battle::BattleState;
use ra_engine::navigation::{
    facing_toward, is_adjacent_to_footprint, manhattan, manhattan_to_footprint, nearest_adjacent_to_footprint,
    take_path_step, turn_facing_toward,
};
use ra_engine::players::{house_funds, house_list_allows};
use ra_engine::powers::{start_storm, tick_storm, StormEffect, ENDING_DURATION_SENTINEL, LIGHTNING_STRIKE_INTERVAL_TICKS};
use ra_engine::terrain_spawn::{first_harvestable_id, place_spawned_ore, OverlayCell, OverlayTypeRegistry};
use ra_engine::{
    difficulty_extra_produce, difficulty_skips_offensive, houses_are_allied, produce_step_due, start_lightning_storm,
    terrain_spawn_sample, terrain_spawner_frame_signature, tick_lightning_storm, LightingProfile,
    LightningStormState, PlayerState, TechTreePlayer, TerrainSpawnerPhase, TerrainSpawnerState, TerrainSpawnerTick,
};

fn player(house: &str, funds: i32, allies: &[&str]) -> PlayerState {
    PlayerState {
        house: house.to_string(),
        funds,
        power_output: 0,
        power_drain: 0,
        tech_level: 10,
        stolen_allied_tech: false,
        stolen_soviet_tech: false,
        stolen_third_tech: false,
        allies: allies.iter().map(|a| a.to_string()).collect(),
    }
}

#[test]
fn difficulty_pacing() {
    assert!(!difficulty_skips_offensive("easy", 0));
    assert!(difficulty_skips_offensive("Easy", 1));
    assert!(!difficulty_skips_offensive("HARD", 3));
    assert!(difficulty_skips_offensive("Normal", 3));
    assert!(!difficulty_skips_offensive("Normal", 2));
    assert!(difficulty_skips_offensive("whatever", 7));
    assert!(difficulty_extra_produce("hArD"));
    assert!(!difficulty_extra_produce("Normal"));
}

#[test]
fn category_order_and_iq_gate() {
    assert_eq!(ai_category_order(false), vec![AiCategory::Power, AiCategory::Refinery]);
    let all = ai_category_order(true);
    assert_eq!(all.len(), 10);
    assert_eq!(all[2], AiCategory::Barracks);
    assert_eq!(all[9], AiCategory::Aa);
    assert!(!AiCategory::Power.requires_production_iq());
    assert!(!AiCategory::Refinery.requires_production_iq());
    assert!(AiCategory::Weapons.requires_production_iq());
}

#[test]
fn distances() {
    assert_eq!(chebyshev_u16(1, 1, 4, 3), 3);
    assert_eq!(chebyshev_u16(10, 0, 0, 2), 10);
    assert_eq!(manhattan(1, 1, 4, 3), 5);
    assert_eq!(manhattan_to_footprint(5, 5, 2, 2, 3, 3), 2);
    assert_eq!(manhattan_to_footprint(3, 3, 2, 2, 3, 3), 0);
    assert_eq!(manhattan_to_footprint(0, 3, 2, 2, 0, 0), 3);
    assert!(is_adjacent_to_footprint(5, 3, 2, 2, 3, 3));
    assert!(!is_adjacent_to_footprint(5, 5, 2, 2, 3, 3));
    assert_eq!(nearest_adjacent_to_footprint(10, 3, 2, 2, 3, 3), (5, 3));
    assert_eq!(nearest_adjacent_to_footprint(0, 0, 2, 2, 3, 3), (2, 1));
    assert_eq!(nearest_adjacent_to_footprint(0, 0, 0, 0, 1, 1), (1, 0));
}

#[test]
fn facing_and_turning() {
    assert_eq!(facing_toward(5, 5, 6, 5), 0);
    assert_eq!(facing_toward(5, 5, 6, 6), 32);
    assert_eq!(facing_toward(5, 5, 5, 6), 64);
    assert_eq!(facing_toward(5, 5, 4, 4), 160);
    assert_eq!(facing_toward(5, 5, 6, 4), 224);
    assert_eq!(facing_toward(5, 5, 5, 5), 0);
    let mut f = 0u8;
    turn_facing_toward(&mut f, 64, 16);
    assert_eq!(f, 16);
    let mut f = 10u8;
    turn_facing_toward(&mut f, 250, 8);
    assert_eq!(f, 2);
    let mut f = 0u8;
    turn_facing_toward(&mut f, 128, 200);
    assert_eq!(f, 128);
    let mut f = 5u8;
    turn_facing_toward(&mut f, 100, 0);
    assert_eq!(f, 5);
}

#[test]
fn path_step_pops_first_cell() {
    let mut path = vec![(6, 5), (7, 6)];
    assert_eq!(take_path_step(&mut path, 5, 5), Some((6, 5, 0)));
    assert_eq!(path, vec![(7, 6)]);
    assert_eq!(take_path_step(&mut path, 6, 5), Some((7, 6, 32)));
    assert_eq!(take_path_step(&mut path, 7, 6), None);
}

#[test]
fn production_payments_add_up_to_cost() {
    let mut paid = 0;
    for remaining in (1..=4).rev() {
        paid += produce_step_due(1000, 4, remaining, paid);
    }
    assert_eq!(paid, 1000);
    assert_eq!(produce_step_due(1000, 4, 4, 0), 250);
    assert_eq!(produce_step_due(1000, 3, 3, 0), 333);
    assert_eq!(produce_step_due(1000, 3, 1, 900), 100);
    assert_eq!(produce_step_due(1000, 4, 2, 900), 0);
    assert_eq!(produce_step_due(0, 4, 2, 0), 0);
    assert_eq!(produce_step_due(1000, 0, 2, 0), 0);
    assert_eq!(produce_step_due(1000, 4, 0, 0), 0);
}

#[test]
fn ore_tree_cycle() {
    let mut t = TerrainSpawnerState::new(3, 4, "TIBTRE01".to_string(), 2_000_000, 0, 6);
    assert_eq!(t.animation_probability_micros, 1_000_000);
    assert_eq!(t.animation_rate_ticks, 1);
    assert_eq!(t.midpoint_frame, 3);
    assert_eq!(t.body_frame_count(), 3);
    assert_eq!(t.render_frame(), 0);
    assert_eq!(t.tick(999_999), TerrainSpawnerTick::Started);
    assert_eq!(t.phase, TerrainSpawnerPhase::Active { current_frame: 0, ticks_until_next: 1 });
    assert_eq!(t.tick(0), TerrainSpawnerTick::Active);
    assert_eq!(t.render_frame(), 1);
    assert_eq!(t.tick(0), TerrainSpawnerTick::Active);
    assert_eq!(t.tick(0), TerrainSpawnerTick::SpawnDue);
    assert_eq!(t.phase, TerrainSpawnerPhase::Idle);

    let mut slow = TerrainSpawnerState::new(0, 0, "TIBTRE02".to_string(), 500_000, 2, 22);
    assert_eq!(slow.tick(500_000), TerrainSpawnerTick::Idle);
    assert_eq!(slow.tick(499_999), TerrainSpawnerTick::Started);
    assert_eq!(slow.tick(0), TerrainSpawnerTick::Active);
    assert_eq!(slow.phase, TerrainSpawnerPhase::Active { current_frame: 0, ticks_until_next: 1 });

    let mut never = TerrainSpawnerState::new(0, 0, "X".to_string(), 0, 1, 22);
    assert_eq!(never.tick(0), TerrainSpawnerTick::Idle);
    let odd = TerrainSpawnerState::new(0, 0, "X".to_string(), 1, 1, 0);
    assert_eq!(odd.frame_count, 1);
    assert_eq!(odd.body_frame_count(), 1);
}

#[test]
fn ore_rolls_and_signature() {
    assert_eq!(terrain_spawn_sample(0, 0, 0, 0), 0);
    assert_eq!(terrain_spawn_sample(42, 7, 10, 20), 439212);
    assert_eq!(terrain_spawn_sample(123456789, 1000, 300, 400), 633222);
    assert_eq!(terrain_spawner_frame_signature(&[]), 14695981039346656037);
    let a = TerrainSpawnerState::new(3, 4, "A".to_string(), 1, 1, 22);
    let mut b = TerrainSpawnerState::new(5, 6, "B".to_string(), 1, 1, 22);
    b.phase = TerrainSpawnerPhase::Active { current_frame: 2, ticks_until_next: 1 };
    assert_eq!(terrain_spawner_frame_signature(&[a, b]), 11711154978243865037);
    assert_eq!(deterministic_roll(1, 2, "Soviet"), 12327523484749201217);
    assert_eq!(deterministic_roll(0, 0, ""), 0);
}

#[test]
fn ore_grows_next_to_tree() {
    let reg = OverlayTypeRegistry { harvestable: vec![false, false, true, true] };
    assert_eq!(first_harvestable_id(&reg), Some(2));
    assert_eq!(first_harvestable_id(&OverlayTypeRegistry { harvestable: vec![false] }), None);

    let mut cells = vec![OverlayCell { x: 5, y: 4, overlay_id: 0, data: 0 }];
    // North neighbour holds a non-ore overlay: skipped; north-east is free.
    assert_eq!(place_spawned_ore(&mut cells, &reg, 5, 5, 20, 20), Some((6, 4)));
    assert_eq!(cells[1], OverlayCell { x: 6, y: 4, overlay_id: 2, data: 3 });

    let mut cells = vec![OverlayCell { x: 5, y: 4, overlay_id: 3, data: 10 }];
    assert_eq!(place_spawned_ore(&mut cells, &reg, 5, 5, 20, 20), Some((5, 4)));
    assert_eq!(cells[0].data, 11);
    assert_eq!(place_spawned_ore(&mut cells, &reg, 5, 5, 20, 20), Some((5, 4)));
    assert_eq!(cells[0].data, 11);

    // A tree in the corner: north is off the map, north-east too, east is free.
    let mut cells = Vec::new();
    assert_eq!(place_spawned_ore(&mut cells, &reg, 0, 0, 1, 2), Some((0, 1)));
    let mut cells = Vec::new();
    assert_eq!(place_spawned_ore(&mut cells, &reg, 0, 0, 1, 1), None);
    let mut cells = Vec::new();
    assert_eq!(
        place_spawned_ore(&mut cells, &OverlayTypeRegistry { harvestable: vec![] }, 5, 5, 20, 20),
        None
    );
    assert!(cells.is_empty());
}

fn world() -> BattleState {
    BattleState {
        tick: 0,
        match_seed: 0,
        map_width: 20,
        map_height: 20,
        overlays: Vec::new(),
        overlay_types: OverlayTypeRegistry { harvestable: vec![true] },
        terrain_spawners: Vec::new(),
        overlay_paint_dirty: Vec::new(),
        lightning_storm: None,
        lighting: LightingProfile::Normal,
    }
}

#[test]
fn battle_state_grows_ore_and_reports_cells() {
    let mut w = world();
    // Probability 1 (certain start), one frame step to the midpoint.
    w.terrain_spawners.push(TerrainSpawnerState::new(5, 5, "T".to_string(), 1_000_000, 1, 2));
    w.advance_terrain_spawners();
    assert_eq!(
        w.terrain_spawners[0].phase,
        TerrainSpawnerPhase::Active { current_frame: 0, ticks_until_next: 1 }
    );
    assert!(w.overlays.is_empty());
    w.tick = 1;
    w.advance_terrain_spawners();
    assert_eq!(w.terrain_spawners[0].phase, TerrainSpawnerPhase::Idle);
    assert_eq!(w.overlays, vec![OverlayCell { x: 5, y: 4, overlay_id: 0, data: 3 }]);
    assert_eq!(w.take_overlay_paint_dirty(), vec![(5, 4)]);
    assert!(w.take_overlay_paint_dirty().is_empty());

    w.apply_ore_tree_frame_counts(&[(5, 5, 30), (9, 9, 40), (5, 5, 0)]);
    assert_eq!(w.terrain_spawners[0].frame_count, 30);
    assert_eq!(w.terrain_spawners[0].midpoint_frame, 15);
}

#[test]
fn lightning_storm_lifecycle() {
    let mut w = world();
    start_lightning_storm(&mut w, 7, 8, 2, 1);
    assert_eq!(w.lighting, LightingProfile::Normal);
    assert_eq!(tick_lightning_storm(&mut w), None);
    assert_eq!(w.lighting, LightingProfile::Normal);
    // Countdown ends: ion lighting and the first strike at once.
    assert_eq!(tick_lightning_storm(&mut w), Some((7, 8)));
    assert_eq!(w.lighting, LightingProfile::Ion);
    // Active tick: cooldown running, duration 1 -> 0.
    assert_eq!(tick_lightning_storm(&mut w), None);
    assert_eq!(w.lightning_storm.unwrap().duration_remaining, 0);
    assert_eq!(tick_lightning_storm(&mut w), None);
    assert_eq!(w.lightning_storm.unwrap().duration_remaining, ENDING_DURATION_SENTINEL);
    assert_eq!(tick_lightning_storm(&mut w), None);
    assert!(w.lightning_storm.is_none());
    assert_eq!(w.lighting, LightingProfile::Normal);
}

#[test]
fn lightning_storm_immediate_and_retarget() {
    let mut w = world();
    start_lightning_storm(&mut w, 1, 1, -5, -1);
    assert_eq!(w.lighting, LightingProfile::Ion);
    assert_eq!(
        w.lightning_storm,
        Some(LightningStormState {
            target_x: 1,
            target_y: 1,
            deferment_remaining: 0,
            duration_remaining: -1,
            strike_cooldown: 0
        })
    );
    assert_eq!(tick_lightning_storm(&mut w), Some((1, 1)));
    assert_eq!(w.lightning_storm.unwrap().strike_cooldown, LIGHTNING_STRIKE_INTERVAL_TICKS);
    start_lightning_storm(&mut w, 9, 9, 100, 5);
    let s = w.lightning_storm.unwrap();
    assert_eq!((s.target_x, s.target_y, s.deferment_remaining, s.duration_remaining), (9, 9, 0, -1));

    let mut storm = Some(LightningStormState::new(0, 0, 10, 3));
    assert!(!start_storm(&mut storm, 2, 2, 20, 4));
    assert_eq!(storm.unwrap().deferment_remaining, 10);
    assert_eq!(storm.unwrap().duration_remaining, 4);
    assert!(start_storm(&mut storm, 2, 2, 0, 4));
    assert_eq!(tick_storm(&mut None), StormEffect::Quiet);
}

#[test]
fn alliances_and_funds() {
    let players = vec![player("Americans", 500, &["british"]), player("Russians", 700, &[]), player("British", 0, &[])];
    assert!(houses_are_allied(&players, "Americans", "British"));
    assert!(houses_are_allied(&players, "British", "AMERICANS"));
    assert!(houses_are_allied(&players, "russians", "Russians"));
    assert!(!houses_are_allied(&players, "Russians", "Americans"));
    assert!(!houses_are_allied(&players, "Nobody", "Russians"));
    assert_eq!(house_funds(&players, "russians"), 700);
    assert_eq!(house_funds(&players, "Yuri"), 0);
    assert!(house_list_allows(&["Soviet".to_string(), "Allies".to_string()], "ALLIES"));
    assert!(!house_list_allows(&[], "Allies"));
    let view = TechTreePlayer::from_player(&players[1]);
    assert_eq!(view.house, "Russians");
    assert_eq!(view.tech_level, 10);
}
