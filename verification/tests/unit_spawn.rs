//! A produced unit's exit cell, stats and starting mission.

use ra_engine::ai::MapHouse;
use ra_engine::repath::MoveGrid;
use ra_engine::unit_spawn::{
    find_naval_spawn_cell, find_spawn_cell, produced_unit_mission, produced_unit_stats, UnitMission, UnitStats,
    WeaponFacts,
};

#[test]
fn exit_cell_is_first_free_neighbour() {
    let mut g = MoveGrid::new(10, 10, false);
    g.set_passable(5, 6, true);
    g.set_passable(4, 5, true);
    assert_eq!(find_spawn_cell(5, 5, &g), Some((5, 6)));
    let open = MoveGrid::new(10, 10, true);
    assert_eq!(find_spawn_cell(0, 0, &open), Some((1, 0)));
    let mut corner = MoveGrid::new(10, 10, false);
    corner.set_passable(1, 1, true);
    assert_eq!(find_spawn_cell(0, 0, &corner), Some((1, 1)));
    assert_eq!(find_spawn_cell(0, 0, &MoveGrid::new(10, 10, false)), None);
}

#[test]
fn stats_come_from_strength_and_weapon() {
    let gun = WeaponFacts { range: 0, damage: 30, rof: 0, warhead: None };
    assert_eq!(
        produced_unit_stats(100, 0, Some(gun), Some(4), false, 25),
        UnitStats { max_health: 100, attack_range: 1, attack_damage: 30, attack_cooldown_max: 25, warhead: Some(4) }
    );
    assert_eq!(produced_unit_stats(100, 5, Some(gun), None, true, 25).max_health, 125);
    assert_eq!(produced_unit_stats(100, 5, Some(gun), None, true, 25).attack_range, 5);
    assert_eq!(produced_unit_stats(0, 5, None, Some(2), true, 25).max_health, 2);
    let unarmed = produced_unit_stats(10, 5, None, Some(2), false, 25);
    assert_eq!(unarmed.attack_range, 0);
    assert_eq!(unarmed.attack_damage, 0);
    assert_eq!(unarmed.attack_cooldown_max, 0);
    assert_eq!(unarmed.warhead, Some(2));
    let rifle = WeaponFacts { range: 4, damage: 15, rof: 20, warhead: Some(7) };
    let s = produced_unit_stats(50, 5, Some(rifle), Some(2), false, 25);
    assert_eq!((s.attack_range, s.attack_cooldown_max, s.warhead), (4, 20, Some(7)));
}

#[test]
fn missions_for_harvesters_and_clever_ai() {
    let houses = vec![
        MapHouse { country_key: Some("USSR".to_string()), name: "USSR".to_string(), iq: 3 },
        MapHouse { country_key: Some("Ukraine".to_string()), name: "Ukraine".to_string(), iq: 0 },
    ];
    assert_eq!(produced_unit_mission(true, None, false, None, &houses, 5, 2), Some(UnitMission::Harvest));
    assert_eq!(produced_unit_mission(false, Some("USSR"), false, Some("Greece"), &houses, 5, 2), Some(UnitMission::Guard));
    assert_eq!(produced_unit_mission(false, Some("USSR"), false, Some("ussr"), &houses, 5, 2), None);
    assert_eq!(produced_unit_mission(false, Some("Ukraine"), false, Some("Greece"), &houses, 5, 2), None);
    assert_eq!(produced_unit_mission(false, Some("Neutral"), true, Some("Greece"), &houses, 5, 2), None);
    assert_eq!(produced_unit_mission(false, Some("Turkey"), false, None, &houses, 5, 2), Some(UnitMission::Guard));
    assert_eq!(produced_unit_mission(false, None, false, None, &houses, 5, 2), None);
}

#[test]
fn ships_appear_on_the_nearest_free_water_ring() {
    let mut water = MoveGrid::new(20, 20, false);
    for x in 0..20u16 {
        water.set_passable(x, 9, true);
    }
    let clear = MoveGrid::new(20, 20, true);
    // A 2x2 yard at (5, 5): ring 1 spans rows 4..=7, ring 3 reaches row 9.
    assert_eq!(find_naval_spawn_cell(&water, &clear, 5, 5, 2, 2), Some((2, 9)));
    let mut busy = MoveGrid::new(20, 20, true);
    busy.set_passable(2, 9, false);
    assert_eq!(find_naval_spawn_cell(&water, &busy, 5, 5, 2, 2), Some((3, 9)));
    assert_eq!(find_naval_spawn_cell(&MoveGrid::new(20, 20, false), &clear, 5, 5, 2, 2), None);
}
