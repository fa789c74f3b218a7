//! The AI's army: combatant count and attack orders.

use ra_engine::ai::{HouseTypeKey, MapHouse};
use ra_engine::ai_army::{auto_attack_commands, count_mobile_combatants, nearest_enemy, should_produce_army_now, ArmyUnit};
use ra_engine::entities::EntityKind;
use ra_engine::PlayerState;

fn unit(id: u64, owner: Option<u32>, kind: EntityKind, damage: Option<u32>, x: u16, y: u16) -> ArmyUnit {
    ArmyUnit {
        id,
        alive: true,
        owner,
        kind: Some(kind),
        attack_damage: damage,
        has_target: false,
        guarding: false,
        cell: Some((x, y)),
    }
}

fn player(house: &str) -> PlayerState {
    PlayerState {
        house: house.to_string(),
        funds: 0,
        power_output: 0,
        power_drain: 0,
        tech_level: 10,
        stolen_allied_tech: false,
        stolen_soviet_tech: false,
        stolen_third_tech: false,
        allies: Vec::new(),
    }
}

#[test]
fn idle_armed_units_attack_nearest_enemy() {
    let houses = vec![
        HouseTypeKey { id: 1, type_key: "USSR".to_string() },
        HouseTypeKey { id: 2, type_key: "Greece".to_string() },
        HouseTypeKey { id: 3, type_key: "Neutral".to_string() },
    ];
    let players = vec![player("USSR"), player("Greece")];
    let ambient = vec!["Neutral".to_string()];
    let us = vec![
        unit(1, Some(1), EntityKind::Unit, Some(30), 0, 0),
        unit(2, Some(1), EntityKind::Infantry, Some(0), 1, 0),
        unit(3, Some(2), EntityKind::Unit, Some(30), 6, 0),
        unit(4, Some(3), EntityKind::Unit, Some(30), 1, 1),
        unit(5, None, EntityKind::Structure, None, 0, 4),
        ArmyUnit { guarding: true, ..unit(6, Some(1), EntityKind::Unit, Some(30), 9, 9) },
        ArmyUnit { has_target: true, ..unit(7, Some(1), EntityKind::Unit, Some(30), 9, 8) },
        unit(8, Some(1), EntityKind::Aircraft, Some(10), 6, 1),
    ];
    assert_eq!(count_mobile_combatants(&us, Some(1)), 4);
    assert_eq!(count_mobile_combatants(&us, Some(2)), 1);
    // The ownerless structure at distance 4 is nearest to unit 1; the Greek tank is nearest to the aircraft.
    assert_eq!(nearest_enemy(&us, 0, &houses, &players, &ambient, "USSR", Some(1)), Some(4));
    assert_eq!(nearest_enemy(&us, 2, &houses, &players, &ambient, "Greece", Some(2)), Some(7));
    assert_eq!(
        auto_attack_commands(&us, &houses, &players, &ambient, "USSR", Some(1), true),
        vec![(1, 5), (8, 3)]
    );
    assert!(auto_attack_commands(&us, &houses, &players, &ambient, "USSR", Some(1), false).is_empty());
}

#[test]
fn the_army_heuristic_counts_the_units_itself() {
    let houses = vec![MapHouse { country_key: Some("Russia".to_string()), name: "Russia".to_string(), iq: 5 }];
    let unit = |id: u64, owner: u32| ArmyUnit {
        id,
        alive: true,
        owner: Some(owner),
        kind: Some(EntityKind::Unit),
        attack_damage: Some(10),
        has_target: false,
        guarding: false,
        cell: Some((1, 1)),
    };
    // No combatant yet: the first unit goes at once.
    assert!(should_produce_army_now(&houses, "Russia", Some(1), 5, 3, &[unit(1, 2)], 7));
    // One combatant: only on the production period.
    assert!(!should_produce_army_now(&houses, "Russia", Some(1), 5, 3, &[unit(1, 1)], 7));
    assert!(should_produce_army_now(&houses, "Russia", Some(1), 5, 3, &[unit(1, 1)], 45));
}
