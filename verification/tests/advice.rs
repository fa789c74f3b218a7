//! IQ gates, heuristic production pacing, base ratios, animation choice and
//! the funds reminder.

use ra_engine::ai::{
    heuristic_should_produce_army, house_army_driven_by_ai_triggers, house_iq, iq_allows, needs_ratio_category, AiTriggerOwner,
    HouseTypeKey, MapHouse, TeamTypeHouse,
};
use ra_engine::eva::tick_eva_funds_nag;
use ra_engine::presentation::{derive_anim_state, AnimSignals, AnimState};
use ra_engine::PlayerState;

fn house(key: Option<&str>, name: &str, iq: i32) -> MapHouse {
    MapHouse { country_key: key.map(|k| k.to_string()), name: name.to_string(), iq }
}

fn side(funds: i32) -> PlayerState {
    PlayerState {
        house: "Russia".to_string(),
        funds,
        power_output: 0,
        power_drain: 0,
        tech_level: 10,
        stolen_allied_tech: false,
        stolen_soviet_tech: false,
        stolen_third_tech: false,
        allies: Vec::new(),
    }
}

fn quiet() -> AnimSignals {
    AnimSignals { dead: false, hit_flash: false, fire_flash: false, producing: false, has_target: false, moving: false }
}

#[test]
fn iq_comes_from_first_matching_map_house() {
    let houses = vec![house(None, "Russia", 1), house(Some("russia"), "X", 2), house(Some("USSR"), "Russia", 3)];
    assert_eq!(house_iq(&houses, "Russia", 5), 2);
    assert_eq!(house_iq(&houses, "ussr", 5), 3);
    assert_eq!(house_iq(&houses, "Greece", 5), 5);
    assert!(iq_allows(&houses, "Russia", 5, 2));
    assert!(!iq_allows(&houses, "Russia", 5, 3));
}

#[test]
fn heuristic_production_pacing() {
    let houses = vec![house(Some("Russia"), "Russia", 4)];
    assert!(heuristic_should_produce_army(&houses, "Russia", 5, 3, 0, 7));
    assert!(!heuristic_should_produce_army(&houses, "Russia", 5, 5, 0, 7));
    assert!(!heuristic_should_produce_army(&houses, "Russia", 5, 3, 3, 7));
    assert!(heuristic_should_produce_army(&houses, "Russia", 5, 3, 3, 90));
    assert!(!heuristic_should_produce_army(&houses, "Russia", 5, 3, 8, 90));
}

#[test]
fn base_ratio_wants() {
    assert!(!needs_ratio_category(false, 0, 0, 500, 10));
    assert!(needs_ratio_category(true, 0, 0, 0, 10));
    assert!(!needs_ratio_category(true, 2, 2, 500, 10));
    assert!(!needs_ratio_category(true, 1, 0, 0, 10));
    // 10 buildings at 300 per mille want 3.
    assert!(needs_ratio_category(true, 2, 0, 300, 10));
    assert!(!needs_ratio_category(true, 3, 0, 300, 10));
    // The limit caps the want.
    assert!(!needs_ratio_category(true, 2, 2, 900, 10));
    // A small share still wants one.
    assert!(!needs_ratio_category(true, 1, 0, 10, 10));
    assert!(!needs_ratio_category(true, 1, 0, 10, 0));
}

#[test]
fn animation_priority() {
    let mut s = quiet();
    assert_eq!(derive_anim_state(s), AnimState::Idle);
    s.moving = true;
    assert_eq!(derive_anim_state(s), AnimState::Move);
    s.has_target = true;
    assert_eq!(derive_anim_state(s), AnimState::Attack);
    s.producing = true;
    assert_eq!(derive_anim_state(s), AnimState::Produce);
    s.fire_flash = true;
    assert_eq!(derive_anim_state(s), AnimState::Attack);
    s.hit_flash = true;
    assert_eq!(derive_anim_state(s), AnimState::TakeDamage);
    s.dead = true;
    assert_eq!(derive_anim_state(s), AnimState::Die);
}

#[test]
fn funds_reminder_repeats_after_the_delay() {
    let players = vec![side(50), side(500), side(50)];
    let factory = [true, true, false];
    let mut ticks = vec![0, 0, 0];
    assert_eq!(tick_eva_funds_nag(&mut ticks, &players, &factory, 3), vec![0]);
    assert_eq!(ticks, vec![3, 0, 0]);
    assert!(tick_eva_funds_nag(&mut ticks, &players, &factory, 3).is_empty());
    assert!(tick_eva_funds_nag(&mut ticks, &players, &factory, 3).is_empty());
    assert_eq!(ticks, vec![1, 0, 0]);
    assert_eq!(tick_eva_funds_nag(&mut ticks, &players, &factory, 3), vec![0]);
    assert_eq!(ticks, vec![3, 0, 0]);
    // A zero delay switches the reminder off and freezes the countdown.
    assert!(tick_eva_funds_nag(&mut ticks, &players, &factory, 0).is_empty());
    assert_eq!(ticks, vec![3, 0, 0]);
}

#[test]
fn ai_triggers_drive_army_of_their_house() {
    let houses = vec![
        HouseTypeKey { id: 1, type_key: "Russia".to_string() },
        HouseTypeKey { id: 2, type_key: "Americans".to_string() },
    ];
    let teams = vec![TeamTypeHouse { id: 10, house: Some(2) }, TeamTypeHouse { id: 11, house: None }];
    assert!(!house_army_driven_by_ai_triggers(&[], &teams, &houses, "Russia"));
    let owned = [AiTriggerOwner { owner_house: Some(1), team: 10 }];
    assert!(house_army_driven_by_ai_triggers(&owned, &teams, &houses, "russia"));
    assert!(!house_army_driven_by_ai_triggers(&owned, &teams, &houses, "Americans"));
    let by_team = [AiTriggerOwner { owner_house: None, team: 10 }];
    assert!(house_army_driven_by_ai_triggers(&by_team, &teams, &houses, "AMERICANS"));
    assert!(!house_army_driven_by_ai_triggers(&by_team, &teams, &houses, "Russia"));
    let any_house = [AiTriggerOwner { owner_house: None, team: 11 }];
    assert!(house_army_driven_by_ai_triggers(&any_house, &teams, &houses, "Russia"));
    let missing_team = [AiTriggerOwner { owner_house: None, team: 99 }];
    assert!(!house_army_driven_by_ai_triggers(&missing_team, &teams, &houses, "Russia"));
    let missing_house = [AiTriggerOwner { owner_house: Some(7), team: 11 }];
    assert!(!house_army_driven_by_ai_triggers(&missing_house, &teams, &houses, "Russia"));
}
