//! AI trigger conditions and their comparison.

use ra_engine::ai_conditions::{
    ai_trigger_condition_holds, count_type_owned_by, max_enemy_funds, AiCondition, AiConditionKind,
    AiConditionWorld, AiTriggerCompareOp, OwnerClass, PlayerPower,
};
use ra_engine::entities::{EntityIdentity, EntityKind, EntityRecord};
use ra_engine::super_weapons::{SuperWeaponRuntime, WeaponFilter};
use ra_engine::PlayerState;

#[test]
fn compare_ops_match_spec() {
    assert!(AiTriggerCompareOp::GreaterEqual.compare(1, 1));
    assert!(!AiTriggerCompareOp::Greater.compare(1, 1));
    assert!(AiTriggerCompareOp::Less.compare(0, 1));
}

#[test]
fn remaining_compare_ops() {
    assert!(AiTriggerCompareOp::LessEqual.compare(1, 1));
    assert!(!AiTriggerCompareOp::LessEqual.compare(2, 1));
    assert!(AiTriggerCompareOp::Equal.compare(-3, -3));
    assert!(AiTriggerCompareOp::NotEqual.compare(0, 1));
    assert!(!AiTriggerCompareOp::NotEqual.compare(1, 1));
}

fn thing(alive: bool, owner: &str, type_id: &str) -> EntityRecord {
    EntityRecord {
        alive,
        owner: Some(owner.to_string()),
        identity: Some(EntityIdentity { kind: EntityKind::Unit, type_id: type_id.to_string(), tag: None }),
        cell: None,
    }
}

fn player(house: &str, funds: i32, allies: &[&str]) -> PlayerState {
    PlayerState {
        house: house.to_string(),
        funds,
        power_output: 0,
        power_drain: 0,
        tech_level: 10,
        stolen_allied_tech: false,
        stolen_soviet_tech: false,
        stolen_third_tech: false,
        allies: allies.iter().map(|s| s.to_string()).collect(),
    }
}

fn cond(kind: AiConditionKind, object: Option<&str>, op: AiTriggerCompareOp, amount: i32) -> AiCondition {
    AiCondition { kind, object_type: object.map(|s| s.to_string()), weapon: WeaponFilter::AnyWeapon, op, amount }
}

struct Fixture {
    entities: Vec<EntityRecord>,
    players: Vec<PlayerState>,
    power: Vec<PlayerPower>,
    ambient: Vec<String>,
    sw: SuperWeaponRuntime,
}

fn fixture() -> Fixture {
    let mut sw = SuperWeaponRuntime::new();
    sw.set_charge_for_test("Russia", "Nuke", 30, 60);
    Fixture {
        entities: vec![
            thing(true, "Russia", "HTNK"),
            thing(true, "Americans", "MTNK"),
            thing(true, "Americans", "MTNK"),
            thing(false, "Americans", "MTNK"),
            thing(true, "British", "MTNK"),
            thing(true, "Neutral", "MTNK"),
        ],
        players: vec![
            player("Russia", 1000, &[]),
            player("Americans", 4000, &["British"]),
            player("British", 2500, &["Russia"]),
            player("Neutral", 9000, &[]),
        ],
        power: vec![
            PlayerPower { low_power: false, no_output: false },
            PlayerPower { low_power: true, no_output: false },
            PlayerPower { low_power: true, no_output: true },
            PlayerPower { low_power: true, no_output: true },
        ],
        ambient: vec!["Neutral".to_string()],
        sw,
    }
}

fn world(f: &Fixture) -> AiConditionWorld<'_> {
    AiConditionWorld {
        entities: &f.entities,
        players: &f.players,
        power: &f.power,
        ambient_houses: &f.ambient,
        super_weapons: &f.sw,
    }
}

#[test]
fn owned_counts_by_class() {
    let f = fixture();
    let w = world(&f);
    // British lists Russia as ally, so only the two living American tanks are enemy.
    assert_eq!(count_type_owned_by(&w, "Russia", OwnerClass::Enemy, Some("MTNK")), 2);
    assert_eq!(count_type_owned_by(&w, "russia", OwnerClass::Own, Some("HTNK")), 1);
    assert_eq!(count_type_owned_by(&w, "Russia", OwnerClass::Neutral, Some("MTNK")), 1);
    assert_eq!(count_type_owned_by(&w, "Russia", OwnerClass::Enemy, None), 0);
}

#[test]
fn enemy_funds_and_power() {
    let f = fixture();
    let w = world(&f);
    assert_eq!(max_enemy_funds(&w, "Russia"), 4000);
    assert_eq!(max_enemy_funds(&w, "Neutral"), 4000);
    let yellow = cond(AiConditionKind::EnemyYellowPower, None, AiTriggerCompareOp::Equal, 0);
    let red = cond(AiConditionKind::EnemyRedPower, None, AiTriggerCompareOp::Equal, 0);
    assert!(ai_trigger_condition_holds(&w, "Russia", &yellow));
    assert!(!ai_trigger_condition_holds(&w, "Russia", &red));
    assert!(!ai_trigger_condition_holds(&w, "Americans", &red));
    assert!(ai_trigger_condition_holds(&w, "Neutral", &red));
}

#[test]
fn conditions_compare_what_they_read() {
    let f = fixture();
    let w = world(&f);
    let ge = AiTriggerCompareOp::GreaterEqual;
    assert!(ai_trigger_condition_holds(&w, "Russia", &cond(AiConditionKind::Always, None, ge, 0)));
    assert!(!ai_trigger_condition_holds(&w, "Russia", &cond(AiConditionKind::Unsupported(40), None, ge, 0)));
    assert!(ai_trigger_condition_holds(&w, "Russia", &cond(AiConditionKind::EnemyOwns, Some("MTNK"), ge, 2)));
    assert!(!ai_trigger_condition_holds(&w, "Russia", &cond(AiConditionKind::EnemyOwns, Some("MTNK"), ge, 3)));
    assert!(ai_trigger_condition_holds(&w, "Russia", &cond(AiConditionKind::OwnCredits, None, AiTriggerCompareOp::Equal, 1000)));
    assert!(ai_trigger_condition_holds(&w, "Russia", &cond(AiConditionKind::EnemyCredits, None, AiTriggerCompareOp::Greater, 3999)));
    assert!(ai_trigger_condition_holds(&w, "Russia", &cond(AiConditionKind::OwnSuperWeaponCharge, None, ge, 50)));
    assert!(!ai_trigger_condition_holds(&w, "Russia", &cond(AiConditionKind::OwnSuperWeaponCharge, None, ge, 51)));
    assert!(ai_trigger_condition_holds(&w, "Americans", &cond(AiConditionKind::OwnSuperWeaponCharge, None, AiTriggerCompareOp::Equal, 0)));
}
