//! Repair pulses: heal steps, fees and when a repair ends.

use ra_engine::repairs::{tick_repairs, HealthState, HouseAccount, RepairRules, RepairingEntity};

fn building(id: u64, current: u32, owner: &str) -> RepairingEntity {
    RepairingEntity {
        id,
        structure: Some(true),
        health: Some(HealthState { current, maximum: 100, dead: false }),
        owner: Some(owner.to_string()),
        cost: Some(1000),
    }
}

fn rules() -> RepairRules {
    RepairRules { interval_ticks: 14, step: 7, percent: 20 }
}

fn purse(funds: i32) -> Vec<HouseAccount> {
    vec![HouseAccount { house: "USSR".to_string(), funds, spent: 0 }]
}

#[test]
fn pulse_heals_a_step_and_charges_its_share() {
    let mut es = vec![
        building(5, 50, "USSR"),
        RepairingEntity { id: 9, structure: None, health: None, owner: None, cost: None },
        RepairingEntity { structure: Some(false), ..building(6, 50, "USSR") },
        building(7, 100, "USSR"),
        building(8, 50, "Greece"),
    ];
    let mut accts = purse(1000);
    let stops = tick_repairs(&mut es, &mut accts, rules(), 14);
    // 1000 * 20% * 7 / 100 hit points = 14 credits.
    assert_eq!(es[0].health.unwrap().current, 57);
    assert_eq!(accts[0].funds, 986);
    assert_eq!(accts[0].spent, 14);
    assert_eq!(stops, vec![6, 7, 8]);
    assert_eq!(es[4].health.unwrap().current, 50);

    // Off the pulse nothing happens.
    let stops = tick_repairs(&mut es, &mut accts, rules(), 15);
    assert!(stops.is_empty());
    assert_eq!(es[0].health.unwrap().current, 57);
    assert_eq!(accts[0].funds, 986);
    assert!(tick_repairs(&mut es, &mut accts, rules(), 0).is_empty());
}

#[test]
fn repair_ends_when_full_or_broke() {
    let mut es = vec![building(1, 97, "USSR")];
    let mut accts = purse(1000);
    let stops = tick_repairs(&mut es, &mut accts, rules(), 28);
    assert_eq!(es[0].health.unwrap().current, 100);
    assert_eq!(accts[0].funds, 994);
    assert_eq!(stops, vec![1]);

    let mut es = vec![building(2, 10, "USSR")];
    let mut accts = purse(10);
    let stops = tick_repairs(&mut es, &mut accts, rules(), 28);
    assert_eq!(es[0].health.unwrap().current, 10);
    assert_eq!(accts[0].funds, 10);
    assert_eq!(stops, vec![2]);
}
