//! Damage, kill credit and released attackers.

use ra_engine::damage::{apply_damage_credited, attackers_targeting, DamageOutcome, DamageTarget, KillTally};
use ra_engine::entities::EntityKind;
use ra_engine::repairs::HealthState;

fn target(kind: EntityKind, current: u32, house: &str) -> DamageTarget {
    DamageTarget {
        health: Some(HealthState { current, maximum: 100, dead: false }),
        house: Some(house.to_string()),
        kind: Some(kind),
        typed: true,
        cell: Some((3, 4)),
    }
}

fn tallies() -> Vec<KillTally> {
    vec![KillTally { house: "Greece".to_string(), kills: 0 }, KillTally { house: "USSR".to_string(), kills: 7 }]
}

#[test]
fn hits_and_kills_are_credited_to_other_houses() {
    let mut ts = vec![target(EntityKind::Unit, 50, "USSR"), target(EntityKind::Structure, 30, "USSR")];
    let mut k = tallies();
    assert_eq!(apply_damage_credited(&mut ts, 0, 20, Some("Greece"), &mut k), DamageOutcome::Hit { structure: false });
    assert_eq!(ts[0].health.unwrap().current, 30);
    assert_eq!(
        apply_damage_credited(&mut ts, 0, 40, Some("greece"), &mut k),
        DamageOutcome::Killed { structure: false, mobile: true, credited: Some(0) }
    );
    assert_eq!(ts[0].health.unwrap(), HealthState { current: 0, maximum: 100, dead: true });
    assert_eq!(k[0].kills, 1);
    // Dead already: nothing more.
    assert_eq!(apply_damage_credited(&mut ts, 0, 40, Some("Greece"), &mut k), DamageOutcome::Ignored);
    // Killed by its own house: no credit.
    assert_eq!(
        apply_damage_credited(&mut ts, 1, 99, Some("USSR"), &mut k),
        DamageOutcome::Killed { structure: true, mobile: false, credited: None }
    );
    assert_eq!(k[1].kills, 7);
    assert_eq!(apply_damage_credited(&mut ts, 5, 10, None, &mut k), DamageOutcome::Ignored);
    assert_eq!(apply_damage_credited(&mut ts, 1, 0, None, &mut k), DamageOutcome::Ignored);
    let mut untyped = vec![DamageTarget { typed: false, ..target(EntityKind::Unit, 10, "USSR") }];
    assert_eq!(apply_damage_credited(&mut untyped, 0, 5, None, &mut k), DamageOutcome::Ignored);
    assert_eq!(untyped[0].health.unwrap().current, 10);
}

#[test]
fn attackers_of_the_dead_are_released() {
    assert_eq!(attackers_targeting(&[Some(4), None, Some(9), Some(4)], 4), vec![0, 3]);
    assert!(attackers_targeting(&[None, Some(1)], 4).is_empty());
}
