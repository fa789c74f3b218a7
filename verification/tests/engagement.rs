//! Combat, capture and infiltration steps of a unit.

use ra_engine::engagement::{
    capture_step, combat_step, infiltrate_step, nearest_hostile_in_range, ApproachOutcome, AttackState, FieldEntity,
    FightStats, Fighter, OrderedUnit,
};
use ra_engine::entities::EntityKind;

fn field(id: u64, alive: bool, owner: &str, kind: EntityKind, pos: (u16, u16)) -> FieldEntity {
    FieldEntity {
        id,
        alive,
        owner: Some(owner.to_string()),
        kind: Some(kind),
        capturable: kind == EntityKind::Structure,
        position: Some(pos),
        armor_index: Some(1),
        foundation_width: 2,
        foundation_height: 2,
    }
}

fn stats() -> FightStats {
    FightStats { range: 3, damage: 40, verses: vec![100, 50, 25], cooldown_max: 5 }
}

fn fighter(target: Option<u64>, cooldown: u32, attack_move: bool) -> Fighter {
    Fighter {
        index: 0,
        alive: true,
        mobile: true,
        has_owner: true,
        attack: Some(AttackState { target, infiltrating: false, capturing: false, cooldown }),
        attack_move,
        has_movement: true,
        destination: Some((0, 0)),
        waypoints: Vec::new(),
        position: Some((0, 0)),
        stats: Some(stats()),
    }
}

fn world() -> Vec<FieldEntity> {
    vec![
        field(1, true, "Russia", EntityKind::Unit, (0, 0)),
        field(2, true, "Americans", EntityKind::Unit, (2, 1)),
        field(3, false, "Americans", EntityKind::Unit, (1, 0)),
        field(4, true, "Americans", EntityKind::Structure, (9, 9)),
        field(5, true, "Russia", EntityKind::Unit, (1, 1)),
        field(6, true, "Americans", EntityKind::Infantry, (0, 3)),
    ]
}

#[test]
fn firing_in_range_scales_damage_and_starts_cooldown() {
    let r = combat_step(fighter(Some(2), 0, false), &world(), None);
    assert_eq!(r.hit, Some((1, 20)));
    assert_eq!(r.attack.unwrap().cooldown, 5);
    assert_eq!(r.destination, Some((2, 1)));
    assert!(r.path_reset);
}

#[test]
fn cooling_down_unit_only_chases() {
    let r = combat_step(fighter(Some(2), 2, false), &world(), None);
    assert_eq!(r.hit, None);
    assert_eq!(r.attack.unwrap().cooldown, 1);
}

#[test]
fn far_target_is_chased_not_hit() {
    let r = combat_step(fighter(Some(4), 0, false), &world(), None);
    assert_eq!(r.hit, None);
    assert_eq!(r.destination, Some((9, 9)));
    assert_eq!(r.attack.unwrap().target, Some(4));
}

#[test]
fn dead_or_missing_target_is_dropped_and_attack_move_resumes() {
    let mut f = fighter(Some(3), 0, true);
    f.waypoints = vec![(7, 7), (8, 8)];
    let r = combat_step(f, &world(), None);
    assert_eq!(r.attack.unwrap().target, None);
    assert_eq!(r.destination, Some((7, 7)));
    assert_eq!(r.waypoints, vec![(8, 8)]);
    let r = combat_step(fighter(Some(99), 0, false), &world(), None);
    assert_eq!(r.attack.unwrap().target, None);
    assert_eq!(r.destination, Some((0, 0)));
    assert!(!r.path_reset);
}

#[test]
fn attack_move_picks_nearest_and_keeps_its_destination() {
    let mut f = fighter(None, 0, true);
    f.destination = Some((5, 5));
    let r = combat_step(f, &world(), Some(2));
    assert_eq!(r.attack.unwrap().target, Some(2));
    assert_eq!(r.destination, Some((2, 1)));
    assert_eq!(r.waypoints, vec![(5, 5)]);
    assert_eq!(r.hit, Some((1, 20)));
    let idle = combat_step(fighter(None, 0, false), &world(), Some(2));
    assert_eq!(idle.attack.unwrap().target, None);
    assert_eq!(idle.hit, None);
}

#[test]
fn busy_units_do_not_fight() {
    let mut f = fighter(Some(2), 0, false);
    f.attack = Some(AttackState { target: Some(2), infiltrating: false, capturing: true, cooldown: 0 });
    let r = combat_step(f, &world(), None);
    assert_eq!(r.hit, None);
    assert!(!r.path_reset);
}

#[test]
fn nearest_hostile_takes_first_of_the_closest() {
    let es = world();
    // Entity 2 at distance 3 and entity 6 at distance 3: the first one wins.
    assert_eq!(nearest_hostile_in_range(&es, 1, 3), Some(2));
    assert_eq!(nearest_hostile_in_range(&es, 1, 2), None);
    assert_eq!(nearest_hostile_in_range(&es, 1, 0), None);
    assert_eq!(nearest_hostile_in_range(&es, 3, 9), None);
}

fn engineer(pos: (u16, u16), dest: Option<(u16, u16)>) -> OrderedUnit {
    OrderedUnit { owner: Some("Russia".to_string()), position: Some(pos), has_movement: true, destination: dest }
}

#[test]
fn engineer_walks_up_then_captures() {
    let es = world();
    assert_eq!(capture_step(&engineer((0, 0), None), &es, 4), ApproachOutcome::Approach(9, 9));
    assert_eq!(capture_step(&engineer((0, 0), Some((9, 9))), &es, 4), ApproachOutcome::Hold);
    assert_eq!(capture_step(&engineer((9, 8), None), &es, 4), ApproachOutcome::Arrive);
    assert_eq!(capture_step(&engineer((9, 8), None), &es, 2), ApproachOutcome::Abandon);
    assert_eq!(capture_step(&engineer((9, 8), None), &es, 77), ApproachOutcome::Abandon);
    let mut own = es.clone();
    own[3].owner = Some("Russia".to_string());
    assert_eq!(capture_step(&engineer((9, 8), None), &own, 4), ApproachOutcome::Abandon);
}

#[test]
fn agent_goes_next_to_the_foundation() {
    let es = world();
    // Foundation 2x2 at (9,9): the nearest adjacent cell from (0,0) is (9,8).
    assert_eq!(infiltrate_step(&engineer((0, 0), None), &es, 4), ApproachOutcome::Approach(9, 8));
    assert_eq!(infiltrate_step(&engineer((11, 10), None), &es, 4), ApproachOutcome::Arrive);
    assert_eq!(infiltrate_step(&engineer((10, 10), None), &es, 4), ApproachOutcome::Approach(11, 10));
}
