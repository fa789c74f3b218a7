//! Map trigger event conditions and the triggers that fire on a tick.

use ra_engine::entities::{EntityIdentity, EntityKind, EntityRecord};
use ra_engine::trigger_events::{
    condition_met, event_conditions_met, triggers_to_fire, CellTag, EventCondition, EventKind, TagBinding,
    TriggerEvents, TriggerWorld,
};
use ra_engine::triggers::TriggerState;
use ra_engine::PlayerState;

fn thing(alive: bool, owner: &str, kind: EntityKind, tag: Option<u32>, cell: (u16, u16)) -> EntityRecord {
    EntityRecord {
        alive,
        owner: Some(owner.to_string()),
        identity: Some(EntityIdentity { kind, type_id: "E1".to_string(), tag }),
        cell: Some(cell),
    }
}

fn player(house: &str, funds: i32) -> PlayerState {
    PlayerState {
        house: house.to_string(),
        funds,
        power_output: 0,
        power_drain: 0,
        tech_level: 10,
        stolen_allied_tech: false,
        stolen_soviet_tech: false,
        stolen_third_tech: false,
        allies: Vec::new(),
    }
}

fn cond(kind: EventKind, params: &[&str]) -> EventCondition {
    EventCondition { kind, params: params.iter().map(|s| s.to_string()).collect() }
}

fn state(id: u32, disabled: bool, fired: bool, timer: Option<u32>) -> TriggerState {
    TriggerState { id, disabled, fired, timer_remaining: timer, timer_paused: false }
}

struct Battle {
    entities: Vec<EntityRecord>,
    players: Vec<PlayerState>,
    low_power: Vec<bool>,
    tags: Vec<TagBinding>,
    cells: Vec<CellTag>,
}

fn battle() -> Battle {
    Battle {
        entities: vec![
            thing(true, "Russia", EntityKind::Structure, None, (1, 1)),
            thing(true, "Russia", EntityKind::Infantry, Some(7), (5, 5)),
            thing(false, "Americans", EntityKind::Unit, Some(8), (2, 2)),
            thing(true, "Americans", EntityKind::Aircraft, None, (9, 9)),
        ],
        players: vec![player("Russia", 500), player("Americans", 3000)],
        low_power: vec![false, true],
        tags: vec![TagBinding { tag: 7, trigger_id: 1 }, TagBinding { tag: 8, trigger_id: 2 }, TagBinding { tag: 9, trigger_id: 3 }],
        cells: vec![CellTag { tag: 9, x: 5, y: 5 }],
    }
}

fn world(b: &Battle) -> TriggerWorld<'_> {
    TriggerWorld {
        entities: &b.entities,
        players: &b.players,
        low_power: &b.low_power,
        tags: &b.tags,
        cell_tags: &b.cells,
    }
}

#[test]
fn simple_conditions() {
    let b = battle();
    let w = world(&b);
    assert!(condition_met(&w, 1, None, None, &cond(EventKind::AnyEvent, &[]), "Russia"));
    assert!(condition_met(&w, 1, Some(0), None, &cond(EventKind::TimeElapse, &["30"]), "Russia"));
    assert!(!condition_met(&w, 1, Some(3), None, &cond(EventKind::TimeElapse, &["30"]), "Russia"));
    assert!(!condition_met(&w, 1, None, None, &cond(EventKind::TimeElapse, &["30"]), "Russia"));
    assert!(!condition_met(&w, 1, None, None, &cond(EventKind::Unknown(99), &[]), "Russia"));
}

#[test]
fn destroyed_by_anybody_needs_bound_tags_all_dead() {
    let b = battle();
    let w = world(&b);
    let c = cond(EventKind::DestroyedByAnybody, &[]);
    // Tag 7 (trigger 1) is on a living infantry.
    assert!(!condition_met(&w, 1, None, None, &c, "Russia"));
    // Tag 8 (trigger 2) is only on a dead unit.
    assert!(condition_met(&w, 2, None, None, &c, "Russia"));
    // Trigger 5 has no tag at all.
    assert!(!condition_met(&w, 5, None, None, &cond(EventKind::DestroyedByAnything, &[]), "Russia"));
}

#[test]
fn destroyed_house_filters() {
    let b = battle();
    let w = world(&b);
    // Americans: the unit is dead, the aircraft is not a land unit and no building.
    assert!(condition_met(&w, 1, None, None, &cond(EventKind::DestroyedUnitsAll, &["0", "Americans"]), "Russia"));
    assert!(condition_met(&w, 1, None, None, &cond(EventKind::DestroyedBuildingsAll, &["Americans"]), "Russia"));
    assert!(!condition_met(&w, 1, None, None, &cond(EventKind::DestroyedAll, &["Americans"]), "Russia"));
    // No house parameter: the local house.
    assert!(!condition_met(&w, 1, None, None, &cond(EventKind::DestroyedUnitsAll, &["0"]), "Russia"));
    assert!(!condition_met(&w, 1, None, None, &cond(EventKind::DestroyedBuildingsAll, &[]), "Russia"));
}

#[test]
fn entered_by_local_house_on_tagged_cell() {
    let b = battle();
    let w = world(&b);
    let c = cond(EventKind::EnteredBy, &[]);
    assert!(condition_met(&w, 3, None, None, &c, "Russia"));
    assert!(!condition_met(&w, 3, None, None, &c, "Americans"));
    assert!(!condition_met(&w, 1, None, None, &c, "Russia"));
}

#[test]
fn credits_compare_with_owner_or_local() {
    let b = battle();
    let w = world(&b);
    let exceed = cond(EventKind::CreditsExceed, &["0", "1000"]);
    assert!(!condition_met(&w, 1, None, None, &exceed, "Russia"));
    assert!(condition_met(&w, 1, None, Some("americans"), &exceed, "Russia"));
    let below = cond(EventKind::CreditsBelow, &["1000"]);
    assert!(condition_met(&w, 1, None, None, &below, "Russia"));
    assert!(!condition_met(&w, 1, None, None, &cond(EventKind::CreditsBelow, &["x"]), "Russia"));
    assert!(condition_met(&w, 1, None, Some("Nobody"), &cond(EventKind::CreditsBelow, &["1"]), "Russia"));
}

#[test]
fn low_power_of_named_or_local_house() {
    let b = battle();
    let w = world(&b);
    assert!(condition_met(&w, 1, None, None, &cond(EventKind::LowPower, &["Americans"]), "Russia"));
    assert!(!condition_met(&w, 1, None, None, &cond(EventKind::LowPower, &[]), "Russia"));
    assert!(!condition_met(&w, 1, None, None, &cond(EventKind::LowPower, &["Nobody"]), "Russia"));
}

#[test]
fn event_list_needs_every_condition() {
    let b = battle();
    let w = world(&b);
    assert!(!event_conditions_met(&w, 1, Some(0), None, &[], "Russia"));
    let both = [cond(EventKind::AnyEvent, &[]), cond(EventKind::TimeElapse, &[])];
    assert!(event_conditions_met(&w, 1, Some(0), None, &both, "Russia"));
    assert!(!event_conditions_met(&w, 1, Some(2), None, &both, "Russia"));
}

#[test]
fn only_live_triggers_with_holding_events_fire() {
    let b = battle();
    let w = world(&b);
    let states = [
        state(1, false, false, Some(0)),
        state(2, true, false, Some(0)),
        state(3, false, true, Some(0)),
        state(4, false, false, Some(5)),
        state(6, false, false, Some(0)),
    ];
    let any = |id: u32| TriggerEvents {
        trigger_id: id,
        owner_house: None,
        conditions: vec![cond(EventKind::TimeElapse, &[])],
    };
    let events = vec![any(1), any(2), any(3), any(4), TriggerEvents { trigger_id: 1, owner_house: None, conditions: vec![cond(EventKind::AnyEvent, &[])] }];
    assert_eq!(triggers_to_fire(&w, &states, &events, "Russia"), vec![1]);
    // The last event list of a trigger wins.
    let events2 = vec![any(1), TriggerEvents { trigger_id: 1, owner_house: None, conditions: Vec::new() }];
    assert!(triggers_to_fire(&w, &states, &events2, "Russia").is_empty());
}
