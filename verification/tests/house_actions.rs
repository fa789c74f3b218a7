//! House-wide trigger actions.

use ra_engine::ai::HouseTypeKey;
use ra_engine::entities::EntityKind;
use ra_engine::house_actions::{
    all_house_units_hunt, blast_targets, change_all_house_entities, destroy_house_entities, destroy_tagged,
    nearest_hostile_from, strike_targets, ActorEntity, DestroyFilter,
};
use ra_engine::PlayerState;

fn actor(id: u64, owner: u32, kind: EntityKind, x: u16, y: u16) -> ActorEntity {
    ActorEntity { id, alive: true, owner: Some(owner), kind: Some(kind), tag: None, cell: Some((x, y)) }
}

fn houses() -> Vec<HouseTypeKey> {
    vec![
        HouseTypeKey { id: 1, type_key: "USSR".to_string() },
        HouseTypeKey { id: 2, type_key: "Greece".to_string() },
        HouseTypeKey { id: 3, type_key: "Neutral".to_string() },
        HouseTypeKey { id: 4, type_key: "Ukraine".to_string() },
    ]
}

fn player(house: &str, allies: &[&str]) -> PlayerState {
    PlayerState {
        house: house.to_string(),
        funds: 0,
        power_output: 0,
        power_drain: 0,
        tech_level: 10,
        stolen_allied_tech: false,
        stolen_soviet_tech: false,
        stolen_third_tech: false,
        allies: allies.iter().map(|s| s.to_string()).collect(),
    }
}

#[test]
fn destroy_and_hand_over() {
    let mut es = vec![
        actor(1, 1, EntityKind::Structure, 0, 0),
        actor(2, 1, EntityKind::Unit, 1, 1),
        actor(3, 1, EntityKind::Aircraft, 2, 2),
        actor(4, 2, EntityKind::Unit, 3, 3),
        ActorEntity { tag: Some(7), ..actor(5, 2, EntityKind::Infantry, 4, 4) },
    ];
    destroy_house_entities(&mut es, Some(1), DestroyFilter::LandUnits);
    let alive: Vec<bool> = es.iter().map(|e| e.alive).collect();
    assert_eq!(alive, vec![true, false, true, true, true]);
    destroy_house_entities(&mut es, Some(1), DestroyFilter::Buildings);
    assert!(!es[0].alive && es[2].alive);
    destroy_tagged(&mut es, &[7, 9]);
    assert!(!es[4].alive && es[3].alive);

    change_all_house_entities(&mut es, "Greece", "USSR", Some(2), Some(1));
    assert_eq!(es[3].owner, Some(1));
    assert_eq!(es[4].owner, Some(2));
    change_all_house_entities(&mut es, "USSR", "ussr", Some(1), Some(1));
    change_all_house_entities(&mut es, "USSR", "Spain", Some(1), None);
    assert_eq!(es[3].owner, Some(1));
}

#[test]
fn hunters_go_for_nearest_hostile() {
    let es = vec![
        actor(1, 1, EntityKind::Unit, 0, 0),
        actor(2, 1, EntityKind::Structure, 9, 9),
        actor(3, 2, EntityKind::Unit, 5, 0),
        actor(4, 3, EntityKind::Unit, 1, 0),
        actor(5, 4, EntityKind::Unit, 2, 2),
        actor(6, 2, EntityKind::Structure, 0, 3),
    ];
    let players = vec![player("USSR", &["Ukraine"]), player("Greece", &[])];
    let ambient = vec!["Neutral".to_string()];
    let h = houses();
    // Ukraine is allied, Neutral ambient: the Greek structure at distance 3 is nearest.
    assert_eq!(nearest_hostile_from(&es, &h, &players, &ambient, "USSR", 0, 0), Some(6));
    assert_eq!(all_house_units_hunt(&es, &h, &players, &ambient, "USSR", Some(1)), vec![(1, 6)]);
    assert!(all_house_units_hunt(&es, &h, &players, &ambient, "Spain", Some(9)).is_empty());
}

#[test]
fn blast_hits_footprints_and_cells() {
    let es = vec![
        actor(1, 1, EntityKind::Structure, 4, 4),
        actor(2, 1, EntityKind::Unit, 5, 5),
        actor(3, 1, EntityKind::Unit, 6, 5),
        ActorEntity { alive: false, ..actor(4, 1, EntityKind::Unit, 5, 5) },
    ];
    let fp = vec![(2, 2), (1, 1), (1, 1), (1, 1)];
    assert_eq!(blast_targets(&es, &fp, 5, 5), vec![0, 1]);
    assert_eq!(blast_targets(&es, &fp, 6, 6), Vec::<usize>::new());
}

#[test]
fn strike_hits_within_one_cell() {
    let es = vec![
        actor(1, 1, EntityKind::Structure, 2, 2),
        actor(2, 1, EntityKind::Unit, 7, 6),
        actor(3, 1, EntityKind::Unit, 8, 8),
        ActorEntity { cell: None, ..actor(4, 1, EntityKind::Unit, 6, 6) },
    ];
    // The 3x3 structure spans (2..=4, 2..=4): its corner (4, 4) is 2 cells from (6, 6).
    let fp = vec![(3, 3), (1, 1), (1, 1), (1, 1)];
    assert_eq!(strike_targets(&es, &fp, 6, 6), vec![1]);
    assert_eq!(strike_targets(&es, &fp, 5, 5), vec![0]);
}
