//! Alliance changes made by scripts.

use ra_engine::players::set_houses_allied;
use ra_engine::{houses_are_allied, PlayerState};

fn side(house: &str, allies: &[&str]) -> PlayerState {
    PlayerState {
        house: house.to_string(),
        funds: 0,
        power_output: 0,
        power_drain: 0,
        tech_level: 10,
        stolen_allied_tech: false,
        stolen_soviet_tech: false,
        stolen_third_tech: false,
        allies: allies.iter().map(|s| s.to_string()).collect(),
    }
}

#[test]
fn make_ally_lists_both_sides_once() {
    let mut players = vec![side("Russia", &[]), side("Greece", &["RUSSIA"]), side("Spain", &[])];
    set_houses_allied(&mut players, "Russia", "greece", true);
    assert_eq!(players[0].allies, vec!["greece".to_string()]);
    assert_eq!(players[1].allies, vec!["RUSSIA".to_string()]);
    assert!(players[2].allies.is_empty());
    assert!(houses_are_allied(&players, "Greece", "Russia"));
}

#[test]
fn make_enemy_drops_every_matching_entry() {
    let mut players = vec![side("Russia", &["Greece", "Spain", "GREECE"]), side("Greece", &["russia"])];
    set_houses_allied(&mut players, "greece", "RUSSIA", false);
    assert_eq!(players[0].allies, vec!["Spain".to_string()]);
    assert!(players[1].allies.is_empty());
    assert!(!houses_are_allied(&players, "Russia", "Greece"));
}

#[test]
fn same_house_or_missing_house_changes_nothing() {
    let mut players = vec![side("Russia", &[])];
    set_houses_allied(&mut players, "Russia", "russia", true);
    assert!(players[0].allies.is_empty());
    set_houses_allied(&mut players, "Russia", "Nowhere", true);
    assert_eq!(players[0].allies, vec!["Nowhere".to_string()]);
}
