//! Tech tree eligibility and living-entity counts.

use ra_engine::entities::{
    build_limit_reached, cell_occupied_by_other, is_mobile, living_structure_keys, living_type_count, EntityIdentity,
    EntityKind, EntityRecord,
};
use ra_engine::tech_tree::{
    is_type_eligible, owns_any, prerequisites_met, token_satisfied, PrerequisiteToken, TechnoRules,
};
use ra_engine::TechTreePlayer;

fn strings(xs: &[&str]) -> Vec<String> {
    xs.iter().map(|s| s.to_string()).collect()
}

fn entity(alive: bool, owner: Option<&str>, kind: EntityKind, type_id: &str) -> EntityRecord {
    EntityRecord {
        alive,
        owner: owner.map(|s| s.to_string()),
        identity: Some(EntityIdentity { kind, type_id: type_id.to_string(), tag: None }),
        cell: None,
    }
}

fn player(tech_level: i32) -> TechTreePlayer<'static> {
    TechTreePlayer {
        house: "Russia",
        tech_level,
        stolen_allied_tech: false,
        stolen_soviet_tech: false,
        stolen_third_tech: false,
    }
}

fn rules() -> TechnoRules {
    TechnoRules {
        tech_level: 3,
        required_houses: strings(&["russia"]),
        forbidden_houses: Vec::new(),
        requires_stolen_allied_tech: false,
        requires_stolen_soviet_tech: false,
        requires_stolen_third_tech: false,
        construction_yard: false,
        prerequisite: vec![
            PrerequisiteToken::Type(Some("POWR".to_string())),
            PrerequisiteToken::Group(strings(&["gaweap", "weap"])),
        ],
        prerequisite_override: Vec::new(),
    }
}

#[test]
fn owns_any_upper_cases_the_types() {
    let living = strings(&["POWR", "WEAP"]);
    assert!(owns_any(&living, &strings(&["powr"])));
    assert!(owns_any(&living, &strings(&["proc", "wEAP"])));
    assert!(!owns_any(&living, &strings(&["proc"])));
    assert!(!owns_any(&living, &[]));
    // Keys are upper case; a lower-case key never matches.
    assert!(!owns_any(&strings(&["powr"]), &strings(&["powr"])));
}

#[test]
fn tokens_compare_against_upper_case_keys() {
    let living = strings(&["POWR", "WEAP"]);
    assert!(token_satisfied(&living, &PrerequisiteToken::Type(Some("WEAP".to_string()))));
    assert!(!token_satisfied(&living, &PrerequisiteToken::Type(Some("weap".to_string()))));
    assert!(!token_satisfied(&living, &PrerequisiteToken::Type(None)));
    assert!(token_satisfied(&living, &PrerequisiteToken::UnboundType(String::new())));
    assert!(token_satisfied(&living, &PrerequisiteToken::UnboundType("POWR".to_string())));
    assert!(!token_satisfied(&living, &PrerequisiteToken::UnboundType("powr".to_string())));
    assert!(!token_satisfied(&[], &PrerequisiteToken::Group(strings(&["POWR"]))));
}

#[test]
fn override_token_replaces_prerequisites() {
    let mut t = rules();
    let living = strings(&["TENT"]);
    assert!(!prerequisites_met(&living, &t));
    t.prerequisite_override = vec![PrerequisiteToken::UnboundType("TENT".to_string())];
    assert!(prerequisites_met(&living, &t));
    t.prerequisite_override = vec![PrerequisiteToken::Type(None)];
    assert!(!prerequisites_met(&living, &t));
}

#[test]
fn eligibility_checks_every_gate() {
    let living = strings(&["POWR", "WEAP"]);
    let t = rules();
    assert!(is_type_eligible(Some(&t), player(5), true, &living));
    assert!(!is_type_eligible(None, player(5), true, &living));
    assert!(!is_type_eligible(Some(&t), player(2), true, &living));
    assert!(!is_type_eligible(Some(&t), player(5), false, &living));
    assert!(!is_type_eligible(Some(&t), player(5), true, &strings(&["POWR"])));

    let mut negative = rules();
    negative.tech_level = -1;
    assert!(!is_type_eligible(Some(&negative), player(5), true, &living));

    let mut allied_only = rules();
    allied_only.required_houses = strings(&["England", "Germany"]);
    assert!(!is_type_eligible(Some(&allied_only), player(5), true, &living));

    let mut forbidden = rules();
    forbidden.forbidden_houses = strings(&["RUSSIA"]);
    assert!(!is_type_eligible(Some(&forbidden), player(5), true, &living));

    let mut stolen = rules();
    stolen.requires_stolen_soviet_tech = true;
    assert!(!is_type_eligible(Some(&stolen), player(5), true, &living));
    let mut thief = player(5);
    thief.stolen_soviet_tech = true;
    assert!(is_type_eligible(Some(&stolen), thief, true, &living));

    let mut yard = rules();
    yard.construction_yard = true;
    assert!(!is_type_eligible(Some(&yard), player(5), true, &living));
}

#[test]
fn more_structures_keep_a_type_eligible() {
    let t = rules();
    let few = strings(&["POWR", "WEAP"]);
    let more = strings(&["POWR", "WEAP", "PROC", "TENT"]);
    assert!(is_type_eligible(Some(&t), player(5), true, &few));
    assert!(is_type_eligible(Some(&t), player(5), true, &more));
}

#[test]
fn living_counts_need_alive_exact_owner_and_type() {
    let es = vec![
        entity(true, Some("Russia"), EntityKind::Infantry, "e1"),
        entity(true, Some("Russia"), EntityKind::Infantry, "E1"),
        entity(false, Some("Russia"), EntityKind::Infantry, "E1"),
        entity(true, Some("russia"), EntityKind::Infantry, "E1"),
        entity(true, None, EntityKind::Infantry, "E1"),
        EntityRecord { alive: true, owner: Some("Russia".to_string()), identity: None, cell: None },
        entity(true, Some("Russia"), EntityKind::Structure, "POWR"),
    ];
    assert_eq!(living_type_count(&es, "Russia", "E1"), 2);
    assert_eq!(living_type_count(&es, "Russia", "powr"), 1);
    assert_eq!(living_type_count(&es, "Greece", "E1"), 0);
    assert!(build_limit_reached(&es, "Russia", "E1", 2));
    assert!(!build_limit_reached(&es, "Russia", "E1", 3));
    assert!(!build_limit_reached(&es, "Russia", "E1", 0));
    assert_eq!(living_structure_keys(&es, "Russia"), strings(&["POWR"]));
    assert!(living_structure_keys(&es, "russia").is_empty());
    let bases = vec![
        entity(true, Some("Russia"), EntityKind::Structure, "powr"),
        entity(true, Some("Russia"), EntityKind::Structure, "POWR"),
        entity(true, Some("Russia"), EntityKind::Structure, "weap"),
        entity(false, Some("Russia"), EntityKind::Structure, "tent"),
    ];
    assert_eq!(living_structure_keys(&bases, "Russia"), strings(&["POWR", "WEAP"]));
}

#[test]
fn occupied_cells_need_another_living_mover() {
    let mut a = entity(true, Some("Russia"), EntityKind::Unit, "HTNK");
    a.cell = Some((4, 4));
    let mut b = entity(true, Some("Greece"), EntityKind::Structure, "POWR");
    b.cell = Some((5, 5));
    let mut c = entity(false, Some("Greece"), EntityKind::Infantry, "E1");
    c.cell = Some((6, 6));
    let mut d = entity(true, None, EntityKind::Aircraft, "MIG");
    d.cell = Some((7, 7));
    let es = vec![a, b, c, d];
    assert!(cell_occupied_by_other(&es, 9, 4, 4));
    assert!(!cell_occupied_by_other(&es, 0, 4, 4));
    assert!(!cell_occupied_by_other(&es, 9, 5, 5));
    assert!(!cell_occupied_by_other(&es, 9, 6, 6));
    assert!(cell_occupied_by_other(&es, 0, 7, 7));
    assert!(is_mobile(EntityKind::Infantry));
    assert!(!is_mobile(EntityKind::Other));
}
