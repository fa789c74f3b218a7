//! Skirmish starting units.

use ra_engine::command_checks::TechnoClass;
use ra_engine::repath::MoveGrid;
use ra_engine::starting_units::{
    compose_starting_unit_ids, find_starting_unit_cell, starting_unit_pools, StartCandidate,
};

fn cand(id: u32, class: TechnoClass, cost: i32, key: &str) -> StartCandidate {
    StartCandidate {
        id,
        class,
        naval: false,
        allowed_to_start: true,
        base_unit: false,
        tech_level: 1,
        owner_ok: true,
        cost,
        type_key: key.to_string(),
    }
}

#[test]
fn pools_sorted_by_cost_then_key() {
    let cs = vec![
        cand(1, TechnoClass::Infantry, 300, "E3"),
        cand(2, TechnoClass::Infantry, 100, "E1"),
        cand(3, TechnoClass::Vehicle, 800, "MTNK"),
        cand(4, TechnoClass::Vehicle, 800, "APC"),
        StartCandidate { naval: true, ..cand(5, TechnoClass::Vehicle, 100, "PT") },
        StartCandidate { base_unit: true, ..cand(6, TechnoClass::Vehicle, 100, "MCV") },
        StartCandidate { tech_level: 9, ..cand(7, TechnoClass::Infantry, 50, "DOG") },
        StartCandidate { allowed_to_start: false, ..cand(8, TechnoClass::Infantry, 60, "SPY") },
        StartCandidate { owner_ok: false, ..cand(9, TechnoClass::Infantry, 70, "E2") },
        cand(10, TechnoClass::Aircraft, 10, "HELI"),
        StartCandidate { tech_level: -1, ..cand(11, TechnoClass::Infantry, 10, "C1") },
    ];
    let (inf, veh) = starting_unit_pools(&cs, 5);
    let ids = |v: &Vec<StartCandidate>| v.iter().map(|c| c.id).collect::<Vec<u32>>();
    assert_eq!(ids(&inf), vec![2, 1]);
    assert_eq!(ids(&veh), vec![4, 3]);
}

#[test]
fn starting_units_alternate_cheapest() {
    assert_eq!(compose_starting_unit_ids(&[2, 1], &[4, 3], 5), vec![2, 4, 2, 4, 2]);
    assert_eq!(compose_starting_unit_ids(&[], &[4, 3], 3), vec![4, 4, 4]);
    assert_eq!(compose_starting_unit_ids(&[2], &[], 2), vec![2, 2]);
    assert!(compose_starting_unit_ids(&[2], &[4], 0).is_empty());
    assert!(compose_starting_unit_ids(&[2], &[4], -3).is_empty());
    assert!(compose_starting_unit_ids(&[], &[], 4).is_empty());
}

#[test]
fn starting_cells_ring_outside_the_yard() {
    let open = MoveGrid::new(40, 40, true);
    // Ring 2 around (10, 10) starts at its top-left corner.
    assert_eq!(find_starting_unit_cell(&open, 10, 10, 2, 2, &[]), Some((8, 8)));
    assert_eq!(find_starting_unit_cell(&open, 10, 10, 2, 2, &[(8, 8)]), Some((9, 8)));
    // Near the map corner negative cells are skipped.
    assert_eq!(find_starting_unit_cell(&open, 0, 0, 1, 1, &[]), Some((1, 0)));
    let shut = MoveGrid::new(40, 40, false);
    assert_eq!(find_starting_unit_cell(&shut, 10, 10, 2, 2, &[]), None);
}
