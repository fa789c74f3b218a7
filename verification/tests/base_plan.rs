//! The AI base plan and where new buildings go.

use ra_engine::ai::HouseTypeKey;
use ra_engine::base_plan::{
    base_node_satisfied, base_plan_for_house, next_incomplete_base_node, BaseNode, BasePlan, Foundation, PlacedEntity,
};
use ra_engine::economy::OreCell;
use ra_engine::placement::{find_best_open, find_best_open_with_gap, PlacementQuery};
use ra_engine::repath::MoveGrid;

fn plan() -> Option<BasePlan> {
    Some(BasePlan {
        house: 1,
        nodes: vec![BaseNode { type_id: 7, x: 10, y: 10 }, BaseNode { type_id: 8, x: 20, y: 20 }],
    })
}

#[test]
fn next_node_is_first_unbuilt_one() {
    let houses = vec![HouseTypeKey { id: 1, type_key: "USSR".to_string() }];
    let fs = vec![Foundation { type_id: 7, width: 2, height: 2 }];
    let es = vec![PlacedEntity { alive: true, owner: Some(1), structure: true, type_id: Some(7), cell: Some((9, 9)) }];
    assert!(base_plan_for_house(&plan(), &houses, "ussr"));
    assert!(!base_plan_for_house(&plan(), &houses, "Greece"));
    assert!(base_node_satisfied(&es, BaseNode { type_id: 7, x: 10, y: 10 }, Some(1), &fs));
    assert!(!base_node_satisfied(&es, BaseNode { type_id: 7, x: 11, y: 10 }, Some(1), &fs));
    assert!(!base_node_satisfied(&es, BaseNode { type_id: 7, x: 10, y: 10 }, Some(2), &fs));
    assert_eq!(
        next_incomplete_base_node(&plan(), &houses, "USSR", Some(1), &es, &fs),
        Some(BaseNode { type_id: 8, x: 20, y: 20 })
    );
    assert_eq!(next_incomplete_base_node(&plan(), &houses, "Greece", Some(2), &es, &fs), None);
    assert_eq!(next_incomplete_base_node(&None, &houses, "USSR", Some(1), &es, &fs), None);
}

#[test]
fn spots_near_yard_or_ore() {
    let placeable = MoveGrid::new(10, 10, true);
    let pass = MoveGrid::new(10, 10, true);
    let ore = vec![OreCell { x: 8, y: 5, harvestable: true, data: 3 }];
    let q = PlacementQuery {
        placeable: &placeable,
        ore: &ore,
        pass: &pass,
        fw: 1,
        fh: 1,
        ox: 5,
        oy: 5,
        radius: 2,
        prefer_ore: false,
    };
    assert_eq!(find_best_open_with_gap(&q), Some((5, 5)));
    let refinery = PlacementQuery { prefer_ore: true, ..q };
    assert_eq!(find_best_open_with_gap(&refinery), Some((7, 4)));
    let none = MoveGrid::new(10, 10, false);
    let mut only = MoveGrid::new(10, 10, false);
    only.set_passable(6, 6, true);
    assert_eq!(find_best_open(&q, Some(&only)), Some((6, 6)));
    assert_eq!(find_best_open(&q, Some(&none)), Some((5, 5)));
    let mut holed = MoveGrid::new(10, 10, true);
    holed.set_passable(5, 5, false);
    let q2 = PlacementQuery { placeable: &holed, ..q };
    assert_eq!(find_best_open_with_gap(&q2), Some((4, 4)));
    let blocked = PlacementQuery { placeable: &none, ..q };
    assert_eq!(find_best_open_with_gap(&blocked), None);
}
