use ra_engine::entities::{EntityIdentity, EntityKind, EntityRecord};
use ra_engine::repath::{
    block_other_mobiles, compute_repath_at, finish_repath, nearest_free_goal, plan_repath_goal, MoveGrid,
};

fn unit(x: u16, y: u16, alive: bool, kind: EntityKind) -> EntityRecord {
    EntityRecord {
        alive,
        owner: Some("Russia".to_string()),
        identity: Some(EntityIdentity { kind, type_id: "HTNK".to_string(), tag: None }),
        cell: Some((x, y)),
    }
}

#[test]
fn grid_cells_outside_are_blocked() {
    let mut g = MoveGrid::new(4, 3, true);
    assert!(g.is_passable(3, 2));
    assert!(!g.is_passable(4, 0));
    assert!(!g.is_passable(0, 3));
    g.set_passable(1, 1, false);
    assert!(!g.is_passable(1, 1));
    assert!(g.is_passable(1, 0));
    g.set_passable(9, 9, true);
    assert!(!g.is_passable(9, 9));
    let c = g.copy();
    assert!(!c.is_passable(1, 1));
    assert!(c.is_passable(2, 2));
}

#[test]
fn free_goal_is_the_destination_when_walkable() {
    let g = MoveGrid::new(20, 20, true);
    assert_eq!(nearest_free_goal(&g, 0, 0, 10, 10), (10, 10));
}

#[test]
fn free_goal_takes_nearest_ring_cell_to_the_start() {
    let mut g = MoveGrid::new(20, 20, true);
    g.set_passable(10, 10, false);
    // From the west, the nearest cell of ring 1 is (9, 10).
    assert_eq!(nearest_free_goal(&g, 0, 10, 10, 10), (9, 10));
    // From the north-east corner direction.
    assert_eq!(nearest_free_goal(&g, 19, 0, 10, 10), (11, 9));
}

#[test]
fn free_goal_breaks_ties_by_x_then_y() {
    let mut g = MoveGrid::new(20, 20, true);
    g.set_passable(10, 10, false);
    // Start on the target: (9,10), (11,10), (10,9), (10,11) are all at 1; smallest X wins.
    assert_eq!(nearest_free_goal(&g, 10, 10, 10, 10), (9, 10));
    g.set_passable(9, 10, false);
    g.set_passable(9, 9, false);
    g.set_passable(9, 11, false);
    // Left column blocked: (10,9) and (10,11) tie at 1, then Y decides.
    assert_eq!(nearest_free_goal(&g, 10, 10, 10, 10), (10, 9));
}

#[test]
fn free_goal_skips_to_outer_rings_and_gives_up_after_eight() {
    let mut g = MoveGrid::new(40, 40, false);
    g.set_passable(20, 23, true);
    g.set_passable(20, 24, true);
    assert_eq!(nearest_free_goal(&g, 20, 39, 20, 20), (20, 23));
    let blocked = MoveGrid::new(40, 40, false);
    assert_eq!(nearest_free_goal(&blocked, 0, 0, 20, 20), (20, 20));
    let mut far = MoveGrid::new(40, 40, false);
    far.set_passable(20, 29, true);
    assert_eq!(nearest_free_goal(&far, 0, 0, 20, 20), (20, 20));
}

#[test]
fn free_goal_ignores_cells_below_zero() {
    let mut g = MoveGrid::new(5, 5, false);
    g.set_passable(1, 0, true);
    assert_eq!(nearest_free_goal(&g, 0, 0, 0, 0), (1, 0));
}

#[test]
fn other_living_units_block_their_cells() {
    let mut g = MoveGrid::new(10, 10, true);
    let es = vec![
        unit(1, 1, true, EntityKind::Unit),
        unit(2, 2, true, EntityKind::Infantry),
        unit(3, 3, false, EntityKind::Unit),
        unit(4, 4, true, EntityKind::Structure),
    ];
    block_other_mobiles(&mut g, &es, 0);
    assert!(g.is_passable(1, 1));
    assert!(!g.is_passable(2, 2));
    assert!(g.is_passable(3, 3));
    assert!(g.is_passable(4, 4));
}

#[test]
fn planning_opens_start_and_goal_unless_naval() {
    let mut g = MoveGrid::new(20, 20, false);
    assert_eq!(plan_repath_goal(&mut g, 0, 0, 15, 15, false), Some((15, 15)));
    assert!(g.is_passable(0, 0));
    assert!(g.is_passable(15, 15));
    let mut w = MoveGrid::new(20, 20, false);
    assert_eq!(plan_repath_goal(&mut w, 0, 0, 15, 15, true), None);
    assert!(w.is_passable(0, 0));
    assert!(!w.is_passable(15, 15));
    // The opened start is itself a candidate around the destination.
    let mut n = MoveGrid::new(3, 3, false);
    assert_eq!(plan_repath_goal(&mut n, 1, 1, 2, 2, true), Some((1, 1)));
}

#[test]
fn finishing_drops_start_and_land_for_ships() {
    let mut water = MoveGrid::new(5, 5, true);
    water.set_passable(2, 2, false);
    let path = vec![(0, 0), (1, 1), (2, 2), (3, 3)];
    assert_eq!(finish_repath(Some(path.clone()), 0, 0, false, &water), vec![(1, 1), (2, 2), (3, 3)]);
    assert_eq!(finish_repath(Some(path.clone()), 0, 0, true, &water), vec![(1, 1), (3, 3)]);
    assert_eq!(finish_repath(Some(path), 4, 4, false, &water).len(), 4);
    assert!(finish_repath(None, 0, 0, false, &water).is_empty());
}

#[test]
fn repath_runs_the_search_from_start_to_goal() {
    let mut grid = MoveGrid::new(10, 10, true);
    grid.set_passable(5, 5, false);
    let water = MoveGrid::new(10, 10, true);
    let es = vec![unit(0, 5, true, EntityKind::Unit), unit(4, 5, true, EntityKind::Unit)];
    let straight = |_g: &MoveGrid, sx: u16, sy: u16, gx: u16, gy: u16| Some(vec![(sx, sy), (gx, gy)]);
    // (4,5) is taken by the other unit, so the goal is the next best ring cell.
    assert_eq!(compute_repath_at(&es, 0, Some((5, 5)), false, &grid, &water, straight), vec![(4, 4)]);
    assert!(compute_repath_at(&es, 0, None, false, &grid, &water, straight).is_empty());
    let none = |_g: &MoveGrid, _a: u16, _b: u16, _c: u16, _d: u16| None;
    assert!(compute_repath_at(&es, 0, Some((5, 5)), false, &grid, &water, none).is_empty());
}
