//! The movement phase over plain movers.

use ra_engine::movement::{advance_movement, step_mover, MoveStage, Mover};
use ra_engine::repath::MoveGrid;

fn mover(id: u64, cell: (u16, u16), destination: Option<(u16, u16)>, speed: u32) -> Mover {
    Mover {
        id,
        alive: true,
        mobile: true,
        naval: false,
        speed,
        cell,
        facing: 64,
        destination,
        waypoints: Vec::new(),
        path: Vec::new(),
        move_accum: 0,
        attack_move: false,
        target: None,
        range: 0,
        walk_frame: 0,
        stage: MoveStage::Start,
    }
}

/// A straight search along the row, then the column (ignores blocked cells).
fn line(_g: &MoveGrid, sx: u16, sy: u16, tx: u16, ty: u16) -> Option<Vec<(u16, u16)>> {
    let mut p = vec![(sx, sy)];
    let (mut x, mut y) = (sx, sy);
    while x != tx {
        x = if x < tx { x + 1 } else { x - 1 };
        p.push((x, y));
    }
    while y != ty {
        y = if y < ty { y + 1 } else { y - 1 };
        p.push((x, y));
    }
    Some(p)
}

#[test]
fn a_unit_without_a_path_plans_one_and_steps_a_cell() {
    let grid = MoveGrid::new(16, 16, true);
    let water = MoveGrid::new(16, 16, false);
    let mut ms = vec![mover(1, (0, 0), Some((3, 0)), 100)];
    advance_movement(&mut ms, &grid, &water, 100, line);
    assert_eq!(ms[0].cell, (1, 0));
    assert_eq!(ms[0].path, vec![(2, 0), (3, 0)]);
    assert_eq!(ms[0].facing, 0);
    assert_eq!(ms[0].walk_frame, 1);
    assert_eq!(ms[0].move_accum, 0);
    assert_eq!(ms[0].stage, MoveStage::Done);
    // Half a cell per tick: the next tick only builds up speed.
    ms[0].speed = 50;
    advance_movement(&mut ms, &grid, &water, 100, line);
    assert_eq!(ms[0].cell, (1, 0));
    assert_eq!(ms[0].move_accum, 50);
    advance_movement(&mut ms, &grid, &water, 100, line);
    assert_eq!(ms[0].cell, (2, 0));
}

#[test]
fn arriving_takes_the_next_waypoint_and_ends_an_attack_move() {
    let grid = MoveGrid::new(16, 16, true);
    let water = MoveGrid::new(16, 16, false);
    let mut a = mover(1, (2, 2), Some((2, 2)), 100);
    a.waypoints = vec![(2, 4), (6, 6)];
    a.move_accum = 70;
    let mut b = mover(2, (5, 5), Some((5, 5)), 100);
    b.attack_move = true;
    let mut ms = vec![a, b];
    advance_movement(&mut ms, &grid, &water, 100, line);
    assert_eq!(ms[0].destination, Some((2, 4)));
    assert_eq!(ms[0].waypoints, vec![(6, 6)]);
    assert_eq!(ms[0].path, vec![(2, 3), (2, 4)]);
    assert_eq!(ms[0].move_accum, 0);
    assert_eq!(ms[0].cell, (2, 2));
    assert_eq!(ms[1].destination, None);
    assert!(!ms[1].attack_move);
}

#[test]
fn a_unit_stops_when_its_target_is_in_range() {
    let grid = MoveGrid::new(16, 16, true);
    let water = MoveGrid::new(16, 16, false);
    let mut a = mover(1, (0, 0), Some((5, 0)), 100);
    a.path = vec![(1, 0), (2, 0)];
    a.target = Some(2);
    a.range = 3;
    let b = mover(2, (2, 1), None, 0);
    let mut ms = vec![a, b];
    advance_movement(&mut ms, &grid, &water, 100, line);
    assert_eq!(ms[0].cell, (0, 0));
    assert!(ms[0].path.is_empty());
}

#[test]
fn a_taken_cell_blocks_the_step() {
    let grid = MoveGrid::new(16, 16, true);
    let water = MoveGrid::new(16, 16, false);
    let mut a = mover(1, (0, 0), Some((3, 0)), 100);
    a.path = vec![(1, 0), (2, 0), (3, 0)];
    let b = mover(2, (1, 0), None, 0);
    let mut ms = vec![a, b];
    advance_movement(&mut ms, &grid, &water, 100, line);
    assert_eq!(ms[0].cell, (0, 0));
    assert_eq!(ms[0].path, vec![(1, 0), (2, 0), (3, 0)]);
    // Once the other unit is dead the way is free.
    ms[1].alive = false;
    advance_movement(&mut ms, &grid, &water, 100, line);
    assert_eq!(ms[0].cell, (1, 0));
}

#[test]
fn a_naval_unit_never_steps_onto_land() {
    let grid = MoveGrid::new(16, 16, true);
    let water = MoveGrid::new(16, 16, false);
    let mut a = mover(1, (0, 0), Some((3, 0)), 100);
    a.naval = true;
    a.path = vec![(1, 0)];
    let mut ms = vec![a];
    advance_movement(&mut ms, &grid, &water, 100, line);
    assert_eq!(ms[0].cell, (0, 0));
    assert!(ms[0].path.is_empty());
}

#[test]
fn dead_or_still_units_do_not_move() {
    let grid = MoveGrid::new(16, 16, true);
    let water = MoveGrid::new(16, 16, false);
    let mut a = mover(1, (0, 0), Some((3, 0)), 100);
    a.alive = false;
    let b = mover(2, (5, 5), Some((9, 5)), 0);
    let mut ms = vec![a, b];
    advance_movement(&mut ms, &grid, &water, 100, line);
    assert_eq!(ms[0].cell, (0, 0));
    assert_eq!(ms[1].cell, (5, 5));
    assert_eq!(ms[1].walk_frame, 0);
}

#[test]
fn a_turn_waits_for_a_path_and_goes_on_with_it() {
    let water = MoveGrid::new(16, 16, false);
    let mut m = mover(1, (0, 0), Some((2, 0)), 100);
    step_mover(&mut m, false, &[], &water, 100, None);
    assert_eq!(m.stage, MoveStage::FirstRepath);
    step_mover(&mut m, false, &[], &water, 100, Some(vec![(1, 0), (2, 0)]));
    assert_eq!(m.stage, MoveStage::Done);
    assert_eq!(m.cell, (1, 0));
    assert_eq!(m.path, vec![(2, 0)]);
}
