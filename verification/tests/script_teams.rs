//! Scripted teams: spawn queue, spawn cell, formation and script steps.

use ra_engine::script_teams::{
    destroy_team_type, team_formation_cell, team_spawn_cell, tick_autocreate_teams,
    try_enqueue_team_spawn, AutocreateTeam, MapWaypoint, PendingTeamSpawn, ScriptStep, ScriptTeamRuntime, ScriptType,
};

fn spawn(team_id: u32) -> PendingTeamSpawn {
    PendingTeamSpawn { team_id, house_override: None, waypoint_override: None }
}

fn wp(index: i32, x: u16, y: u16) -> MapWaypoint {
    MapWaypoint { index, x, y }
}

fn step(action: i32, argument: i32) -> ScriptStep {
    ScriptStep { action, argument }
}

fn scripts() -> Vec<ScriptType> {
    vec![
        ScriptType { id: 1, steps: vec![step(3, 5), step(1, 2), step(8, 0)] },
        ScriptType { id: 2, steps: vec![step(6, 0)] },
    ]
}

#[test]
fn active_teams_are_counted_by_type() {
    let mut rt = ScriptTeamRuntime::new();
    rt.add_team(10, vec![1, 2], Some(1));
    rt.add_team(10, vec![3], None);
    rt.add_team(11, Vec::new(), None);
    rt.add_team(12, vec![4], None);
    assert_eq!(rt.active.len(), 3);
    assert_eq!(rt.count_active_of_type(10), 2);
    assert_eq!(rt.count_active_of_type(11), 0);
    assert_eq!(rt.active[0].step_idx, 0);
}

#[test]
fn queue_refuses_repeats_and_respects_max() {
    let mut rt = ScriptTeamRuntime::new();
    rt.add_team(5, vec![1], None);
    let mut pending = Vec::new();
    assert!(try_enqueue_team_spawn(&mut pending, &rt, spawn(5), Some(2)));
    assert!(!try_enqueue_team_spawn(&mut pending, &rt, spawn(5), Some(3)));
    let other_house = PendingTeamSpawn { team_id: 5, house_override: Some(4), waypoint_override: None };
    assert!(!try_enqueue_team_spawn(&mut pending, &rt, other_house, Some(2)));
    assert!(try_enqueue_team_spawn(&mut pending, &rt, other_house, Some(3)));
    assert!(try_enqueue_team_spawn(&mut pending, &rt, spawn(6), None));
    assert!(try_enqueue_team_spawn(&mut pending, &rt, spawn(7), Some(0)));
    assert_eq!(pending, vec![spawn(5), other_house, spawn(6), spawn(7)]);
}

#[test]
fn spawn_cell_falls_back_in_order() {
    let wps = vec![wp(0, 5, 5), wp(3, 10, 12)];
    assert_eq!(team_spawn_cell(&wps, 0, Some(3)), (10, 12));
    assert_eq!(team_spawn_cell(&wps, 3, Some(-1)), (10, 12));
    assert_eq!(team_spawn_cell(&wps, 7, None), (5, 5));
    assert_eq!(team_spawn_cell(&wps, -1, None), (5, 5));
    assert_eq!(team_spawn_cell(&[wp(2, 1, 2), wp(4, 8, 8)], 9, None), (1, 2));
    assert_eq!(team_spawn_cell(&[], 0, None), (1, 1));
}

#[test]
fn formation_rows_of_three() {
    assert_eq!(team_formation_cell(10, 10, 0), (10, 10));
    assert_eq!(team_formation_cell(10, 10, 2), (12, 10));
    assert_eq!(team_formation_cell(10, 10, 4), (11, 11));
    assert_eq!(team_formation_cell(65535, 0, 2), (65535, 0));
}

#[test]
fn scripts_step_jump_and_finish() {
    let mut rt = ScriptTeamRuntime::new();
    rt.add_team(10, vec![1, 2], Some(1));
    rt.add_team(11, vec![3], None);
    rt.add_team(12, vec![4], Some(99));
    rt.add_team(13, vec![5], Some(2));
    let s = scripts();
    let orders = rt.advance_scripts(&s);
    let seen: Vec<(i32, i32, Vec<u64>)> = orders.iter().map(|o| (o.action, o.argument, o.members.clone())).collect();
    assert_eq!(seen, vec![(3, 5, vec![1, 2]), (6, 0, vec![5])]);
    assert_eq!(rt.active.len(), 2);
    assert_eq!(rt.active[0].team_type_id, 10);
    assert_eq!(rt.active[0].step_idx, 1);
    assert_eq!(rt.active[1].team_type_id, 11);

    let orders = rt.advance_scripts(&s);
    assert_eq!(orders.len(), 1);
    assert_eq!((orders[0].action, orders[0].argument), (1, 2));
    assert_eq!(rt.active[0].step_idx, 2);
    assert!(rt.advance_scripts(&s).is_empty());
    assert_eq!(rt.active[0].step_idx, 0);
    let orders = rt.advance_scripts(&s);
    assert_eq!((orders[0].action, orders[0].argument), (3, 5));
}

#[test]
fn leaving_team_is_swap_removed() {
    let mut rt = ScriptTeamRuntime::new();
    rt.add_team(12, vec![4], Some(99));
    rt.add_team(10, vec![1], None);
    rt.add_team(11, vec![2], None);
    rt.advance_scripts(&scripts());
    let order: Vec<u32> = rt.active.iter().map(|t| t.team_type_id).collect();
    assert_eq!(order, vec![11, 10]);
}

#[test]
fn jump_past_the_end_ends_the_script() {
    let mut rt = ScriptTeamRuntime::new();
    rt.add_team(10, vec![1], Some(3));
    let s = vec![ScriptType { id: 3, steps: vec![step(8, 5)] }];
    assert!(rt.advance_scripts(&s).is_empty());
    assert!(rt.active.is_empty());
}

#[test]
fn autocreate_queues_ready_teams_once() {
    let mut rt = ScriptTeamRuntime::new();
    rt.add_team(2, vec![9], None);
    let teams = [
        AutocreateTeam { id: 1, max: 0, autocreate: true, house_ready: true },
        AutocreateTeam { id: 2, max: 1, autocreate: true, house_ready: true },
        AutocreateTeam { id: 3, max: 0, autocreate: false, house_ready: true },
        AutocreateTeam { id: 4, max: 0, autocreate: true, house_ready: false },
        AutocreateTeam { id: 1, max: 0, autocreate: true, house_ready: true },
    ];
    let mut pending = Vec::new();
    tick_autocreate_teams(&mut pending, &rt, &teams);
    assert_eq!(pending, vec![spawn(1)]);
    assert_eq!(pending.len(), 1);
}

#[test]
fn destroying_a_team_type_returns_its_members() {
    let mut rt = ScriptTeamRuntime::new();
    rt.add_team(10, vec![1, 2], None);
    rt.add_team(11, vec![3], None);
    rt.add_team(10, vec![4], None);
    let mut pending = vec![spawn(10), spawn(11), spawn(10)];
    let kill = destroy_team_type(&mut pending, &mut rt, 10);
    assert_eq!(kill, vec![1, 2, 4]);
    assert_eq!(pending, vec![spawn(11)]);
    assert_eq!(rt.active.len(), 1);
    assert_eq!(rt.active[0].team_type_id, 11);
}
