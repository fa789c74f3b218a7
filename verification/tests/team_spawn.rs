//! Creating queued teams at their waypoints.

use ra_engine::script_teams::{flush_pending_team_spawns, MapWaypoint, PendingTeamSpawn};
use ra_engine::team_spawn::{team_spawn_plan, ForceEntry, TaskForce, TeamFacts};

fn entry(definition_id: u32, count: u32) -> ForceEntry {
    ForceEntry { definition_id, count, known: true, building: false }
}

fn team(id: u32, house: Option<u32>, waypoint: i32) -> TeamFacts {
    TeamFacts { id, task_force: 7, house, waypoint, script: Some(3), tag: Some(12) }
}

#[test]
fn a_team_lays_out_in_rows_of_three_at_its_waypoint() {
    let wps = [MapWaypoint { index: 0, x: 1, y: 1 }, MapWaypoint { index: 4, x: 10, y: 20 }];
    let mut building = entry(99, 2);
    building.building = true;
    let mut unknown = entry(98, 2);
    unknown.known = false;
    let force = [entry(5, 2), building, unknown, entry(6, 0), entry(7, 2)];
    let cells = team_spawn_plan(&team(1, Some(2), 4), &force, &wps, None);
    assert_eq!(cells, vec![(5, 10, 20), (5, 11, 20), (6, 12, 20), (7, 10, 21), (7, 11, 21)]);
    // An override waypoint wins; an unknown one falls back to waypoint 0.
    assert_eq!(team_spawn_plan(&team(1, Some(2), 4), &[entry(5, 1)], &wps, Some(0)), vec![(5, 1, 1)]);
    assert_eq!(team_spawn_plan(&team(1, Some(2), 9), &[entry(5, 1)], &wps, None), vec![(5, 1, 1)]);
    assert_eq!(team_spawn_plan(&team(1, Some(2), 9), &[entry(5, 1)], &[], None), vec![(5, 1, 1)]);
}

#[test]
fn flushing_gives_the_teams_to_create_and_empties_the_queue() {
    let wps = [MapWaypoint { index: 4, x: 10, y: 20 }];
    let teams = [team(1, Some(2), 4), team(2, None, 4), team(3, Some(8), 4)];
    let forces = [TaskForce { id: 7, entries: vec![entry(5, 1)] }];
    let mut pending = vec![
        PendingTeamSpawn { team_id: 1, house_override: None, waypoint_override: None },
        PendingTeamSpawn { team_id: 2, house_override: None, waypoint_override: None },
        PendingTeamSpawn { team_id: 2, house_override: Some(2), waypoint_override: None },
        PendingTeamSpawn { team_id: 3, house_override: None, waypoint_override: None },
        PendingTeamSpawn { team_id: 9, house_override: None, waypoint_override: None },
    ];
    let spawns = flush_pending_team_spawns(&mut pending, &teams, &forces, &[2], &wps);
    assert!(pending.is_empty());
    assert_eq!(spawns.len(), 2);
    assert_eq!((spawns[0].team_id, spawns[0].house, spawns[0].script, spawns[0].tag), (1, 2, Some(3), Some(12)));
    assert_eq!(spawns[0].units, vec![(5, 10, 20)]);
    assert_eq!((spawns[1].team_id, spawns[1].house), (2, 2));
}
