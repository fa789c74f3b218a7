//! Where map actions go.

use ra_engine::action_route::{action_route, ActionRoute, MapAction};
use ra_engine::house_actions::DestroyFilter;
use ra_engine::script_teams::MapWaypoint;
use ra_engine::triggers::TriggerAction;

fn params(xs: &[&str]) -> Vec<String> {
    xs.iter().map(|s| s.to_string()).collect()
}

fn wps() -> Vec<MapWaypoint> {
    vec![MapWaypoint { index: 2, x: 10, y: 11 }, MapWaypoint { index: 4, x: 20, y: 21 }]
}

fn route(kind: MapAction, team: Option<u32>, target: Option<u32>, ps: &[&str], owner: Option<&str>) -> ActionRoute {
    action_route(kind, 9, team, Some(6), target, &params(ps), owner, "USSR", &wps())
}

#[test]
fn unknown_codes_are_unsupported_and_presentation_does_nothing() {
    assert!(matches!(route(MapAction::Unknown(77), None, None, &[], None), ActionRoute::Unsupported));
    assert!(matches!(route(MapAction::Presentation, None, None, &["1"], None), ActionRoute::NoEffect));
}

#[test]
fn runtime_actions_are_prepared() {
    match route(MapAction::Win, None, None, &["0", " greece "], None) {
        ActionRoute::Runtime(TriggerAction::Win { house }) => assert_eq!(house, "GREECE"),
        other => panic!("unexpected {:?}", other),
    }
    match route(MapAction::Win, None, None, &["0"], None) {
        ActionRoute::Runtime(TriggerAction::Win { house }) => assert_eq!(house, "USSR"),
        other => panic!("unexpected {:?}", other),
    }
    assert!(matches!(
        route(MapAction::TimerSet, None, Some(3), &["1", "2", "30"], None),
        ActionRoute::Runtime(TriggerAction::TimerSet { target: Some(3), ticks: Some(30) })
    ));
}

#[test]
fn team_actions_need_a_team() {
    assert!(matches!(route(MapAction::CreateTeam, None, None, &[], None), ActionRoute::Unsupported));
    assert!(matches!(
        route(MapAction::Reinforcement, Some(3), None, &["0", "5"], None),
        ActionRoute::EnqueueTeam { team: 3, waypoint: None }
    ));
    assert!(matches!(
        route(MapAction::ReinforcementAtWaypoint, Some(3), None, &["0", "5"], None),
        ActionRoute::EnqueueTeam { team: 3, waypoint: Some(5) }
    ));
    assert!(matches!(
        route(MapAction::ReinforcementAtWaypoint, Some(3), None, &["x"], None),
        ActionRoute::EnqueueTeam { team: 3, waypoint: None }
    ));
    assert!(matches!(route(MapAction::DestroyTeam, Some(8), None, &[], None), ActionRoute::DestroyTeam { team: 8 }));
    assert!(matches!(route(MapAction::DestroyTag, None, None, &[], None), ActionRoute::DestroyTag { tag: 6 }));
}

#[test]
fn waypoint_actions_find_their_cell() {
    assert!(matches!(route(MapAction::Apply100Damage, None, None, &["4"], None), ActionRoute::DamageAt { x: 20, y: 21 }));
    assert!(matches!(route(MapAction::Apply100Damage, None, None, &["3"], None), ActionRoute::Unsupported));
    match route(MapAction::CreateCrate, None, None, &["0", " 7 ", "", "", "", "", "2"], None) {
        ActionRoute::CreateCrate { x, y, crate_type } => assert_eq!((x, y, crate_type.as_str()), (10, 11, "7")),
        other => panic!("unexpected {:?}", other),
    }
    match route(MapAction::CreateCrate, None, None, &["0", " ", "", "", "", "", "4"], None) {
        ActionRoute::CreateCrate { x, y, crate_type } => assert_eq!((x, y, crate_type.as_str()), (20, 21, "0")),
        other => panic!("unexpected {:?}", other),
    }
    assert!(matches!(route(MapAction::CreateCrate, None, None, &["0", "7"], None), ActionRoute::Unsupported));
    match route(MapAction::CreateRadarEvent, None, None, &["2"], Some("GOODGUY")) {
        ActionRoute::RadarEvent { house, x, y } => assert_eq!((house.as_str(), x, y), ("GOODGUY", 10, 11)),
        other => panic!("unexpected {:?}", other),
    }
    assert!(matches!(route(MapAction::CreateRadarEvent, None, None, &["1", "9"], None), ActionRoute::Unsupported));
}

#[test]
fn house_actions_fall_back_to_owner_or_local_house() {
    match route(MapAction::MakeEnemy, None, None, &["Greece"], Some("Spain")) {
        ActionRoute::SetAllied { owner, other, allied } => {
            assert_eq!((owner.as_str(), other.as_str(), allied), ("Spain", "Greece", false))
        },
        other => panic!("unexpected {:?}", other),
    }
    match route(MapAction::MakeAlly, None, None, &["Greece"], None) {
        ActionRoute::SetAllied { owner, other, allied } => {
            assert_eq!((owner.as_str(), other.as_str(), allied), ("USSR", "Greece", true))
        },
        other => panic!("unexpected {:?}", other),
    }
    assert!(matches!(route(MapAction::MakeAlly, None, None, &["0"], None), ActionRoute::Unsupported));
    assert!(matches!(route(MapAction::ChangeHouse, None, None, &[], None), ActionRoute::Unsupported));
    match route(MapAction::ProductionBegins, None, None, &[], Some("Spain")) {
        ActionRoute::BeginProduction { house } => assert_eq!(house, "Spain"),
        other => panic!("unexpected {:?}", other),
    }
    match route(MapAction::DestroyAllBuildingsOf, None, None, &[], Some("Spain")) {
        ActionRoute::DestroyHouse { house, filter } => {
            assert_eq!(house, "USSR");
            assert!(matches!(filter, DestroyFilter::Buildings));
        },
        other => panic!("unexpected {:?}", other),
    }
    assert!(matches!(route(MapAction::AiTriggersStop, None, None, &[], None), ActionRoute::DisableAiTriggers));
    match route(MapAction::AiTriggersBegin, None, None, &["Greece"], None) {
        ActionRoute::AiTriggers { house, enabled } => assert_eq!((house.as_deref(), enabled), (Some("Greece"), true)),
        other => panic!("unexpected {:?}", other),
    }
    assert!(matches!(route(MapAction::ForceTrigger, None, None, &[], None), ActionRoute::Unsupported));
    assert!(matches!(
        route(MapAction::DestroyAttachedObjects, None, None, &[], None),
        ActionRoute::DestroyAttached { trigger: 9 }
    ));
}
