//! One tick of the map's AI triggers: house slots, eligibility, the pick
//! per house and the teams it queues.

use ra_engine::ai::HouseTypeKey;
use ra_engine::ai_conditions::{AiCondition, AiConditionKind, AiConditionWorld, AiTriggerCompareOp, PlayerPower};
use ra_engine::ai_trigger_tick::{
    resolve_ai_trigger_house_slots, tick_ai_triggers, AiTriggerDef, SlotPlayer, TeamTypeInfo, TickWorld,
};
use ra_engine::ai_triggers::AiTriggerRuntime;
use ra_engine::entities::EntityRecord;
use ra_engine::script_teams::{PendingTeamSpawn, ScriptTeamRuntime};
use ra_engine::super_weapons::{SuperWeaponRuntime, WeaponFilter};
use ra_engine::PlayerState;

fn houses() -> Vec<HouseTypeKey> {
    vec![
        HouseTypeKey { id: 1, type_key: "USSR".to_string() },
        HouseTypeKey { id: 2, type_key: "Greece".to_string() },
    ]
}

fn seats() -> Vec<SlotPlayer> {
    vec![
        SlotPlayer { id: 0, house: "Greece".to_string(), house_id: Some(2), ambient: false },
        SlotPlayer { id: 1, house: "USSR".to_string(), house_id: Some(1), ambient: false },
        SlotPlayer { id: 2, house: "Neutral".to_string(), house_id: None, ambient: true },
        SlotPlayer { id: 3, house: "Ukraine".to_string(), house_id: Some(3), ambient: false },
    ]
}

fn teams() -> Vec<TeamTypeInfo> {
    vec![
        TeamTypeInfo { id: 10, house: Some(1), priority: 5, max: 0 },
        TeamTypeInfo { id: 11, house: Some(1), priority: 9, max: 0 },
    ]
}

fn always() -> AiCondition {
    AiCondition {
        kind: AiConditionKind::Always,
        object_type: None,
        weapon: WeaponFilter::AnyWeapon,
        op: AiTriggerCompareOp::Equal,
        amount: 0,
    }
}

fn def(id: u32, team: u32, team2: Option<u32>, weight: u32, condition: AiCondition) -> AiTriggerDef {
    AiTriggerDef {
        id,
        team,
        team2,
        owner_house: Some(1),
        for_skirmish: false,
        enabled_easy: true,
        enabled_normal: true,
        enabled_hard: true,
        tech_level: 0,
        condition,
        weight,
        min_weight: 10,
        max_weight: 90,
    }
}

fn player(house: &str, funds: i32) -> PlayerState {
    PlayerState {
        house: house.to_string(),
        funds,
        power_output: 0,
        power_drain: 0,
        tech_level: 10,
        stolen_allied_tech: false,
        stolen_soviet_tech: false,
        stolen_third_tech: false,
        allies: Vec::new(),
    }
}

struct Fixture {
    teams: Vec<TeamTypeInfo>,
    houses: Vec<HouseTypeKey>,
    seats: Vec<SlotPlayer>,
    begun: Vec<String>,
    entities: Vec<EntityRecord>,
    players: Vec<PlayerState>,
    power: Vec<PlayerPower>,
    ambient: Vec<String>,
    sw: SuperWeaponRuntime,
}

fn fixture() -> Fixture {
    Fixture {
        teams: teams(),
        houses: houses(),
        seats: seats(),
        begun: vec!["ussr".to_string()],
        entities: Vec::new(),
        players: vec![player("USSR", 1000)],
        power: vec![PlayerPower { low_power: false, no_output: false }],
        ambient: vec!["Neutral".to_string()],
        sw: SuperWeaponRuntime::new(),
    }
}

fn world(f: &Fixture) -> TickWorld<'_> {
    TickWorld {
        teams: &f.teams,
        houses: &f.houses,
        seats: &f.seats,
        local: 0,
        begun: &f.begun,
        conditions: AiConditionWorld {
            entities: &f.entities,
            players: &f.players,
            power: &f.power,
            ambient_houses: &f.ambient,
            super_weapons: &f.sw,
        },
    }
}

fn spawn(team_id: u32) -> PendingTeamSpawn {
    PendingTeamSpawn { team_id, house_override: Some(1), waypoint_override: None }
}

#[test]
fn house_slots_follow_owner_team_or_every_opponent() {
    let h = houses();
    let s = seats();
    let owned = resolve_ai_trigger_house_slots(Some(1), Some(2), &h, &s, 0);
    assert_eq!(owned.len(), 1);
    assert_eq!(owned[0].key, "USSR");
    assert_eq!(owned[0].house_override, Some(1));
    let by_team = resolve_ai_trigger_house_slots(Some(9), Some(2), &h, &s, 0);
    assert_eq!(by_team.len(), 1);
    assert_eq!(by_team[0].key, "Greece");
    assert_eq!(by_team[0].house_override, None);
    assert!(resolve_ai_trigger_house_slots(None, Some(9), &h, &s, 0).is_empty());
    let every = resolve_ai_trigger_house_slots(None, None, &h, &s, 0);
    assert_eq!(every.len(), 2);
    assert_eq!(every[0].key, "USSR");
    assert_eq!(every[0].house_override, Some(1));
    assert_eq!(every[1].key, "Ukraine");
    assert_eq!(every[1].house_override, Some(3));
}

#[test]
fn one_pick_per_house_then_cooldown() {
    let f = fixture();
    let w = world(&f);
    let defs = vec![def(100, 10, None, 50, always()), def(200, 11, None, 40, always())];
    let mut rt = AiTriggerRuntime::from_map(true);
    let scripts = ScriptTeamRuntime::new();
    let mut pending: Vec<PendingTeamSpawn> = Vec::new();

    // The trigger whose team has the higher priority is picked alone.
    tick_ai_triggers(&mut rt, &defs, &w, &mut pending, &scripts, 7, 1);
    assert_eq!(pending, vec![spawn(11)]);
    assert_eq!(rt.cooldown_remaining(200), 90);
    assert_eq!(rt.cooldown_remaining(100), 0);
    assert_eq!(rt.current_weight(200, 40), 25);
    assert_eq!(rt.current_weight(100, 50), 70);

    // Next tick the picked one cools down; the other is the only candidate.
    tick_ai_triggers(&mut rt, &defs, &w, &mut pending, &scripts, 7, 2);
    assert_eq!(pending, vec![spawn(11), spawn(10)]);
    assert_eq!(rt.cooldown_remaining(200), 89);
    assert_eq!(rt.cooldown_remaining(100), 90);
    assert_eq!(rt.current_weight(100, 50), 40);
    assert_eq!(rt.current_weight(200, 40), 25);
}

#[test]
fn unmet_condition_raises_weight_and_launches_nothing() {
    let f = fixture();
    let w = world(&f);
    let rich = AiCondition {
        kind: AiConditionKind::OwnCredits,
        object_type: None,
        weapon: WeaponFilter::AnyWeapon,
        op: AiTriggerCompareOp::GreaterEqual,
        amount: 5000,
    };
    let defs = vec![def(300, 10, None, 50, rich)];
    let mut rt = AiTriggerRuntime::from_map(true);
    let scripts = ScriptTeamRuntime::new();
    let mut pending: Vec<PendingTeamSpawn> = Vec::new();
    tick_ai_triggers(&mut rt, &defs, &w, &mut pending, &scripts, 1, 1);
    assert!(pending.is_empty());
    assert_eq!(rt.current_weight(300, 50), 70);
    assert_eq!(rt.cooldown_remaining(300), 0);
}

#[test]
fn second_team_of_higher_priority_goes_first() {
    let f = fixture();
    let w = world(&f);
    let defs = vec![def(400, 10, Some(11), 50, always())];
    let mut rt = AiTriggerRuntime::from_map(true);
    let scripts = ScriptTeamRuntime::new();
    let mut pending: Vec<PendingTeamSpawn> = Vec::new();
    tick_ai_triggers(&mut rt, &defs, &w, &mut pending, &scripts, 3, 4);
    assert_eq!(pending, vec![spawn(11), spawn(10)]);
    assert_eq!(rt.cooldown_remaining(400), 90);
}

#[test]
fn switched_off_or_unbegun_houses_do_nothing() {
    let f = fixture();
    let w = world(&f);
    let defs = vec![def(500, 10, None, 50, always())];
    let scripts = ScriptTeamRuntime::new();
    let mut pending: Vec<PendingTeamSpawn> = Vec::new();
    let mut off = AiTriggerRuntime::from_map(false);
    tick_ai_triggers(&mut off, &defs, &w, &mut pending, &scripts, 3, 4);
    assert!(pending.is_empty());
    assert_eq!(off.cooldown_remaining(500), 0);

    let mut g = fixture();
    g.begun = vec!["Greece".to_string()];
    let w2 = world(&g);
    let mut rt = AiTriggerRuntime::from_map(true);
    tick_ai_triggers(&mut rt, &defs, &w2, &mut pending, &scripts, 3, 4);
    assert!(pending.is_empty());
    assert_eq!(rt.current_weight(500, 50), 50);
}
