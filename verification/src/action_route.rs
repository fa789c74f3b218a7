//! Which part of the battle a map action goes to, and with what: the
//! decision a trigger makes for each of its actions before anything in the
//! world changes.

use vstd::prelude::*;

use crate::house_actions::DestroyFilter;
use crate::script_teams::{find_waypoint, waypoint_cell, MapWaypoint};
use crate::trigger_dispatch::{house_or, prepare_runtime_action, prepared, RuntimeActionKind};
use crate::trigger_params::{
    action_house_param, action_waypoint_index_param, house_param, name_opt, number_at, number_in, trim_text,
    trimmed, waypoint_param,
};
use crate::triggers::TriggerAction;

verus! {

/// Kinds of map action, as the map's action codes name them.
#[derive(Clone, Copy, Debug, PartialEq, Eq, Structural)]
pub enum MapAction {
    /// A code the engine does not know.
    Unknown(i32),
    Win,
    Lose,
    ProductionBegins,
    LockInput,
    UnlockInput,
    Apply100Damage,
    CreateCrate,
    AllowWin,
    CreateTeam,
    Reinforcement,
    ReinforcementAtWaypoint,
    DestroyTeam,
    DestroyAttachedObjects,
    DestroyTag,
    AllToHunt,
    DestroyTrigger,
    ChangeHouse,
    MakeAlly,
    MakeEnemy,
    AllChangeHouse,
    DestroyAllOf,
    DestroyAllBuildingsOf,
    DestroyAllLandUnitsOf,
    ForceTrigger,
    TimerStart,
    TimerStop,
    TimerExtend,
    TimerShorten,
    TimerSet,
    EnableTrigger,
    DisableTrigger,
    AiTriggersBegin,
    AiTriggersStop,
    CreateRadarEvent,
    /// Movies, sounds, speech, camera, shroud, sidebar and text actions:
    /// nothing in the simulation changes.
    Presentation,
}

/// Where a map action goes.
#[derive(Debug)]
pub enum ActionRoute {
    /// Nothing to do.
    NoEffect,
    /// The action cannot be carried out: its code is recorded as unsupported.
    Unsupported,
    /// An action of the trigger run time.
    Runtime(TriggerAction),
    /// Production begins for `house` (recorded as unsupported if the house
    /// has nothing to begin).
    BeginProduction { house: String },
    /// A hundred points of damage around the cell.
    DamageAt { x: u16, y: u16 },
    /// A script crate of `crate_type` on the cell.
    CreateCrate { x: u16, y: u16, crate_type: String },
    /// The team type is queued for creation, at `waypoint` when given.
    EnqueueTeam { team: u32, waypoint: Option<i32> },
    DestroyTeam { team: u32 },
    /// The objects tagged for trigger `trigger` are destroyed.
    DestroyAttached { trigger: u32 },
    DestroyTag { tag: u32 },
    AllToHunt { house: String },
    /// The objects tagged for trigger `trigger` go over to `house`.
    ChangeAttachedHouse { trigger: u32, house: String },
    SetAllied { owner: String, other: String, allied: bool },
    ChangeAllHouse { from: String, to: String },
    DestroyHouse { house: String, filter: DestroyFilter },
    ForceFire { target: u32 },
    /// AI triggers of `house` (every house when `None`) are switched; when
    /// `enabled`, AI triggers as a whole are switched on too.
    AiTriggers { house: Option<String>, enabled: bool },
    /// AI triggers as a whole are switched off.
    DisableAiTriggers,
    RadarEvent { house: String, x: u16, y: u16 },
}

/// The kind of run-time action a map action is, if it is one.
pub open spec fn runtime_kind(kind: MapAction) -> Option<RuntimeActionKind> {
    match kind {
        MapAction::Win => Some(RuntimeActionKind::Win),
        MapAction::Lose => Some(RuntimeActionKind::Lose),
        MapAction::AllowWin => Some(RuntimeActionKind::AllowWin),
        MapAction::LockInput => Some(RuntimeActionKind::LockInput),
        MapAction::UnlockInput => Some(RuntimeActionKind::UnlockInput),
        MapAction::DestroyTrigger => Some(RuntimeActionKind::DestroyTrigger),
        MapAction::TimerStart => Some(RuntimeActionKind::TimerStart),
        MapAction::TimerStop => Some(RuntimeActionKind::TimerStop),
        MapAction::TimerExtend => Some(RuntimeActionKind::TimerExtend),
        MapAction::TimerShorten => Some(RuntimeActionKind::TimerShorten),
        MapAction::TimerSet => Some(RuntimeActionKind::TimerSet),
        MapAction::EnableTrigger => Some(RuntimeActionKind::EnableTrigger),
        MapAction::DisableTrigger => Some(RuntimeActionKind::DisableTrigger),
        _ => None,
    }
}

/// The trigger's owner house, else the local one.
pub open spec fn owner_or(owner: Option<Seq<char>>, local: Seq<char>) -> Seq<char> {
    match owner {
        Some(o) => o,
        None => local,
    }
}

/// The house the parameters name, else the trigger's owner, else the local
/// house.
pub open spec fn named_owner_local(params: Seq<String>, owner: Option<Seq<char>>, local: Seq<char>) -> Seq<char> {
    match house_param(params, false) {
        Some(h) => h,
        None => owner_or(owner, local),
    }
}

/// A waypoint number taken as a signed waypoint index (wrapping as a cast
/// does).
pub open spec fn as_index(n: Option<u32>) -> Option<i32> {
    match n {
        Some(n) => Some(n as i32),
        None => None,
    }
}

/// Cell of the waypoint the action's waypoint parameter names.
pub open spec fn action_cell(params: Seq<String>, wps: Seq<MapWaypoint>) -> Option<(u16, u16)> {
    match waypoint_param(params) {
        Some(n) => waypoint_cell(wps, n as int),
        None => None,
    }
}

/// Cell of the waypoint in a crate action's seventh parameter.
pub open spec fn crate_cell(params: Seq<String>, wps: Seq<MapWaypoint>) -> Option<(u16, u16)> {
    if 6 < params.len() {
        match number_in(params[6]@) {
            Some(n) => waypoint_cell(wps, n as int),
            None => None,
        }
    } else {
        None
    }
}

/// Crate type of a crate action: its second parameter trimmed, `0` when
/// missing or blank.
pub open spec fn crate_type_of(params: Seq<String>) -> Seq<char> {
    if 1 < params.len() && trimmed(params[1]@).len() > 0 {
        trimmed(params[1]@)
    } else {
        seq!['0']
    }
}

/// The route of a map action of kind `kind`, run by trigger `trigger` with
/// the team, tag and target trigger the action names, its parameters, the
/// trigger's owner house, the local house and the map's waypoints.
pub open spec fn routed(
    kind: MapAction,
    trigger: u32,
    team: Option<u32>,
    tag: Option<u32>,
    target: Option<u32>,
    params: Seq<String>,
    owner: Option<Seq<char>>,
    local: Seq<char>,
    wps: Seq<MapWaypoint>,
    r: ActionRoute,
) -> bool {
    let named = house_param(params, false);
    if runtime_kind(kind) is Some {
        r matches ActionRoute::Runtime(a) && prepared(runtime_kind(kind)->0, params, target, local, a)
    } else {
        match kind {
            MapAction::ProductionBegins => r matches ActionRoute::BeginProduction { house } && house@
                == named_owner_local(params, owner, local),
            MapAction::Apply100Damage => match action_cell(params, wps) {
                Some(c) => r == ActionRoute::DamageAt { x: c.0, y: c.1 },
                None => r is Unsupported,
            },
            MapAction::CreateCrate => match crate_cell(params, wps) {
                Some(c) => r matches ActionRoute::CreateCrate { x, y, crate_type } && x == c.0 && y == c.1
                    && crate_type@ == crate_type_of(params),
                None => r is Unsupported,
            },
            MapAction::CreateTeam | MapAction::Reinforcement => match team {
                Some(t) => r == ActionRoute::EnqueueTeam { team: t, waypoint: None },
                None => r is Unsupported,
            },
            MapAction::ReinforcementAtWaypoint => match team {
                Some(t) => r == ActionRoute::EnqueueTeam { team: t, waypoint: as_index(waypoint_param(params)) },
                None => r is Unsupported,
            },
            MapAction::DestroyTeam => match team {
                Some(t) => r == ActionRoute::DestroyTeam { team: t },
                None => r is Unsupported,
            },
            MapAction::DestroyAttachedObjects => r == ActionRoute::DestroyAttached { trigger },
            MapAction::DestroyTag => match tag {
                Some(t) => r == ActionRoute::DestroyTag { tag: t },
                None => r is Unsupported,
            },
            MapAction::AllToHunt => r matches ActionRoute::AllToHunt { house } && house@ == house_or(params, local),
            MapAction::ChangeHouse => match named {
                Some(h) => r matches ActionRoute::ChangeAttachedHouse { trigger: t, house } && t == trigger
                    && house@ == h,
                None => r is Unsupported,
            },
            MapAction::MakeAlly | MapAction::MakeEnemy => match named {
                Some(h) => r matches ActionRoute::SetAllied { owner: o, other, allied } && o@ == owner_or(
                    owner,
                    local,
                ) && other@ == h && allied == (kind is MakeAlly),
                None => r is Unsupported,
            },
            MapAction::AllChangeHouse => match named {
                Some(h) => r matches ActionRoute::ChangeAllHouse { from, to } && from@ == owner_or(owner, local)
                    && to@ == h,
                None => r is Unsupported,
            },
            MapAction::DestroyAllOf => r matches ActionRoute::DestroyHouse { house, filter } && house@ == house_or(
                params,
                local,
            ) && filter == DestroyFilter::All,
            MapAction::DestroyAllBuildingsOf => r matches ActionRoute::DestroyHouse { house, filter } && house@
                == house_or(params, local) && filter == DestroyFilter::Buildings,
            MapAction::DestroyAllLandUnitsOf => r matches ActionRoute::DestroyHouse { house, filter } && house@
                == house_or(params, local) && filter == DestroyFilter::LandUnits,
            MapAction::ForceTrigger => match target {
                Some(t) => r == ActionRoute::ForceFire { target: t },
                None => r is Unsupported,
            },
            MapAction::AiTriggersBegin => r matches ActionRoute::AiTriggers { house, enabled } && name_opt(house)
                == named && enabled,
            MapAction::AiTriggersStop => match named {
                Some(h) => r matches ActionRoute::AiTriggers { house, enabled } && name_opt(house) == Some(h)
                    && !enabled,
                None => r is DisableAiTriggers,
            },
            MapAction::CreateRadarEvent => match action_cell(params, wps) {
                Some(c) => r matches ActionRoute::RadarEvent { house, x, y } && house@ == named_owner_local(
                    params,
                    owner,
                    local,
                ) && x == c.0 && y == c.1,
                None => r is Unsupported,
            },
            MapAction::Unknown(_) => r is Unsupported,
            _ => r is NoEffect,
        }
    }
}

/// No waypoint has an index beyond the range of waypoint indices.
proof fn lemma_no_waypoint_beyond(wps: Seq<MapWaypoint>, n: int)
    requires
        n > i32::MAX,
    ensures
        waypoint_cell(wps, n) is None,
    decreases wps.len(),
{
    if wps.len() > 0 {
        lemma_no_waypoint_beyond(wps.drop_first(), n);
    }
}

/// Cell of the first waypoint with index `n`.
fn cell_of(wps: &[MapWaypoint], n: u32) -> (r: Option<(u16, u16)>)
    ensures
        r == waypoint_cell(wps@, n as int),
{
    if n > 0x7fff_ffff {
        proof {
            lemma_no_waypoint_beyond(wps@, n as int);
        }
        None
    } else {
        find_waypoint(wps, n as i32)
    }
}

/// The house the parameters name, else the trigger's owner, else the local
/// house.
fn named_owner_local_house(params: &[String], owner: Option<&str>, local: &str) -> (h: String)
    ensures
        h@ == named_owner_local(params@, opt_text(owner), local@),
{
    match action_house_param(params) {
        Some(h) => h,
        None => match owner {
            Some(o) => o.to_owned(),
            None => local.to_owned(),
        },
    }
}

/// The house the parameters name, else the local house.
fn named_or_local(params: &[String], local: &str) -> (h: String)
    ensures
        h@ == house_or(params@, local@),
{
    match action_house_param(params) {
        Some(h) => h,
        None => local.to_owned(),
    }
}

/// Text of an optional string slice.
pub open spec fn opt_text(s: Option<&str>) -> Option<Seq<char>> {
    match s {
        Some(t) => Some(t@),
        None => None,
    }
}

/// Where a map action of kind `kind` goes (see [`routed`]). `owner` is the
/// house of the trigger that runs it, when the trigger has one.
pub fn action_route(
    kind: MapAction,
    trigger: u32,
    team: Option<u32>,
    tag: Option<u32>,
    target: Option<u32>,
    params: &[String],
    owner: Option<&str>,
    local_house: &str,
    waypoints: &[MapWaypoint],
) -> (r: ActionRoute)
    ensures
        routed(kind, trigger, team, tag, target, params@, opt_text(owner), local_house@, waypoints@, r),
{
    let rk = match kind {
        MapAction::Win => Some(RuntimeActionKind::Win),
        MapAction::Lose => Some(RuntimeActionKind::Lose),
        MapAction::AllowWin => Some(RuntimeActionKind::AllowWin),
        MapAction::LockInput => Some(RuntimeActionKind::LockInput),
        MapAction::UnlockInput => Some(RuntimeActionKind::UnlockInput),
        MapAction::DestroyTrigger => Some(RuntimeActionKind::DestroyTrigger),
        MapAction::TimerStart => Some(RuntimeActionKind::TimerStart),
        MapAction::TimerStop => Some(RuntimeActionKind::TimerStop),
        MapAction::TimerExtend => Some(RuntimeActionKind::TimerExtend),
        MapAction::TimerShorten => Some(RuntimeActionKind::TimerShorten),
        MapAction::TimerSet => Some(RuntimeActionKind::TimerSet),
        MapAction::EnableTrigger => Some(RuntimeActionKind::EnableTrigger),
        MapAction::DisableTrigger => Some(RuntimeActionKind::DisableTrigger),
        _ => None,
    };
    if let Some(k) = rk {
        return ActionRoute::Runtime(prepare_runtime_action(k, params, target, local_house));
    }
    match kind {
        MapAction::ProductionBegins => ActionRoute::BeginProduction {
            house: named_owner_local_house(params, owner, local_house),
        },
        MapAction::Apply100Damage => match action_waypoint_index_param(params) {
            Some(n) => match cell_of(waypoints, n) {
                Some(c) => ActionRoute::DamageAt { x: c.0, y: c.1 },
                None => ActionRoute::Unsupported,
            },
            None => ActionRoute::Unsupported,
        },
        MapAction::CreateCrate => match number_at(params, 6) {
            Some(n) => match cell_of(waypoints, n) {
                Some(c) => {
                    let crate_type = if params.len() > 1 && !trim_text(params[1].as_str()).is_empty() {
                        trim_text(params[1].as_str()).to_owned()
                    } else {
                        let zero = "0";
                        proof {
                            reveal_strlit("0");
                        }
                        assert(zero@ =~= seq!['0']);
                        zero.to_owned()
                    };
                    assert(crate_type@ == crate_type_of(params@));
                    ActionRoute::CreateCrate { x: c.0, y: c.1, crate_type }
                },
                None => ActionRoute::Unsupported,
            },
            None => ActionRoute::Unsupported,
        },
        MapAction::CreateTeam | MapAction::Reinforcement => match team {
            Some(t) => ActionRoute::EnqueueTeam { team: t, waypoint: None },
            None => ActionRoute::Unsupported,
        },
        MapAction::ReinforcementAtWaypoint => match team {
            Some(t) => {
                let w = action_waypoint_index_param(params);
                let waypoint = match w {
                    Some(n) => Some(n as i32),
                    None => None,
                };
                assert(waypoint == as_index(w));
                ActionRoute::EnqueueTeam { team: t, waypoint }
            },
            None => ActionRoute::Unsupported,
        },
        MapAction::DestroyTeam => match team {
            Some(t) => ActionRoute::DestroyTeam { team: t },
            None => ActionRoute::Unsupported,
        },
        MapAction::DestroyAttachedObjects => ActionRoute::DestroyAttached { trigger },
        MapAction::DestroyTag => match tag {
            Some(t) => ActionRoute::DestroyTag { tag: t },
            None => ActionRoute::Unsupported,
        },
        MapAction::AllToHunt => ActionRoute::AllToHunt { house: named_or_local(params, local_house) },
        MapAction::ChangeHouse => match action_house_param(params) {
            Some(h) => ActionRoute::ChangeAttachedHouse { trigger, house: h },
            None => ActionRoute::Unsupported,
        },
        MapAction::MakeAlly | MapAction::MakeEnemy => match action_house_param(params) {
            Some(h) => {
                let o = match owner {
                    Some(o) => o.to_owned(),
                    None => local_house.to_owned(),
                };
                let allied = match kind {
                    MapAction::MakeAlly => true,
                    _ => false,
                };
                ActionRoute::SetAllied { owner: o, other: h, allied }
            },
            None => ActionRoute::Unsupported,
        },
        MapAction::AllChangeHouse => match action_house_param(params) {
            Some(h) => {
                let from = match owner {
                    Some(o) => o.to_owned(),
                    None => local_house.to_owned(),
                };
                ActionRoute::ChangeAllHouse { from, to: h }
            },
            None => ActionRoute::Unsupported,
        },
        MapAction::DestroyAllOf => ActionRoute::DestroyHouse {
            house: named_or_local(params, local_house),
            filter: DestroyFilter::All,
        },
        MapAction::DestroyAllBuildingsOf => ActionRoute::DestroyHouse {
            house: named_or_local(params, local_house),
            filter: DestroyFilter::Buildings,
        },
        MapAction::DestroyAllLandUnitsOf => ActionRoute::DestroyHouse {
            house: named_or_local(params, local_house),
            filter: DestroyFilter::LandUnits,
        },
        MapAction::ForceTrigger => match target {
            Some(t) => ActionRoute::ForceFire { target: t },
            None => ActionRoute::Unsupported,
        },
        MapAction::AiTriggersBegin => ActionRoute::AiTriggers { house: action_house_param(params), enabled: true },
        MapAction::AiTriggersStop => match action_house_param(params) {
            Some(h) => ActionRoute::AiTriggers { house: Some(h), enabled: false },
            None => ActionRoute::DisableAiTriggers,
        },
        MapAction::CreateRadarEvent => match action_waypoint_index_param(params) {
            Some(n) => match cell_of(waypoints, n) {
                Some(c) => ActionRoute::RadarEvent {
                    house: named_owner_local_house(params, owner, local_house),
                    x: c.0,
                    y: c.1,
                },
                None => ActionRoute::Unsupported,
            },
            None => ActionRoute::Unsupported,
        },
        MapAction::Unknown(_) => ActionRoute::Unsupported,
        _ => ActionRoute::NoEffect,
    }
}

} // verus!
