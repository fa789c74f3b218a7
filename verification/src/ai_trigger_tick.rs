//! One tick of the map's AI triggers: which triggers are due for which
//! house, one weighted pick per house, and the teams each pick launches.

use vstd::prelude::*;

use crate::ai::{find_house_with_id, first_house_with_id, HouseTypeKey};
use crate::ai_conditions::{ai_condition_holds, ai_trigger_condition_holds, AiCondition, AiConditionKind, AiConditionWorld};
use crate::ai::{deterministic_roll, roll};
use crate::ai_triggers::{
    cooldown_of, cooled, effective_weight_of, enabled_for_difficulty_text, law_pick_has_top_priority, lemma_pool_total_bound, max_priority, nudged, pick,
    pick_weighted_trigger, top_pool, total, weights_of, AiTriggerRuntime, AiTriggerView, TriggerCandidate,
    AI_TRIGGER_COOLDOWN_TICKS,
};
use crate::key_order::{compare_keys, insert_sorted_key, lemma_sorted_unique, strictly_sorted, texts, KeyOrder};
use crate::script_teams::{may_enqueue, try_enqueue_team_spawn, ActiveScriptTeam, PendingTeamSpawn, ScriptTeamRuntime};
use vstd::utf8::encode_utf8;
use crate::players::{house_list_allows, list_has_house, player_of_from, PlayerState};
use crate::super_weapons::house_charges;

verus! {

/// An AI trigger of the map.
#[derive(Clone, Debug)]
pub struct AiTriggerDef {
    pub id: u32,
    /// Team type it builds.
    pub team: u32,
    /// Second team type it builds, if any.
    pub team2: Option<u32>,
    /// House that owns it, if it names one.
    pub owner_house: Option<u32>,
    /// Runs in skirmish sessions.
    pub for_skirmish: bool,
    pub enabled_easy: bool,
    pub enabled_normal: bool,
    pub enabled_hard: bool,
    /// Tech level the house must have reached.
    pub tech_level: i32,
    pub condition: AiCondition,
    /// Starting weight and the bounds of its drift.
    pub weight: u32,
    pub min_weight: u32,
    pub max_weight: u32,
}

/// A team type as the AI triggers read it.
#[derive(Clone, Copy, Debug)]
pub struct TeamTypeInfo {
    pub id: u32,
    /// House it is bound to (none: any).
    pub house: Option<u32>,
    pub priority: i32,
    /// Most teams of this type at once (`Max=`; 0: no limit).
    pub max: u32,
}

/// A player seat as the house slots read it.
#[derive(Clone, Debug)]
pub struct SlotPlayer {
    pub id: u8,
    pub house: String,
    pub house_id: Option<u32>,
    /// Its house is an ambient one (neutral, civilians).
    pub ambient: bool,
}

/// A house a trigger is evaluated for, and the house it then launches its
/// teams for (none: the trigger's own).
#[derive(Clone, Debug)]
pub struct HouseSlot {
    pub key: String,
    pub house_override: Option<u32>,
}

/// A house slot as plain values.
pub struct SlotView {
    pub key: Seq<char>,
    pub house_override: Option<u32>,
}

/// The slots as plain values.
pub open spec fn slot_views(s: Seq<HouseSlot>) -> Seq<SlotView> {
    s.map_values(|h: HouseSlot| SlotView { key: h.key@, house_override: h.house_override })
}

/// The seats other than the local one whose house is not ambient, as slots
/// launching for their own house.
pub open spec fn other_player_slots(players: Seq<SlotPlayer>, local: u8) -> Seq<SlotView>
    decreases players.len(),
{
    if players.len() == 0 {
        Seq::empty()
    } else {
        let rest = other_player_slots(players.drop_last(), local);
        let p = players.last();
        if p.id != local && !p.ambient {
            rest.push(SlotView { key: p.house@, house_override: p.house_id })
        } else {
            rest
        }
    }
}

/// The house slots of a trigger: its owning house when that house is known;
/// else the house of its team type (none when that house is unknown); a
/// trigger and team bound to no house run for every other non-ambient seat.
pub open spec fn trigger_slots(
    owner_house: Option<u32>,
    team_house: Option<u32>,
    houses: Seq<HouseTypeKey>,
    players: Seq<SlotPlayer>,
    local: u8,
) -> Seq<SlotView> {
    let owner = match owner_house {
        Some(id) => first_house_with_id(houses, id),
        None => None,
    };
    match owner {
        Some(h) => seq![SlotView { key: h.type_key@, house_override: owner_house }],
        None => match team_house {
            Some(th) => match first_house_with_id(houses, th) {
                Some(h) => seq![SlotView { key: h.type_key@, house_override: None }],
                None => Seq::empty(),
            },
            None => other_player_slots(players, local),
        },
    }
}

/// The house slots a trigger owned by `owner_house`, building a team bound
/// to `team_house`, is evaluated for.
pub fn resolve_ai_trigger_house_slots(
    owner_house: Option<u32>,
    team_house: Option<u32>,
    houses: &[HouseTypeKey],
    players: &[SlotPlayer],
    local: u8,
) -> (slots: Vec<HouseSlot>)
    ensures
        slot_views(slots@) == trigger_slots(owner_house, team_house, houses@, players@, local),
{
    let mut slots: Vec<HouseSlot> = Vec::new();
    if let Some(id) = owner_house {
        if let Some(i) = find_house_with_id(houses, id) {
            slots.push(HouseSlot { key: houses[i].type_key.as_str().to_owned(), house_override: owner_house });
            assert(slot_views(slots@) =~= trigger_slots(owner_house, team_house, houses@, players@, local));
            return slots;
        }
    }
    if let Some(th) = team_house {
        if let Some(i) = find_house_with_id(houses, th) {
            slots.push(HouseSlot { key: houses[i].type_key.as_str().to_owned(), house_override: None });
        }
        assert(slot_views(slots@) =~= trigger_slots(owner_house, team_house, houses@, players@, local));
        return slots;
    }
    let mut k: usize = 0;
    while k < players.len()
        invariant
            k <= players@.len(),
            slot_views(slots@) == other_player_slots(players@.take(k as int), local),
        decreases players@.len() - k,
    {
        let p = &players[k];
        proof {
            assert(players@.take(k + 1).drop_last() =~= players@.take(k as int));
            assert(players@.take(k + 1).last() == *p);
        }
        if p.id != local && !p.ambient {
            slots.push(HouseSlot { key: p.house.as_str().to_owned(), house_override: p.house_id });
        }
        assert(slot_views(slots@) =~= other_player_slots(players@.take(k + 1), local));
        k = k + 1;
    }
    assert(players@.take(k as int) =~= players@);
    slots
}

/// What becomes of a trigger for one house slot.
#[derive(Clone, Copy, Debug, PartialEq, Eq, Structural)]
pub enum SlotDecision {
    /// Not for this house now.
    Skip,
    /// Its condition fails: its weight drifts up.
    Unmet,
    /// It takes part in the house's pick.
    Eligible,
}

/// Tech level of the house's first player (0 without one).
pub open spec fn tech_of(players: Seq<PlayerState>, house: Seq<char>) -> i32 {
    match player_of_from(players, house, 0) {
        Some(i) => players[i].tech_level,
        None => 0,
    }
}

/// What the conditions read, as plain values.
pub struct ConditionFacts {
    pub entities: Seq<crate::entities::EntityRecord>,
    pub players: Seq<PlayerState>,
    pub power: Seq<crate::ai_conditions::PlayerPower>,
    pub ambient: Seq<String>,
    pub charges: Seq<crate::super_weapons::HouseChargesView>,
}

/// The facts of a condition world.
pub open spec fn facts_of(w: AiConditionWorld) -> ConditionFacts {
    ConditionFacts {
        entities: w.entities@,
        players: w.players@,
        power: w.power@,
        ambient: w.ambient_houses@,
        charges: w.super_weapons@,
    }
}

/// The decision for trigger `at` and slot `s`: a slot whose launching house
/// has its triggers stopped is skipped; for a named house, production must
/// have begun (`begun`), its tech level must reach the trigger's, and the
/// condition must hold; a slot without a house needs an `Always` condition.
pub open spec fn slot_decision(
    disabled: Seq<u32>,
    at: AiTriggerDef,
    s: SlotView,
    begun: Seq<String>,
    f: ConditionFacts,
) -> SlotDecision {
    let hid = match s.house_override {
        Some(h) => Some(h),
        None => at.owner_house,
    };
    if hid matches Some(h) && disabled.contains(h) {
        SlotDecision::Skip
    } else if s.key.len() > 0 {
        if !list_has_house(begun, s.key) {
            SlotDecision::Skip
        } else if tech_of(f.players, s.key) < at.tech_level {
            SlotDecision::Skip
        } else if !ai_condition_holds(
            f.entities,
            f.players,
            f.power,
            f.ambient,
            house_charges(f.charges, s.key),
            s.key,
            at.condition,
        ) {
            SlotDecision::Unmet
        } else {
            SlotDecision::Eligible
        }
    } else if at.condition.kind != AiConditionKind::Always {
        SlotDecision::Unmet
    } else {
        SlotDecision::Eligible
    }
}

fn find_player_index(players: &[PlayerState], house: &str) -> (r: Option<usize>)
    ensures
        match r {
            Some(i) => player_of_from(players@, house@, 0) == Some(i as int) && i < players@.len(),
            None => player_of_from(players@, house@, 0) is None,
        },
{
    let n = players.len();
    let mut i: usize = 0;
    while i < n
        invariant
            n == players@.len(),
            i <= n,
            player_of_from(players@, house@, 0) == player_of_from(players@, house@, i as int),
        decreases n - i,
    {
        if crate::text::eq_ignore_ascii_case(players[i].house.as_str(), house) {
            return Some(i);
        }
        i += 1;
    }
    None
}

/// What becomes of trigger `at` for slot `s` this tick (see
/// [`slot_decision`]).
pub fn decide_slot(rt: &AiTriggerRuntime, at: &AiTriggerDef, s: &HouseSlot, begun: &[String], w: &AiConditionWorld) -> (d: SlotDecision)
    requires
        w.super_weapons.wf(),
    ensures
        d == slot_decision(
            rt@.disabled,
            *at,
            SlotView { key: s.key@, house_override: s.house_override },
            begun@,
            facts_of(*w),
        ),
{
    let hid = match s.house_override {
        Some(h) => Some(h),
        None => at.owner_house,
    };
    if let Some(h) = hid {
        if rt.is_house_disabled(h) {
            return SlotDecision::Skip;
        }
    }
    let key = s.key.as_str();
    if !key.is_empty() {
        proof {
            assert(s.key@.len() > 0) by {
                if s.key@.len() == 0 {
                    assert(s.key@ =~= Seq::<char>::empty());
                }
            }
        }
        if !house_list_allows(begun, key) {
            return SlotDecision::Skip;
        }
        let tech = match find_player_index(w.players, key) {
            Some(i) => w.players[i].tech_level,
            None => 0,
        };
        if tech < at.tech_level {
            return SlotDecision::Skip;
        }
        if !ai_trigger_condition_holds(w, key, &at.condition) {
            return SlotDecision::Unmet;
        }
        SlotDecision::Eligible
    } else {
        proof {
            assert(s.key@.len() == 0);
        }
        match at.condition.kind {
            AiConditionKind::Always => SlotDecision::Eligible,
            _ => SlotDecision::Unmet,
        }
    }
}


/// A trigger that takes part in the pick of house `key`.
#[derive(Clone, Debug)]
pub struct EligibleTrigger {
    pub key: String,
    pub house_override: Option<u32>,
    /// Index of the trigger among the definitions.
    pub trigger: usize,
}

/// An eligible trigger as plain values.
pub struct EligibleView {
    pub key: Seq<char>,
    pub house_override: Option<u32>,
    pub trigger: int,
}

/// The eligible triggers as plain values.
pub open spec fn eligible_views(s: Seq<EligibleTrigger>) -> Seq<EligibleView> {
    s.map_values(|e: EligibleTrigger| EligibleView { key: e.key@, house_override: e.house_override, trigger: e.trigger as int })
}

/// The first team type with id `id`.
pub open spec fn team_info(teams: Seq<TeamTypeInfo>, id: u32) -> Option<TeamTypeInfo>
    decreases teams.len(),
{
    if teams.len() == 0 {
        None
    } else {
        match team_info(teams.drop_last(), id) {
            Some(t) => Some(t),
            None => if teams.last().id == id {
                Some(teams.last())
            } else {
                None
            },
        }
    }
}

proof fn lemma_team_info_prefix(teams: Seq<TeamTypeInfo>, id: u32, k: int)
    requires
        0 <= k <= teams.len(),
        team_info(teams.take(k), id) is Some,
    ensures
        team_info(teams, id) == team_info(teams.take(k), id),
    decreases teams.len() - k,
{
    if k < teams.len() {
        assert(teams.take(k + 1).drop_last() =~= teams.take(k));
        lemma_team_info_prefix(teams, id, k + 1);
    } else {
        assert(teams.take(k) =~= teams);
    }
}

/// The first team type with id `id`.
pub fn find_team_info(teams: &[TeamTypeInfo], id: u32) -> (r: Option<TeamTypeInfo>)
    ensures
        r == team_info(teams@, id),
{
    let mut i: usize = 0;
    while i < teams.len()
        invariant
            i <= teams@.len(),
            team_info(teams@.take(i as int), id) is None,
        decreases teams@.len() - i,
    {
        proof {
            assert(teams@.take(i + 1).drop_last() =~= teams@.take(i as int));
            assert(teams@.take(i + 1).last() == teams@[i as int]);
        }
        if teams[i].id == id {
            proof {
                lemma_team_info_prefix(teams@, id, i + 1);
            }
            return Some(teams[i]);
        }
        i = i + 1;
    }
    assert(teams@.take(i as int) =~= teams@);
    None
}

/// Trigger `at` is due this tick: cooled down, allowed in this kind of
/// session, on for the difficulty.
pub open spec fn due(v: AiTriggerView, at: AiTriggerDef) -> bool {
    &&& cooldown_of(v.cooldowns, at.id) == 0
    &&& !(v.skirmish && !at.for_skirmish)
    &&& enabled_for_difficulty_text(v.difficulty, at.enabled_easy, at.enabled_normal, at.enabled_hard)
}

/// The weights with trigger `at` nudged toward `target`.
pub open spec fn nudge(ws: Map<u32, u32>, at: AiTriggerDef, target: u32) -> Map<u32, u32> {
    ws.insert(at.id, nudged(effective_weight_of(ws, at.id, at.weight), at.min_weight, at.max_weight, target))
}

/// Weights and eligible list after the slots `slots` of trigger `at` (index
/// `k`) are decided in order.
pub open spec fn slots_fold(
    ws: Map<u32, u32>,
    elig: Seq<EligibleView>,
    at: AiTriggerDef,
    k: int,
    slots: Seq<SlotView>,
    disabled: Seq<u32>,
    begun: Seq<String>,
    f: ConditionFacts,
) -> (Map<u32, u32>, Seq<EligibleView>)
    decreases slots.len(),
{
    if slots.len() == 0 {
        (ws, elig)
    } else {
        let (w1, e1) = slots_fold(ws, elig, at, k, slots.drop_last(), disabled, begun, f);
        let s = slots.last();
        match slot_decision(disabled, at, s, begun, f) {
            SlotDecision::Skip => (w1, e1),
            SlotDecision::Unmet => (nudge(w1, at, at.max_weight), e1),
            SlotDecision::Eligible => (w1, e1.push(EligibleView { key: s.key, house_override: s.house_override, trigger: k })),
        }
    }
}

/// What the pick phase reads besides the runtime.
pub struct TickWorld<'a> {
    pub teams: &'a [TeamTypeInfo],
    pub houses: &'a [HouseTypeKey],
    pub seats: &'a [SlotPlayer],
    pub local: u8,
    /// Houses whose production has begun.
    pub begun: &'a [String],
    pub conditions: AiConditionWorld<'a>,
}

/// Weights and eligible list after the triggers `defs` are gone through in
/// order (`v`: the runtime once cooled down).
pub open spec fn collect_fold(
    ws: Map<u32, u32>,
    defs: Seq<AiTriggerDef>,
    v: AiTriggerView,
    teams: Seq<TeamTypeInfo>,
    houses: Seq<HouseTypeKey>,
    seats: Seq<SlotPlayer>,
    local: u8,
    begun: Seq<String>,
    f: ConditionFacts,
) -> (Map<u32, u32>, Seq<EligibleView>)
    decreases defs.len(),
{
    if defs.len() == 0 {
        (ws, Seq::empty())
    } else {
        let (w1, e1) = collect_fold(ws, defs.drop_last(), v, teams, houses, seats, local, begun, f);
        let at = defs.last();
        match team_info(teams, at.team) {
            Some(team) => if due(v, at) {
                slots_fold(
                    w1,
                    e1,
                    at,
                    defs.len() - 1,
                    trigger_slots(at.owner_house, team.house, houses, seats, local),
                    v.disabled,
                    begun,
                    f,
                )
            } else {
                (w1, e1)
            },
            None => (w1, e1),
        }
    }
}

/// First phase of a tick: every trigger that is due and whose team type is
/// known is decided for each of its house slots; unmet conditions push the
/// trigger's weight up; the eligible pairs come back in order.
pub fn collect_eligible(rt: &mut AiTriggerRuntime, defs: &[AiTriggerDef], world: &TickWorld) -> (elig: Vec<EligibleTrigger>)
    requires
        world.conditions.super_weapons.wf(),
    ensures
        ({
            let (ws, e) = collect_fold(
                old(rt)@.weights,
                defs@,
                old(rt)@,
                world.teams@,
                world.houses@,
                world.seats@,
                world.local,
                world.begun@,
                facts_of(world.conditions),
            );
            &&& final(rt)@ == (AiTriggerView { weights: ws, ..old(rt)@ })
            &&& eligible_views(elig@) == e
        }),
{
    let ghost v0 = rt@;
    let ghost f = facts_of(world.conditions);
    let mut elig: Vec<EligibleTrigger> = Vec::new();
    let mut k: usize = 0;
    while k < defs.len()
        invariant
            k <= defs@.len(),
            world.conditions.super_weapons.wf(),
            f == facts_of(world.conditions),
            ({
                let (ws, e) = collect_fold(
                    v0.weights,
                    defs@.take(k as int),
                    v0,
                    world.teams@,
                    world.houses@,
                    world.seats@,
                    world.local,
                    world.begun@,
                    f,
                );
                &&& rt@ == (AiTriggerView { weights: ws, ..v0 })
                &&& eligible_views(elig@) == e
            }),
        decreases defs@.len() - k,
    {
        let at = &defs[k];
        proof {
            assert(defs@.take(k + 1).drop_last() =~= defs@.take(k as int));
            assert(defs@.take(k + 1).last() == *at);
        }
        let team = find_team_info(world.teams, at.team);
        if let Some(team) = team {
            if rt.may_fire(at.id, at.for_skirmish, at.enabled_easy, at.enabled_normal, at.enabled_hard) {
                let slots = resolve_ai_trigger_house_slots(at.owner_house, team.house, world.houses, world.seats, world.local);
                let ghost sv = slot_views(slots@);
                let ghost w0 = rt@.weights;
                let ghost e0 = eligible_views(elig@);
                let mut j: usize = 0;
                while j < slots.len()
                    invariant
                        j <= slots@.len(),
                        sv == slot_views(slots@),
                        k < defs@.len(),
                        *at == defs@[k as int],
                        world.conditions.super_weapons.wf(),
                        f == facts_of(world.conditions),
                        rt@.disabled == v0.disabled,
                        ({
                            let (ws, e) = slots_fold(w0, e0, *at, k as int, sv.take(j as int), v0.disabled, world.begun@, f);
                            &&& rt@ == (AiTriggerView { weights: ws, ..v0 })
                            &&& eligible_views(elig@) == e
                        }),
                    decreases slots@.len() - j,
                {
                    let s = &slots[j];
                    proof {
                        assert(sv.take(j + 1).drop_last() =~= sv.take(j as int));
                        assert(sv.take(j + 1).last() == SlotView { key: s.key@, house_override: s.house_override });
                    }
                    match decide_slot(rt, at, s, world.begun, &world.conditions) {
                        SlotDecision::Skip => {},
                        SlotDecision::Unmet => {
                            rt.nudge_weight_toward(at.id, at.weight, at.min_weight, at.max_weight, at.max_weight);
                        },
                        SlotDecision::Eligible => {
                            elig.push(EligibleTrigger { key: s.key.as_str().to_owned(), house_override: s.house_override, trigger: k });
                        },
                    }
                    proof {
                        let (ws, e) = slots_fold(w0, e0, *at, k as int, sv.take(j + 1), v0.disabled, world.begun@, f);
                        assert(eligible_views(elig@) =~= e);
                    }
                    j = j + 1;
                }
                assert(sv.take(j as int) =~= sv);
            }
        }
        k = k + 1;
    }
    assert(defs@.take(k as int) =~= defs@);
    elig
}

/// Priority of team type `id` (0 when the type is unknown).
pub open spec fn team_priority(teams: Seq<TeamTypeInfo>, id: u32) -> i32 {
    match team_info(teams, id) {
        Some(t) => t.priority,
        None => 0,
    }
}

/// `Max=` of team type `id`, when the type is known.
pub open spec fn team_max(teams: Seq<TeamTypeInfo>, id: u32) -> Option<u32> {
    match team_info(teams, id) {
        Some(t) => Some(t.max),
        None => None,
    }
}

/// The triggers at `idx` as the pick sees them: their team's priority and
/// their current effective weight.
pub open spec fn group_candidates(
    ws: Map<u32, u32>,
    idx: Seq<int>,
    defs: Seq<AiTriggerDef>,
    teams: Seq<TeamTypeInfo>,
) -> Seq<TriggerCandidate> {
    idx.map_values(
        |i: int|
            TriggerCandidate {
                priority: team_priority(teams, defs[i].team),
                weight: effective_weight_of(ws, defs[i].id, defs[i].weight),
            },
    )
}

/// The weights after every trigger at `idx` other than trigger `picked`
/// drifted toward its maximum, in order.
pub open spec fn nudge_others(ws: Map<u32, u32>, idx: Seq<int>, defs: Seq<AiTriggerDef>, picked: u32) -> Map<u32, u32>
    decreases idx.len(),
{
    if idx.len() == 0 {
        ws
    } else {
        let w1 = nudge_others(ws, idx.drop_last(), defs, picked);
        let c = defs[idx.last()];
        if c.id != picked {
            nudge(w1, c, c.max_weight)
        } else {
            w1
        }
    }
}

/// Team types a picked trigger launches, in order: its team, and its
/// second team when that differs, the one of higher priority first (the
/// first team on a tie).
pub open spec fn launch_teams(at: AiTriggerDef, teams: Seq<TeamTypeInfo>) -> Seq<u32> {
    match at.team2 {
        Some(t2) => if t2 != at.team {
            if team_priority(teams, t2) > team_priority(teams, at.team) {
                seq![t2, at.team]
            } else {
                seq![at.team, t2]
            }
        } else {
            seq![at.team]
        },
        None => seq![at.team],
    }
}

/// The queue after a spawn of each team type in `ids` was offered in order,
/// for house `ho`.
pub open spec fn enqueue_all(
    pending: Seq<PendingTeamSpawn>,
    active: Seq<ActiveScriptTeam>,
    ids: Seq<u32>,
    ho: Option<u32>,
    teams: Seq<TeamTypeInfo>,
) -> Seq<PendingTeamSpawn>
    decreases ids.len(),
{
    if ids.len() == 0 {
        pending
    } else {
        let p0 = enqueue_all(pending, active, ids.drop_last(), ho, teams);
        let spawn = PendingTeamSpawn { team_id: ids.last(), house_override: ho, waypoint_override: None };
        if may_enqueue(p0, active, spawn, team_max(teams, ids.last())) {
            p0.push(spawn)
        } else {
            p0
        }
    }
}

/// What a tick changes: weights, cooldowns and the team queue.
pub struct TickState {
    pub weights: Map<u32, u32>,
    pub cooldowns: Map<u32, u32>,
    pub pending: Seq<PendingTeamSpawn>,
}

/// One house's pick: among its eligible triggers `idx` one is picked by
/// the roll of (`seed`, `tick`, `key`); the others drift toward their
/// maximum weight, the picked one launches its teams for house `ho`, starts
/// its cooldown and drifts toward its minimum weight.
pub open spec fn group_step(
    st: TickState,
    key: Seq<char>,
    idx: Seq<int>,
    ho: Option<u32>,
    defs: Seq<AiTriggerDef>,
    teams: Seq<TeamTypeInfo>,
    active: Seq<ActiveScriptTeam>,
    seed: u64,
    tick: u64,
) -> TickState {
    match pick(group_candidates(st.weights, idx, defs, teams), roll(seed, tick, encode_utf8(key))) {
        None => st,
        Some(p) => {
            let at = defs[idx[p]];
            TickState {
                weights: nudge(nudge_others(st.weights, idx, defs, at.id), at, at.min_weight),
                cooldowns: st.cooldowns.insert(at.id, AI_TRIGGER_COOLDOWN_TICKS),
                pending: enqueue_all(st.pending, active, launch_teams(at, teams), ho, teams),
            }
        },
    }
}

/// Indices as integers.
pub open spec fn as_ints(s: Seq<usize>) -> Seq<int> {
    s.map_values(|x: usize| x as int)
}

fn team_priority_of(teams: &[TeamTypeInfo], id: u32) -> (p: i32)
    ensures
        p == team_priority(teams@, id),
{
    match find_team_info(teams, id) {
        Some(t) => t.priority,
        None => 0,
    }
}

fn enqueue_team(
    pending: &mut Vec<PendingTeamSpawn>,
    scripts: &ScriptTeamRuntime,
    teams: &[TeamTypeInfo],
    id: u32,
    ho: Option<u32>,
)
    ensures
        final(pending)@ == enqueue_all(old(pending)@, scripts.active@, seq![id], ho, teams@),
{
    let tm = match find_team_info(teams, id) {
        Some(t) => Some(t.max),
        None => None,
    };
    let spawn = PendingTeamSpawn { team_id: id, house_override: ho, waypoint_override: None };
    let _ = try_enqueue_team_spawn(pending, scripts, spawn, tm);
    proof {
        lemma_enqueue_one(old(pending)@, scripts.active@, id, ho, teams@);
    }
}

proof fn lemma_enqueue_one(
    p0: Seq<PendingTeamSpawn>,
    active: Seq<ActiveScriptTeam>,
    id: u32,
    ho: Option<u32>,
    teams: Seq<TeamTypeInfo>,
)
    ensures
        ({
            let spawn = PendingTeamSpawn { team_id: id, house_override: ho, waypoint_override: None };
            enqueue_all(p0, active, seq![id], ho, teams) == if may_enqueue(p0, active, spawn, team_max(teams, id)) {
                p0.push(spawn)
            } else {
                p0
            }
        }),
{
    let ids = seq![id];
    assert(ids.drop_last() =~= Seq::<u32>::empty());
    assert(enqueue_all(p0, active, ids.drop_last(), ho, teams) == p0);
}

proof fn lemma_enqueue_two(
    p0: Seq<PendingTeamSpawn>,
    p1: Seq<PendingTeamSpawn>,
    p2: Seq<PendingTeamSpawn>,
    active: Seq<ActiveScriptTeam>,
    a: u32,
    b: u32,
    ho: Option<u32>,
    teams: Seq<TeamTypeInfo>,
)
    requires
        p1 == enqueue_all(p0, active, seq![a], ho, teams),
        p2 == enqueue_all(p1, active, seq![b], ho, teams),
    ensures
        p2 == enqueue_all(p0, active, seq![a, b], ho, teams),
{
    lemma_enqueue_one(p1, active, b, ho, teams);
    let ids = seq![a, b];
    assert(ids.drop_last() =~= seq![a]);
    assert(ids.last() == b);
}

/// Queues the teams of the picked trigger `at` for house `ho`.
fn launch(
    pending: &mut Vec<PendingTeamSpawn>,
    scripts: &ScriptTeamRuntime,
    teams: &[TeamTypeInfo],
    at: &AiTriggerDef,
    ho: Option<u32>,
)
    ensures
        final(pending)@ == enqueue_all(old(pending)@, scripts.active@, launch_teams(*at, teams@), ho, teams@),
{
    match at.team2 {
        Some(t2) => {
            if t2 != at.team {
                let p1 = team_priority_of(teams, at.team);
                let p2 = team_priority_of(teams, t2);
                if p2 > p1 {
                    enqueue_team(pending, scripts, teams, t2, ho);
                    let ghost p1s = pending@;
                    enqueue_team(pending, scripts, teams, at.team, ho);
                    proof {
                        lemma_enqueue_two(old(pending)@, p1s, pending@, scripts.active@, t2, at.team, ho, teams@);
                    }
                } else {
                    enqueue_team(pending, scripts, teams, at.team, ho);
                    let ghost p1s = pending@;
                    enqueue_team(pending, scripts, teams, t2, ho);
                    proof {
                        lemma_enqueue_two(old(pending)@, p1s, pending@, scripts.active@, at.team, t2, ho, teams@);
                    }
                }
            } else {
                enqueue_team(pending, scripts, teams, at.team, ho);
            }
        },
        None => {
            enqueue_team(pending, scripts, teams, at.team, ho);
        },
    }
}

/// The pick's view of the triggers at `members`.
fn collect_candidates(rt: &AiTriggerRuntime, defs: &[AiTriggerDef], teams: &[TeamTypeInfo], members: &[usize]) -> (cands: Vec<
    TriggerCandidate,
>)
    requires
        forall|j: int| 0 <= j < members@.len() ==> members@[j] < defs@.len(),
    ensures
        cands@ == group_candidates(rt@.weights, as_ints(members@), defs@, teams@),
{
    let ghost idx = as_ints(members@);
    let mut cands: Vec<TriggerCandidate> = Vec::new();
    let mut j: usize = 0;
    while j < members.len()
        invariant
            j <= members@.len(),
            idx == as_ints(members@),
            forall|q: int| 0 <= q < members@.len() ==> members@[q] < defs@.len(),
            cands@ == group_candidates(rt@.weights, idx.take(j as int), defs@, teams@),
        decreases members@.len() - j,
    {
        let at = &defs[members[j]];
        let pr = team_priority_of(teams, at.team);
        let w = rt.effective_weight(at.id, at.weight);
        cands.push(TriggerCandidate { priority: pr, weight: w });
        assert(cands@ =~= group_candidates(rt@.weights, idx.take(j + 1), defs@, teams@));
        j = j + 1;
    }
    assert(idx.take(j as int) =~= idx);
    cands
}

/// Every trigger at `members` other than trigger `picked` drifts toward its
/// maximum weight, in order.
fn nudge_unpicked(rt: &mut AiTriggerRuntime, defs: &[AiTriggerDef], members: &[usize], picked: u32)
    requires
        forall|j: int| 0 <= j < members@.len() ==> members@[j] < defs@.len(),
    ensures
        final(rt)@ == (AiTriggerView {
            weights: nudge_others(old(rt)@.weights, as_ints(members@), defs@, picked),
            ..old(rt)@
        }),
{
    let ghost idx = as_ints(members@);
    let ghost v0 = rt@;
    let mut j: usize = 0;
    while j < members.len()
        invariant
            j <= members@.len(),
            idx == as_ints(members@),
            forall|q: int| 0 <= q < members@.len() ==> members@[q] < defs@.len(),
            v0 == old(rt)@,
            rt@ == (AiTriggerView { weights: nudge_others(v0.weights, idx.take(j as int), defs@, picked), ..v0 }),
        decreases members@.len() - j,
    {
        let c = &defs[members[j]];
        proof {
            assert(idx.take(j + 1).drop_last() =~= idx.take(j as int));
            assert(idx.take(j + 1).last() == members@[j as int] as int);
        }
        if c.id != picked {
            rt.nudge_weight_toward(c.id, c.weight, c.min_weight, c.max_weight, c.max_weight);
        }
        j = j + 1;
    }
    assert(idx.take(j as int) =~= idx);
}

/// What the pick of trigger `defs[picked]` does: the other members drift
/// up, its teams are queued, its cooldown starts and it drifts down.
fn apply_pick(
    rt: &mut AiTriggerRuntime,
    pending: &mut Vec<PendingTeamSpawn>,
    scripts: &ScriptTeamRuntime,
    defs: &[AiTriggerDef],
    teams: &[TeamTypeInfo],
    members: &[usize],
    picked: usize,
    ho: Option<u32>,
)
    requires
        forall|j: int| 0 <= j < members@.len() ==> members@[j] < defs@.len(),
        picked < defs@.len(),
    ensures
        ({
            let at = defs@[picked as int];
            let idx = as_ints(members@);
            &&& final(rt)@ == (AiTriggerView {
                weights: nudge(nudge_others(old(rt)@.weights, idx, defs@, at.id), at, at.min_weight),
                cooldowns: old(rt)@.cooldowns.insert(at.id, AI_TRIGGER_COOLDOWN_TICKS),
                ..old(rt)@
            })
            &&& final(pending)@ == enqueue_all(old(pending)@, scripts.active@, launch_teams(at, teams@), ho, teams@)
        }),
{
    let at = &defs[picked];
    nudge_unpicked(rt, defs, members, at.id);
    launch(pending, scripts, teams, at, ho);
    rt.start_cooldown(at.id);
    rt.nudge_weight_toward(at.id, at.weight, at.min_weight, at.max_weight, at.min_weight);
}

/// The pick among `cands` with the roll of (`seed`, `tick`, `key`).
fn pick_for_key(cands: &Vec<TriggerCandidate>, key: &str, seed: u64, tick: u64) -> (r: Option<usize>)
    requires
        cands@.len() <= 0x1_0000_0001,
    ensures
        match r {
            Some(i) => pick(cands@, roll(seed, tick, encode_utf8(key@))) == Some(i as int) && i < cands@.len(),
            None => pick(cands@, roll(seed, tick, encode_utf8(key@))) is None,
        },
{
    let r = deterministic_roll(seed, tick, key);
    proof {
        if cands@.len() > 0 {
            law_pick_has_top_priority(cands@, r);
        }
        lemma_pool_total_bound(cands@);
        let n = cands@.len();
        assert(n * 0xFFFF_FFFFnat <= 0x1_0000_0001nat * 0xFFFF_FFFFnat) by (nonlinear_arith)
            requires
                n <= 0x1_0000_0001nat,
        ;
    }
    pick_weighted_trigger(cands.as_slice(), r)
}

/// Runs the pick of one house (see [`group_step`]); `members` are the
/// indices of its eligible triggers among `defs`, in order.
fn run_group(
    rt: &mut AiTriggerRuntime,
    pending: &mut Vec<PendingTeamSpawn>,
    scripts: &ScriptTeamRuntime,
    defs: &[AiTriggerDef],
    teams: &[TeamTypeInfo],
    key: &str,
    members: &[usize],
    ho: Option<u32>,
    seed: u64,
    tick: u64,
)
    requires
        forall|j: int| 0 <= j < members@.len() ==> members@[j] < defs@.len(),
        members@.len() <= 0x1_0000_0001,
    ensures
        ({
            let st = group_step(
                TickState { weights: old(rt)@.weights, cooldowns: old(rt)@.cooldowns, pending: old(pending)@ },
                key@,
                as_ints(members@),
                ho,
                defs@,
                teams@,
                scripts.active@,
                seed,
                tick,
            );
            &&& final(rt)@ == (AiTriggerView { weights: st.weights, cooldowns: st.cooldowns, ..old(rt)@ })
            &&& final(pending)@ == st.pending
        }),
{
    let ghost idx = as_ints(members@);
    let cands = collect_candidates(rt, defs, teams, members);
    let p = match pick_for_key(&cands, key, seed, tick) {
        Some(p) => p,
        None => {
            return;
        },
    };
    assert(idx[p as int] == members@[p as int] as int);
    apply_pick(rt, pending, scripts, defs, teams, members, members[p], ho);
}

/// The keys of the eligible triggers, in order.
pub open spec fn keys_of(e: Seq<EligibleView>) -> Seq<Seq<char>> {
    e.map_values(|c: EligibleView| c.key)
}

/// The distinct keys of the eligible triggers in byte order: the houses are
/// picked for in that order.
pub open spec fn sorted_keys(e: Seq<EligibleView>) -> Seq<Seq<char>> {
    choose|ks: Seq<Seq<char>>|
        strictly_sorted(ks) && forall|x: Seq<char>| #[trigger] ks.contains(x) <==> keys_of(e).contains(x)
}

/// The eligible triggers of house `key`, in order.
pub open spec fn group_of(e: Seq<EligibleView>, key: Seq<char>) -> Seq<EligibleView>
    decreases e.len(),
{
    if e.len() == 0 {
        Seq::empty()
    } else {
        let rest = group_of(e.drop_last(), key);
        if e.last().key == key {
            rest.push(e.last())
        } else {
            rest
        }
    }
}

/// Indices of the triggers of a group.
pub open spec fn group_triggers(g: Seq<EligibleView>) -> Seq<int> {
    g.map_values(|c: EligibleView| c.trigger)
}

/// House a group launches for: that of its first entry.
pub open spec fn group_house(g: Seq<EligibleView>) -> Option<u32> {
    if g.len() > 0 {
        g[0].house_override
    } else {
        None
    }
}

/// The state after the picks of the houses `keys`, in order.
pub open spec fn groups_fold(
    st: TickState,
    keys: Seq<Seq<char>>,
    e: Seq<EligibleView>,
    defs: Seq<AiTriggerDef>,
    teams: Seq<TeamTypeInfo>,
    active: Seq<ActiveScriptTeam>,
    seed: u64,
    tick: u64,
) -> TickState
    decreases keys.len(),
{
    if keys.len() == 0 {
        st
    } else {
        let s1 = groups_fold(st, keys.drop_last(), e, defs, teams, active, seed, tick);
        let g = group_of(e, keys.last());
        group_step(s1, keys.last(), group_triggers(g), group_house(g), defs, teams, active, seed, tick)
    }
}

/// What one tick does: nothing when the triggers are off or the map has
/// none; else every cooldown counts down, the due triggers are decided for
/// their houses (see [`collect_fold`]), and each house with eligible
/// triggers, in key order, makes one pick (see [`group_step`]).
pub open spec fn tick_outcome(
    v: AiTriggerView,
    pending: Seq<PendingTeamSpawn>,
    defs: Seq<AiTriggerDef>,
    teams: Seq<TeamTypeInfo>,
    houses: Seq<HouseTypeKey>,
    seats: Seq<SlotPlayer>,
    local: u8,
    begun: Seq<String>,
    f: ConditionFacts,
    active: Seq<ActiveScriptTeam>,
    seed: u64,
    tick: u64,
) -> TickState {
    if !v.enabled || defs.len() == 0 {
        TickState { weights: v.weights, cooldowns: v.cooldowns, pending }
    } else {
        let v1 = AiTriggerView { cooldowns: cooled(v.cooldowns), ..v };
        let (ws, e) = collect_fold(v1.weights, defs, v1, teams, houses, seats, local, begun, f);
        groups_fold(
            TickState { weights: ws, cooldowns: v1.cooldowns, pending },
            sorted_keys(e),
            e,
            defs,
            teams,
            active,
            seed,
            tick,
        )
    }
}

proof fn lemma_other_slots_len(players: Seq<SlotPlayer>, local: u8)
    ensures
        other_player_slots(players, local).len() <= players.len(),
    decreases players.len(),
{
    if players.len() > 0 {
        lemma_other_slots_len(players.drop_last(), local);
    }
}

proof fn lemma_slots_fold_bound(
    ws: Map<u32, u32>,
    elig: Seq<EligibleView>,
    at: AiTriggerDef,
    k: int,
    slots: Seq<SlotView>,
    disabled: Seq<u32>,
    begun: Seq<String>,
    f: ConditionFacts,
    n: int,
)
    requires
        0 <= k < n,
        forall|i: int| 0 <= i < elig.len() ==> 0 <= #[trigger] elig[i].trigger < n,
    ensures
        ({
            let (w, e) = slots_fold(ws, elig, at, k, slots, disabled, begun, f);
            &&& e.len() <= elig.len() + slots.len()
            &&& forall|i: int| 0 <= i < e.len() ==> 0 <= #[trigger] e[i].trigger < n
        }),
    decreases slots.len(),
{
    if slots.len() > 0 {
        lemma_slots_fold_bound(ws, elig, at, k, slots.drop_last(), disabled, begun, f, n);
    }
}

proof fn lemma_collect_bound(
    ws: Map<u32, u32>,
    defs: Seq<AiTriggerDef>,
    v: AiTriggerView,
    teams: Seq<TeamTypeInfo>,
    houses: Seq<HouseTypeKey>,
    seats: Seq<SlotPlayer>,
    local: u8,
    begun: Seq<String>,
    f: ConditionFacts,
)
    ensures
        ({
            let (w, e) = collect_fold(ws, defs, v, teams, houses, seats, local, begun, f);
            &&& e.len() <= defs.len() * (seats.len() + 1)
            &&& forall|i: int| 0 <= i < e.len() ==> 0 <= #[trigger] e[i].trigger < defs.len()
        }),
    decreases defs.len(),
{
    if defs.len() > 0 {
        let init = defs.drop_last();
        lemma_collect_bound(ws, init, v, teams, houses, seats, local, begun, f);
        let (w1, e1) = collect_fold(ws, init, v, teams, houses, seats, local, begun, f);
        let at = defs.last();
        let n = defs.len();
        let s = seats.len();
        assert((n - 1) * (s + 1) + (s + 1) == n * (s + 1)) by (nonlinear_arith);
        assert(0 <= (n - 1) * (s + 1)) by (nonlinear_arith)
            requires
                n >= 1,
        ;
        match team_info(teams, at.team) {
            Some(team) => if due(v, at) {
                let slots = trigger_slots(at.owner_house, team.house, houses, seats, local);
                lemma_other_slots_len(seats, local);
                lemma_slots_fold_bound(w1, e1, at, n - 1, slots, v.disabled, begun, f, n as int);
            },
            None => {},
        }
    }
}

/// The distinct keys of `elig`, sorted.
fn sorted_group_keys(elig: &Vec<EligibleTrigger>) -> (keys: Vec<String>)
    ensures
        texts(keys@) == sorted_keys(eligible_views(elig@)),
{
    let ghost ks = keys_of(eligible_views(elig@));
    let mut keys: Vec<String> = Vec::new();
    let mut i: usize = 0;
    while i < elig.len()
        invariant
            i <= elig@.len(),
            ks == keys_of(eligible_views(elig@)),
            strictly_sorted(texts(keys@)),
            forall|x: Seq<char>| #[trigger] texts(keys@).contains(x) <==> ks.take(i as int).contains(x),
        decreases elig@.len() - i,
    {
        insert_sorted_key(&mut keys, elig[i].key.as_str());
        proof {
            assert(ks[i as int] == elig@[i as int].key@);
            assert forall|x: Seq<char>| #[trigger] texts(keys@).contains(x) <==> ks.take(i + 1).contains(x) by {
                let t1 = ks.take(i + 1);
                let t0 = ks.take(i as int);
                if t1.contains(x) {
                    let j = choose|j: int| 0 <= j < t1.len() && #[trigger] t1[j] == x;
                    if j < i {
                        assert(t0[j] == x);
                    }
                }
                if t0.contains(x) {
                    let j = choose|j: int| 0 <= j < t0.len() && #[trigger] t0[j] == x;
                    assert(t1[j] == x);
                }
                if x == ks[i as int] {
                    assert(ks.take(i + 1)[i as int] == x);
                }
            }
        }
        i = i + 1;
    }
    proof {
        assert(ks.take(i as int) =~= ks);
        let t = texts(keys@);
        assert(strictly_sorted(t) && forall|x: Seq<char>| #[trigger] t.contains(x) <==> ks.contains(x));
        let c = sorted_keys(eligible_views(elig@));
        lemma_sorted_unique(t, c);
    }
    keys
}

/// Indices and house of the eligible triggers of house `key`.
fn group_members(elig: &Vec<EligibleTrigger>, key: &str, n: usize) -> (r: (Vec<usize>, Option<u32>))
    requires
        forall|i: int| 0 <= i < elig@.len() ==> #[trigger] elig@[i].trigger < n,
    ensures
        as_ints(r.0@) == group_triggers(group_of(eligible_views(elig@), key@)),
        r.1 == group_house(group_of(eligible_views(elig@), key@)),
        r.0@.len() <= elig@.len(),
        forall|j: int| 0 <= j < r.0@.len() ==> #[trigger] r.0@[j] < n,
{
    let ghost e = eligible_views(elig@);
    let mut members: Vec<usize> = Vec::new();
    let mut ho: Option<u32> = None;
    let mut i: usize = 0;
    while i < elig.len()
        invariant
            i <= elig@.len(),
            e == eligible_views(elig@),
            forall|q: int| 0 <= q < elig@.len() ==> #[trigger] elig@[q].trigger < n,
            as_ints(members@) == group_triggers(group_of(e.take(i as int), key@)),
            ho == group_house(group_of(e.take(i as int), key@)),
            members@.len() <= i,
            forall|j: int| 0 <= j < members@.len() ==> #[trigger] members@[j] < n,
        decreases elig@.len() - i,
    {
        let c = &elig[i];
        proof {
            assert(e.take(i + 1).drop_last() =~= e.take(i as int));
            assert(e.take(i + 1).last() == e[i as int]);
        }
        if compare_keys(c.key.as_str(), key) == KeyOrder::Same {
            let ghost g0 = group_of(e.take(i as int), key@);
            if members.len() == 0 {
                ho = c.house_override;
            }
            let ghost m0 = members@;
            members.push(c.trigger);
            proof {
                assert(group_of(e.take(i + 1), key@) == g0.push(e[i as int]));
                assert(as_ints(members@) =~= as_ints(m0).push(c.trigger as int));
                assert(group_triggers(g0.push(e[i as int])) =~= group_triggers(g0).push(e[i as int].trigger));
            }
        }
        i = i + 1;
    }
    assert(e.take(i as int) =~= e);
    (members, ho)
}

/// One tick of the map's AI triggers (see [`tick_outcome`]): teams of the
/// picked triggers join `pending`.
pub fn tick_ai_triggers(
    rt: &mut AiTriggerRuntime,
    defs: &[AiTriggerDef],
    world: &TickWorld,
    pending: &mut Vec<PendingTeamSpawn>,
    scripts: &ScriptTeamRuntime,
    seed: u64,
    tick: u64,
)
    requires
        world.conditions.super_weapons.wf(),
        defs@.len() * (world.seats@.len() + 1) <= u32::MAX,
    ensures
        ({
            let st = tick_outcome(
                old(rt)@,
                old(pending)@,
                defs@,
                world.teams@,
                world.houses@,
                world.seats@,
                world.local,
                world.begun@,
                facts_of(world.conditions),
                scripts.active@,
                seed,
                tick,
            );
            &&& final(rt)@ == (AiTriggerView { weights: st.weights, cooldowns: st.cooldowns, ..old(rt)@ })
            &&& final(pending)@ == st.pending
        }),
{
    if !rt.is_enabled() || defs.len() == 0 {
        return;
    }
    rt.tick_cooldowns();
    let ghost v1 = rt@;
    let elig = collect_eligible(rt, defs, world);
    let ghost f = facts_of(world.conditions);
    let ghost e = eligible_views(elig@);
    proof {
        lemma_collect_bound(v1.weights, defs@, v1, world.teams@, world.houses@, world.seats@, world.local, world.begun@, f);
        assert forall|i: int| 0 <= i < elig@.len() implies #[trigger] elig@[i].trigger < defs@.len() by {
            assert(e[i].trigger == elig@[i].trigger as int);
        }
    }
    let keys = sorted_group_keys(&elig);
    let ghost ks = texts(keys@);
    let ghost st0 = TickState { weights: rt@.weights, cooldowns: rt@.cooldowns, pending: pending@ };
    let mut g: usize = 0;
    while g < keys.len()
        invariant
            g <= keys@.len(),
            ks == texts(keys@),
            e == eligible_views(elig@),
            e.len() <= u32::MAX,
            forall|i: int| 0 <= i < elig@.len() ==> #[trigger] elig@[i].trigger < defs@.len(),
            ({
                let st = groups_fold(st0, ks.take(g as int), e, defs@, world.teams@, scripts.active@, seed, tick);
                &&& rt@ == (AiTriggerView { weights: st.weights, cooldowns: st.cooldowns, ..v1 })
                &&& pending@ == st.pending
            }),
        decreases keys@.len() - g,
    {
        let (members, ho) = group_members(&elig, keys[g].as_str(), defs.len());
        proof {
            assert(ks.take(g + 1).drop_last() =~= ks.take(g as int));
            assert(ks.take(g + 1).last() == keys@[g as int]@);
        }
        run_group(rt, pending, scripts, defs, world.teams, keys[g].as_str(), &members, ho, seed, tick);
        g = g + 1;
    }
    assert(ks.take(g as int) =~= ks);
}

} // verus!
