//! Map trigger events: when each kind of event condition holds, and which
//! triggers fire on a tick.

use vstd::prelude::*;

use crate::entities::{EntityKind, EntityRecord};
use crate::players::{funds_of, house_funds, player_of_from, PlayerState};
use crate::text::eq_ignore_ascii_case;
use crate::trigger_params::{event_house_param, event_number, event_numeric_param, house_param, name_opt};
use crate::triggers::TriggerState;

verus! {

/// Kinds of map event the rules evaluate.
#[derive(Clone, Copy, Debug, PartialEq, Eq, Structural)]
pub enum EventKind {
    AnyEvent,
    TimeElapse,
    DestroyedByAnybody,
    DestroyedByAnything,
    DestroyedUnitsAll,
    DestroyedBuildingsAll,
    DestroyedAll,
    EnteredBy,
    CreditsExceed,
    CreditsBelow,
    LowPower,
    /// An event code the engine does not know.
    Unknown(i32),
}

/// One condition of a trigger's event list.
#[derive(Clone, Debug)]
pub struct EventCondition {
    pub kind: EventKind,
    pub params: Vec<String>,
}

/// The event list of a trigger and the house that owns the trigger (when it
/// names one).
#[derive(Clone, Debug)]
pub struct TriggerEvents {
    pub trigger_id: u32,
    pub owner_house: Option<String>,
    pub conditions: Vec<EventCondition>,
}

/// A map tag and the trigger it is bound to.
#[derive(Clone, Copy, Debug)]
pub struct TagBinding {
    pub tag: u32,
    pub trigger_id: u32,
}

/// A cell carrying a map tag.
#[derive(Clone, Copy, Debug)]
pub struct CellTag {
    pub tag: u32,
    pub x: u16,
    pub y: u16,
}

/// What the event conditions read of the battle.
pub struct TriggerWorld<'a> {
    pub entities: &'a [EntityRecord],
    pub players: &'a [PlayerState],
    /// Whether each player (same order as `players`) is short of power.
    pub low_power: &'a [bool],
    pub tags: &'a [TagBinding],
    pub cell_tags: &'a [CellTag],
}

/// Which living entities of a house count for a "destroyed" event.
#[derive(Clone, Copy, Debug, PartialEq, Eq, Structural)]
pub enum HouseAliveFilter {
    All,
    Buildings,
    LandUnits,
}

/// Entity `e` is alive, owned by `house` and passes filter `f`.
pub open spec fn counts_alive(e: EntityRecord, house: Seq<char>, f: HouseAliveFilter) -> bool {
    &&& e.alive
    &&& e.owner matches Some(o) && o@ == house
    &&& e.identity matches Some(i) && match f {
        HouseAliveFilter::All => true,
        HouseAliveFilter::Buildings => i.kind == EntityKind::Structure,
        HouseAliveFilter::LandUnits => i.kind == EntityKind::Unit || i.kind == EntityKind::Infantry,
    }
}

/// `house` still has a living entity that passes `f`.
pub open spec fn house_has_living(es: Seq<EntityRecord>, house: Seq<char>, f: HouseAliveFilter) -> bool {
    exists|j: int| 0 <= j < es.len() && counts_alive(#[trigger] es[j], house, f)
}

/// Some tag is bound to trigger `trigger`.
pub open spec fn has_bound_tags(tags: Seq<TagBinding>, trigger: u32) -> bool {
    exists|k: int| 0 <= k < tags.len() && (#[trigger] tags[k]).trigger_id == trigger
}

/// Tag `t` is bound to trigger `trigger`.
pub open spec fn tag_bound(tags: Seq<TagBinding>, trigger: u32, t: u32) -> bool {
    exists|k: int| 0 <= k < tags.len() && (#[trigger] tags[k]).trigger_id == trigger && tags[k].tag == t
}

/// Entity `e` is alive and carries a tag bound to `trigger`.
pub open spec fn alive_tagged(e: EntityRecord, tags: Seq<TagBinding>, trigger: u32) -> bool {
    &&& e.alive
    &&& e.identity matches Some(i) && i.tag matches Some(t) && tag_bound(tags, trigger, t)
}

/// Some living entity carries a tag bound to `trigger`.
pub open spec fn any_alive_tagged(es: Seq<EntityRecord>, tags: Seq<TagBinding>, trigger: u32) -> bool {
    exists|j: int| 0 <= j < es.len() && alive_tagged(#[trigger] es[j], tags, trigger)
}

/// Cell `(x, y)` carries a tag bound to `trigger`.
pub open spec fn cell_bound(cells: Seq<CellTag>, tags: Seq<TagBinding>, trigger: u32, x: u16, y: u16) -> bool {
    exists|k: int| 0 <= k < cells.len() && (#[trigger] cells[k]).x == x && cells[k].y == y && tag_bound(tags, trigger, cells[k].tag)
}

/// A living entity of `house` stands on a cell whose tag is bound to
/// `trigger`.
pub open spec fn entered_by(
    es: Seq<EntityRecord>,
    cells: Seq<CellTag>,
    tags: Seq<TagBinding>,
    trigger: u32,
    house: Seq<char>,
) -> bool {
    exists|j: int|
        0 <= j < es.len() && {
            let e = #[trigger] es[j];
            &&& e.alive
            &&& e.owner matches Some(o) && o@ == house
            &&& e.cell matches Some(c) && cell_bound(cells, tags, trigger, c.0, c.1)
        }
}

/// House an event is about: the one its parameters name, else the local
/// player's.
pub open spec fn event_house(params: Seq<String>, local: Seq<char>) -> Seq<char> {
    match house_param(params, true) {
        Some(h) => h,
        None => local,
    }
}

/// Whether the house's first player is short of power (false without one).
pub open spec fn house_low_power(players: Seq<PlayerState>, low_power: Seq<bool>, house: Seq<char>) -> bool {
    match player_of_from(players, house, 0) {
        Some(i) => i < low_power.len() && low_power[i],
        None => false,
    }
}

/// When event condition `c` of trigger `trigger` (countdown `timer`, owning
/// house `owner`) holds, with `local` the local player's house.
pub open spec fn condition_holds(
    es: Seq<EntityRecord>,
    players: Seq<PlayerState>,
    low_power: Seq<bool>,
    tags: Seq<TagBinding>,
    cells: Seq<CellTag>,
    trigger: u32,
    timer: Option<u32>,
    owner: Option<Seq<char>>,
    c: EventCondition,
    local: Seq<char>,
) -> bool {
    let owner_or_local = match owner {
        Some(h) => h,
        None => local,
    };
    match c.kind {
        EventKind::AnyEvent => true,
        EventKind::TimeElapse => timer == Some(0u32),
        EventKind::DestroyedByAnybody | EventKind::DestroyedByAnything => has_bound_tags(tags, trigger) && !any_alive_tagged(
            es,
            tags,
            trigger,
        ),
        EventKind::DestroyedUnitsAll => !house_has_living(es, event_house(c.params@, local), HouseAliveFilter::LandUnits),
        EventKind::DestroyedBuildingsAll => !house_has_living(es, event_house(c.params@, local), HouseAliveFilter::Buildings),
        EventKind::DestroyedAll => !house_has_living(es, event_house(c.params@, local), HouseAliveFilter::All),
        EventKind::EnteredBy => has_bound_tags(tags, trigger) && entered_by(es, cells, tags, trigger, local),
        EventKind::CreditsExceed => match event_number(c.params@) {
            Some(n) => funds_of(players, owner_or_local) >= n as i32,
            None => false,
        },
        EventKind::CreditsBelow => match event_number(c.params@) {
            Some(n) => funds_of(players, owner_or_local) < n as i32,
            None => false,
        },
        EventKind::LowPower => house_low_power(players, low_power, event_house(c.params@, local)),
        EventKind::Unknown(_) => false,
    }
}

fn house_has_living_exec(es: &[EntityRecord], house: &str, f: HouseAliveFilter) -> (r: bool)
    ensures
        r == house_has_living(es@, house@, f),
{
    let mut j: usize = 0;
    while j < es.len()
        invariant
            j <= es@.len(),
            forall|k: int| 0 <= k < j ==> !counts_alive(#[trigger] es@[k], house@, f),
        decreases es@.len() - j,
    {
        let e = &es[j];
        let owned = match &e.owner {
            Some(o) => crate::text::same_text(o.as_str(), house),
            None => false,
        };
        let kind_ok = match &e.identity {
            Some(i) => match f {
                HouseAliveFilter::All => true,
                HouseAliveFilter::Buildings => i.kind == EntityKind::Structure,
                HouseAliveFilter::LandUnits => i.kind == EntityKind::Unit || i.kind == EntityKind::Infantry,
            },
            None => false,
        };
        if e.alive && owned && kind_ok {
            assert(counts_alive(es@[j as int], house@, f));
            return true;
        }
        j = j + 1;
    }
    false
}

fn has_bound_tags_exec(tags: &[TagBinding], trigger: u32) -> (r: bool)
    ensures
        r == has_bound_tags(tags@, trigger),
{
    let mut k: usize = 0;
    while k < tags.len()
        invariant
            k <= tags@.len(),
            forall|m: int| 0 <= m < k ==> (#[trigger] tags@[m]).trigger_id != trigger,
        decreases tags@.len() - k,
    {
        if tags[k].trigger_id == trigger {
            return true;
        }
        k = k + 1;
    }
    false
}

fn tag_bound_exec(tags: &[TagBinding], trigger: u32, t: u32) -> (r: bool)
    ensures
        r == tag_bound(tags@, trigger, t),
{
    let mut k: usize = 0;
    while k < tags.len()
        invariant
            k <= tags@.len(),
            forall|m: int| 0 <= m < k ==> !((#[trigger] tags@[m]).trigger_id == trigger && tags@[m].tag == t),
        decreases tags@.len() - k,
    {
        if tags[k].trigger_id == trigger && tags[k].tag == t {
            return true;
        }
        k = k + 1;
    }
    false
}

fn any_alive_tagged_exec(es: &[EntityRecord], tags: &[TagBinding], trigger: u32) -> (r: bool)
    ensures
        r == any_alive_tagged(es@, tags@, trigger),
{
    let mut j: usize = 0;
    while j < es.len()
        invariant
            j <= es@.len(),
            forall|k: int| 0 <= k < j ==> !alive_tagged(#[trigger] es@[k], tags@, trigger),
        decreases es@.len() - j,
    {
        let e = &es[j];
        if e.alive {
            match &e.identity {
                Some(i) => match i.tag {
                    Some(t) => {
                        if tag_bound_exec(tags, trigger, t) {
                            assert(alive_tagged(es@[j as int], tags@, trigger));
                            return true;
                        }
                    },
                    None => {},
                },
                None => {},
            }
        }
        j = j + 1;
    }
    false
}

fn cell_bound_exec(cells: &[CellTag], tags: &[TagBinding], trigger: u32, x: u16, y: u16) -> (r: bool)
    ensures
        r == cell_bound(cells@, tags@, trigger, x, y),
{
    let mut k: usize = 0;
    while k < cells.len()
        invariant
            k <= cells@.len(),
            forall|m: int|
                0 <= m < k ==> !((#[trigger] cells@[m]).x == x && cells@[m].y == y && tag_bound(tags@, trigger, cells@[m].tag)),
        decreases cells@.len() - k,
    {
        if cells[k].x == x && cells[k].y == y && tag_bound_exec(tags, trigger, cells[k].tag) {
            return true;
        }
        k = k + 1;
    }
    false
}

fn entered_by_exec(es: &[EntityRecord], cells: &[CellTag], tags: &[TagBinding], trigger: u32, house: &str) -> (r: bool)
    ensures
        r == entered_by(es@, cells@, tags@, trigger, house@),
{
    let mut j: usize = 0;
    while j < es.len()
        invariant
            j <= es@.len(),
            forall|k: int|
                0 <= k < j ==> !({
                    let e = #[trigger] es@[k];
                    &&& e.alive
                    &&& e.owner matches Some(o) && o@ == house@
                    &&& e.cell matches Some(c) && cell_bound(cells@, tags@, trigger, c.0, c.1)
                }),
        decreases es@.len() - j,
    {
        let e = &es[j];
        let owned = match &e.owner {
            Some(o) => crate::text::same_text(o.as_str(), house),
            None => false,
        };
        if e.alive && owned {
            match e.cell {
                Some((x, y)) => {
                    if cell_bound_exec(cells, tags, trigger, x, y) {
                        return true;
                    }
                },
                None => {},
            }
        }
        j = j + 1;
    }
    false
}

/// Whether event condition `c` of trigger `trigger` holds this tick: its
/// countdown is `timer`, its owning house `owner`, and `local` is the local
/// player's house.
pub fn condition_met(
    w: &TriggerWorld,
    trigger: u32,
    timer: Option<u32>,
    owner: Option<&str>,
    c: &EventCondition,
    local: &str,
) -> (r: bool)
    ensures
        r == condition_holds(
            w.entities@,
            w.players@,
            w.low_power@,
            w.tags@,
            w.cell_tags@,
            trigger,
            timer,
            match owner {
                Some(h) => Some(h@),
                None => None,
            },
            *c,
            local@,
        ),
{
    match c.kind {
        EventKind::AnyEvent => true,
        EventKind::TimeElapse => match timer {
            Some(t) => t == 0,
            None => false,
        },
        EventKind::DestroyedByAnybody | EventKind::DestroyedByAnything => {
            has_bound_tags_exec(w.tags, trigger) && !any_alive_tagged_exec(w.entities, w.tags, trigger)
        },
        EventKind::DestroyedUnitsAll | EventKind::DestroyedBuildingsAll | EventKind::DestroyedAll => {
            let named = event_house_param(c.params.as_slice());
            let filter = match c.kind {
                EventKind::DestroyedUnitsAll => HouseAliveFilter::LandUnits,
                EventKind::DestroyedBuildingsAll => HouseAliveFilter::Buildings,
                _ => HouseAliveFilter::All,
            };
            match named {
                Some(h) => !house_has_living_exec(w.entities, h.as_str(), filter),
                None => !house_has_living_exec(w.entities, local, filter),
            }
        },
        EventKind::EnteredBy => {
            has_bound_tags_exec(w.tags, trigger) && entered_by_exec(w.entities, w.cell_tags, w.tags, trigger, local)
        },
        EventKind::CreditsExceed | EventKind::CreditsBelow => {
            let threshold = match event_numeric_param(c.params.as_slice()) {
                Some(n) => n,
                None => {
                    return false;
                },
            };
            let funds = match owner {
                Some(h) => house_funds(w.players, h),
                None => house_funds(w.players, local),
            };
            let limit = #[verifier::truncate] (threshold as i32);
            match c.kind {
                EventKind::CreditsExceed => funds >= limit,
                _ => funds < limit,
            }
        },
        EventKind::LowPower => {
            let named = event_house_param(c.params.as_slice());
            let found = match named {
                Some(h) => find_player_index(w.players, h.as_str()),
                None => find_player_index(w.players, local),
            };
            match found {
                Some(i) => i < w.low_power.len() && w.low_power[i],
                None => false,
            }
        },
        EventKind::Unknown(_) => false,
    }
}

/// Index of the first player of `house` (ASCII case ignored).
fn find_player_index(players: &[PlayerState], house: &str) -> (r: Option<usize>)
    ensures
        match r {
            Some(i) => player_of_from(players@, house@, 0) == Some(i as int) && i < players@.len(),
            None => player_of_from(players@, house@, 0) is None,
        },
{
    let n = players.len();
    let mut i: usize = 0;
    while i < n
        invariant
            n == players@.len(),
            i <= n,
            player_of_from(players@, house@, 0) == player_of_from(players@, house@, i as int),
        decreases n - i,
    {
        if eq_ignore_ascii_case(players[i].house.as_str(), house) {
            return Some(i);
        }
        i += 1;
    }
    None
}


/// A trigger's event list holds: it is not empty and every condition holds.
pub open spec fn all_conditions_hold(
    es: Seq<EntityRecord>,
    players: Seq<PlayerState>,
    low_power: Seq<bool>,
    tags: Seq<TagBinding>,
    cells: Seq<CellTag>,
    trigger: u32,
    timer: Option<u32>,
    owner: Option<Seq<char>>,
    conds: Seq<EventCondition>,
    local: Seq<char>,
) -> bool {
    &&& conds.len() > 0
    &&& forall|k: int|
        0 <= k < conds.len() ==> #[trigger] condition_holds(
            es,
            players,
            low_power,
            tags,
            cells,
            trigger,
            timer,
            owner,
            conds[k],
            local,
        )
}

/// Whether the event list `conds` of trigger `trigger` holds (an empty list
/// never does).
pub fn event_conditions_met(
    w: &TriggerWorld,
    trigger: u32,
    timer: Option<u32>,
    owner: Option<&str>,
    conds: &[EventCondition],
    local: &str,
) -> (r: bool)
    ensures
        r == all_conditions_hold(
            w.entities@,
            w.players@,
            w.low_power@,
            w.tags@,
            w.cell_tags@,
            trigger,
            timer,
            match owner {
                Some(h) => Some(h@),
                None => None,
            },
            conds@,
            local@,
        ),
{
    if conds.len() == 0 {
        return false;
    }
    let ghost o = match owner {
        Some(h) => Some(h@),
        None => None,
    };
    let mut k: usize = 0;
    while k < conds.len()
        invariant
            k <= conds@.len(),
            o == match owner {
                Some(h) => Some(h@),
                None => None::<Seq<char>>,
            },
            forall|m: int|
                0 <= m < k ==> #[trigger] condition_holds(
                    w.entities@,
                    w.players@,
                    w.low_power@,
                    w.tags@,
                    w.cell_tags@,
                    trigger,
                    timer,
                    o,
                    conds@[m],
                    local@,
                ),
        decreases conds@.len() - k,
    {
        if !condition_met(w, trigger, timer, owner, &conds[k], local) {
            return false;
        }
        k = k + 1;
    }
    true
}

/// The event list of trigger `trigger`: the last entry for it.
pub open spec fn events_for(events: Seq<TriggerEvents>, trigger: u32) -> Option<TriggerEvents>
    decreases events.len(),
{
    if events.len() == 0 {
        None
    } else if events.last().trigger_id == trigger {
        Some(events.last())
    } else {
        events_for(events.drop_last(), trigger)
    }
}

/// Trigger `st` fires: it is neither disabled nor fired, and it has an event
/// list that holds.
pub open spec fn fires(
    es: Seq<EntityRecord>,
    players: Seq<PlayerState>,
    low_power: Seq<bool>,
    tags: Seq<TagBinding>,
    cells: Seq<CellTag>,
    st: TriggerState,
    events: Seq<TriggerEvents>,
    local: Seq<char>,
) -> bool {
    &&& !st.disabled
    &&& !st.fired
    &&& events_for(events, st.id) matches Some(te) && all_conditions_hold(
        es,
        players,
        low_power,
        tags,
        cells,
        st.id,
        st.timer_remaining,
        name_opt(te.owner_house),
        te.conditions@,
        local,
    )
}

/// Ids of the triggers of `states` that fire, in order.
pub open spec fn firing_ids(
    es: Seq<EntityRecord>,
    players: Seq<PlayerState>,
    low_power: Seq<bool>,
    tags: Seq<TagBinding>,
    cells: Seq<CellTag>,
    states: Seq<TriggerState>,
    events: Seq<TriggerEvents>,
    local: Seq<char>,
) -> Seq<u32>
    decreases states.len(),
{
    if states.len() == 0 {
        Seq::empty()
    } else {
        let rest = firing_ids(es, players, low_power, tags, cells, states.drop_last(), events, local);
        if fires(es, players, low_power, tags, cells, states.last(), events, local) {
            rest.push(states.last().id)
        } else {
            rest
        }
    }
}

fn find_events(events: &[TriggerEvents], trigger: u32) -> (r: Option<usize>)
    ensures
        match r {
            Some(i) => i < events@.len() && events_for(events@, trigger) == Some(events@[i as int]),
            None => events_for(events@, trigger) is None,
        },
{
    let mut i: usize = events.len();
    assert(events@.take(i as int) =~= events@);
    while i > 0
        invariant
            i <= events@.len(),
            events_for(events@, trigger) == events_for(events@.take(i as int), trigger),
        decreases i,
    {
        proof {
            assert(events@.take(i as int).drop_last() =~= events@.take(i - 1));
            assert(events@.take(i as int).last() == events@[i - 1]);
        }
        if events[i - 1].trigger_id == trigger {
            return Some(i - 1);
        }
        i = i - 1;
    }
    assert(events@.take(0) =~= Seq::<TriggerEvents>::empty());
    None
}

/// Ids of the triggers that fire this tick (timers already counted down):
/// each one that is neither disabled nor fired and whose event list holds.
pub fn triggers_to_fire(w: &TriggerWorld, states: &[TriggerState], events: &[TriggerEvents], local: &str) -> (ids: Vec<u32>)
    ensures
        ids@ == firing_ids(w.entities@, w.players@, w.low_power@, w.tags@, w.cell_tags@, states@, events@, local@),
{
    let mut ids: Vec<u32> = Vec::new();
    let mut k: usize = 0;
    while k < states.len()
        invariant
            k <= states@.len(),
            ids@ == firing_ids(
                w.entities@,
                w.players@,
                w.low_power@,
                w.tags@,
                w.cell_tags@,
                states@.take(k as int),
                events@,
                local@,
            ),
        decreases states@.len() - k,
    {
        let st = states[k];
        proof {
            assert(states@.take(k + 1).drop_last() =~= states@.take(k as int));
            assert(states@.take(k + 1).last() == st);
        }
        if !st.disabled && !st.fired {
            match find_events(events, st.id) {
                Some(i) => {
                    let te = &events[i];
                    let owner: Option<&str> = match &te.owner_house {
                        Some(h) => Some(h.as_str()),
                        None => None,
                    };
                    proof {
                        assert(match owner {
                            Some(h) => Some(h@),
                            None => None,
                        } == name_opt(te.owner_house));
                    }
                    if event_conditions_met(w, st.id, st.timer_remaining, owner, te.conditions.as_slice(), local) {
                        ids.push(st.id);
                    }
                },
                None => {},
            }
        }
        k = k + 1;
    }
    assert(states@.take(k as int) =~= states@);
    ids
}


/// Some trigger of `states` with id `id` is neither disabled nor fired and
/// fires.
pub open spec fn live_trigger_with_id(
    es: Seq<EntityRecord>,
    players: Seq<PlayerState>,
    low_power: Seq<bool>,
    tags: Seq<TagBinding>,
    cells: Seq<CellTag>,
    states: Seq<TriggerState>,
    events: Seq<TriggerEvents>,
    local: Seq<char>,
    id: u32,
) -> bool {
    exists|k: int|
        0 <= k < states.len() && (#[trigger] states[k]).id == id && !states[k].fired && !states[k].disabled && fires(
            es,
            players,
            low_power,
            tags,
            cells,
            states[k],
            events,
            local,
        )
}

/// Only live triggers fire: every id that fires belongs to a trigger that
/// is neither disabled nor already fired and whose event list holds; a
/// fired trigger never fires again.
pub proof fn law_only_live_triggers_fire(
    es: Seq<EntityRecord>,
    players: Seq<PlayerState>,
    low_power: Seq<bool>,
    tags: Seq<TagBinding>,
    cells: Seq<CellTag>,
    states: Seq<TriggerState>,
    events: Seq<TriggerEvents>,
    local: Seq<char>,
)
    ensures
        forall|n: int|
            0 <= n < firing_ids(es, players, low_power, tags, cells, states, events, local).len() ==> live_trigger_with_id(
                es,
                players,
                low_power,
                tags,
                cells,
                states,
                events,
                local,
                #[trigger] firing_ids(es, players, low_power, tags, cells, states, events, local)[n],
            ),
        forall|k: int|
            0 <= k < states.len() && (#[trigger] states[k]).fired ==> !fires(es, players, low_power, tags, cells, states[k], events, local),
    decreases states.len(),
{
    if states.len() > 0 {
        let rest = states.drop_last();
        law_only_live_triggers_fire(es, players, low_power, tags, cells, rest, events, local);
        let ids = firing_ids(es, players, low_power, tags, cells, states, events, local);
        let rids = firing_ids(es, players, low_power, tags, cells, rest, events, local);
        assert forall|n: int| 0 <= n < ids.len() implies live_trigger_with_id(
            es,
            players,
            low_power,
            tags,
            cells,
            states,
            events,
            local,
            #[trigger] ids[n],
        ) by {
            if n < rids.len() {
                assert(live_trigger_with_id(es, players, low_power, tags, cells, rest, events, local, rids[n]));
                let k = choose|k: int|
                    0 <= k < rest.len() && (#[trigger] rest[k]).id == rids[n] && !rest[k].fired && !rest[k].disabled && fires(
                        es,
                        players,
                        low_power,
                        tags,
                        cells,
                        rest[k],
                        events,
                        local,
                    );
                assert(states[k] == rest[k]);
            } else {
                assert(states[states.len() - 1] == states.last());
            }
        }
    }
}

} // verus!
