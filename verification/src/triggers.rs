//! Map trigger run time: each trigger's switches and timer, the actions
//! that change them, victory held back by `Allow Win` blockers, scripted
//! input lock and the record of actions the engine does not support.

use vstd::prelude::*;

use crate::outcome::{BattleOutcome, OutcomeView};
use crate::script_teams::PendingTeamSpawn;
use crate::trigger_params::{parse_u32_text, parsed_u32};

verus! {

/// Funds a unit collects from a scripted crate.
pub const SCRIPT_CRATE_CREDITS: i32 = 2_000;

/// Run-time state of one trigger.
#[derive(Clone, Copy, Debug, PartialEq, Eq, Structural)]
pub struct TriggerState {
    pub id: u32,
    pub disabled: bool,
    pub fired: bool,
    /// Countdown of its `TimeElapse` event (`None`: it has none).
    pub timer_remaining: Option<u32>,
    /// Countdown stopped by `Timer Stop`.
    pub timer_paused: bool,
}

/// A crate spawned by a script action.
#[derive(Clone, Debug, PartialEq, Eq)]
pub struct ScriptCrate {
    pub x: u16,
    pub y: u16,
    /// The action's crate type parameter.
    pub crate_type: String,
}

/// A trigger as the map declares it.
#[derive(Clone, Debug)]
pub struct TriggerSeed {
    pub id: u32,
    /// Declared disabled.
    pub disabled: bool,
    /// Parameters of its first `TimeElapse` condition, if it has one.
    pub time_elapse: Option<Vec<String>>,
}

/// An action that acts on the trigger run time itself.
#[derive(Clone, Debug)]
pub enum TriggerAction {
    /// Victory of `house` (already resolved, trimmed and upper-cased).
    Win { house: String },
    /// Defeat with a reason.
    Lose { reason: String },
    /// One `Allow Win` blocker cleared.
    AllowWin,
    LockInput,
    UnlockInput,
    /// Disable a trigger for good (its id, when the action names one).
    DestroyTrigger { target: Option<u32> },
    /// Targets below default to the acting trigger.
    TimerStart { target: Option<u32> },
    TimerStop { target: Option<u32> },
    TimerExtend { target: Option<u32>, ticks: Option<u32> },
    TimerShorten { target: Option<u32>, ticks: Option<u32> },
    TimerSet { target: Option<u32>, ticks: Option<u32> },
    EnableTrigger { target: Option<u32> },
    DisableTrigger { target: Option<u32> },
}

/// Trigger run time of a match.
#[derive(Debug)]
pub struct TriggerRuntime {
    pub states: Vec<TriggerState>,
    /// Action codes met that the engine does not support, each once.
    pub unsupported_actions: Vec<i32>,
    /// Teams to create.
    pub pending_team_spawns: Vec<PendingTeamSpawn>,
    /// Result requested this tick (taken by the session).
    pub pending_outcome: Option<BattleOutcome>,
    /// `Allow Win` actions still to run before a victory counts.
    pub win_blockers: u32,
    /// Victory held back while blockers remain.
    pub deferred_victory_house: Option<String>,
    /// Scripted input lock.
    pub script_input_locked: bool,
    /// Crates spawned by scripts.
    pub script_crates: Vec<ScriptCrate>,
}

/// Mathematical value of a [`TriggerRuntime`] (without its team queue and
/// crates).
pub struct TriggerView {
    pub states: Seq<TriggerState>,
    pub unsupported: Seq<i32>,
    pub pending_outcome: Option<OutcomeView>,
    pub win_blockers: u32,
    pub deferred: Option<Seq<char>>,
    pub input_locked: bool,
}

/// View of an optional house.
pub open spec fn house_opt(h: Option<String>) -> Option<Seq<char>> {
    match h {
        Some(h) => Some(h@),
        None => None,
    }
}

impl View for TriggerRuntime {
    type V = TriggerView;

    open spec fn view(&self) -> TriggerView {
        TriggerView {
            states: self.states@,
            unsupported: self.unsupported_actions@,
            pending_outcome: crate::outcome::outcome_opt(self.pending_outcome),
            win_blockers: self.win_blockers,
            deferred: house_opt(self.deferred_victory_house),
            input_locked: self.script_input_locked,
        }
    }
}

/// Countdown a trigger starts with: the first `TimeElapse` parameter as a
/// number (0 when missing or not a number); none without such an event.
pub open spec fn seed_timer(time_elapse: Option<Seq<String>>) -> Option<u32> {
    match time_elapse {
        None => None,
        Some(params) => Some(
            if params.len() > 0 && parsed_u32(params[0]@) is Some {
                parsed_u32(params[0]@)->Some_0
            } else {
                0
            },
        ),
    }
}

/// View of a seed's event parameters.
pub open spec fn seed_params(s: TriggerSeed) -> Option<Seq<String>> {
    match s.time_elapse {
        Some(p) => Some(p@),
        None => None,
    }
}

/// First state with trigger id `id`.
pub open spec fn state_index(states: Seq<TriggerState>, id: u32) -> Option<int>
    decreases states.len(),
{
    if states.len() == 0 {
        None
    } else if states[0].id == id {
        Some(0)
    } else {
        match state_index(states.drop_first(), id) {
            Some(i) => Some(i + 1),
            None => None,
        }
    }
}

/// `states` with the first state of trigger `id` changed by `f`.
pub open spec fn with_state(states: Seq<TriggerState>, id: u32, f: spec_fn(TriggerState) -> TriggerState) -> Seq<
    TriggerState,
> {
    match state_index(states, id) {
        Some(i) => states.update(i, f(states[i])),
        None => states,
    }
}

/// `code` recorded as unsupported (once).
pub open spec fn recorded(v: TriggerView, code: i32) -> TriggerView {
    if v.unsupported.contains(code) {
        v
    } else {
        TriggerView { unsupported: v.unsupported.push(code), ..v }
    }
}

/// `x - y`, not below zero.
pub open spec fn sat_sub(x: u32, y: u32) -> u32 {
    if x >= y {
        (x - y) as u32
    } else {
        0
    }
}

/// `x + y`, not above `u32::MAX`.
pub open spec fn sat_add(x: u32, y: u32) -> u32 {
    if x + y <= u32::MAX {
        (x + y) as u32
    } else {
        u32::MAX
    }
}

/// Victory view of a house.
pub open spec fn victory(h: Seq<char>) -> OutcomeView {
    OutcomeView::Victory(h)
}

/// What an action does to the run time of trigger `trigger_id` (`code`: the
/// action's code, recorded when a needed parameter is missing).
pub open spec fn action_step(v: TriggerView, trigger_id: u32, code: i32, action: TriggerAction) -> TriggerView {
    match action {
        TriggerAction::Win { house } => if v.win_blockers > 0 {
            TriggerView { deferred: Some(house@), ..v }
        } else {
            TriggerView { pending_outcome: Some(victory(house@)), ..v }
        },
        TriggerAction::Lose { reason } => TriggerView { pending_outcome: Some(OutcomeView::Defeat(reason@)), ..v },
        TriggerAction::AllowWin => {
            let b = sat_sub(v.win_blockers, 1);
            if b == 0 && v.deferred is Some {
                TriggerView {
                    win_blockers: b,
                    deferred: None,
                    pending_outcome: Some(victory(v.deferred->Some_0)),
                    ..v
                }
            } else {
                TriggerView { win_blockers: b, ..v }
            }
        },
        TriggerAction::LockInput => TriggerView { input_locked: true, ..v },
        TriggerAction::UnlockInput => TriggerView { input_locked: false, ..v },
        TriggerAction::DestroyTrigger { target } => match target {
            None => recorded(v, code),
            Some(t) => TriggerView {
                states: with_state(v.states, t, |s: TriggerState| TriggerState { disabled: true, fired: true, ..s }),
                ..v
            },
        },
        TriggerAction::TimerStart { target } => TriggerView {
            states: with_state(
                v.states,
                target.unwrap_or(trigger_id),
                |s: TriggerState| TriggerState { timer_paused: false, ..s },
            ),
            ..v
        },
        TriggerAction::TimerStop { target } => TriggerView {
            states: with_state(
                v.states,
                target.unwrap_or(trigger_id),
                |s: TriggerState| TriggerState { timer_paused: true, ..s },
            ),
            ..v
        },
        TriggerAction::TimerExtend { target, ticks } => match ticks {
            None => recorded(v, code),
            Some(n) => TriggerView {
                states: with_state(
                    v.states,
                    target.unwrap_or(trigger_id),
                    |s: TriggerState|
                        TriggerState {
                            timer_remaining: Some(sat_add(s.timer_remaining.unwrap_or(0), n)),
                            fired: false,
                            disabled: false,
                            ..s
                        },
                ),
                ..v
            },
        },
        TriggerAction::TimerShorten { target, ticks } => match ticks {
            None => recorded(v, code),
            Some(n) => TriggerView {
                states: with_state(
                    v.states,
                    target.unwrap_or(trigger_id),
                    |s: TriggerState|
                        TriggerState {
                            timer_remaining: Some(sat_sub(s.timer_remaining.unwrap_or(0), n)),
                            fired: false,
                            disabled: false,
                            ..s
                        },
                ),
                ..v
            },
        },
        TriggerAction::TimerSet { target, ticks } => match ticks {
            None => recorded(v, code),
            Some(n) => TriggerView {
                states: with_state(
                    v.states,
                    target.unwrap_or(trigger_id),
                    |s: TriggerState|
                        TriggerState { timer_remaining: Some(n), timer_paused: false, fired: false, disabled: false, ..s },
                ),
                ..v
            },
        },
        TriggerAction::EnableTrigger { target } => TriggerView {
            states: with_state(
                v.states,
                target.unwrap_or(trigger_id),
                |s: TriggerState| TriggerState { disabled: false, ..s },
            ),
            ..v
        },
        TriggerAction::DisableTrigger { target } => TriggerView {
            states: with_state(
                v.states,
                target.unwrap_or(trigger_id),
                |s: TriggerState| TriggerState { disabled: true, ..s },
            ),
            ..v
        },
    }
}

/// One tick of a trigger's countdown: running (enabled, not fired, not
/// paused) and above zero, it drops by one.
pub open spec fn timer_ticked(s: TriggerState) -> TriggerState {
    match s.timer_remaining {
        Some(r) => if !s.disabled && !s.fired && !s.timer_paused && r > 0 {
            TriggerState { timer_remaining: Some((r - 1) as u32), ..s }
        } else {
            s
        },
        None => s,
    }
}

/// Position of the first state with trigger id `id`.
fn find_state(states: &Vec<TriggerState>, id: u32) -> (r: Option<usize>)
    ensures
        match r {
            Some(i) => state_index(states@, id) == Some(i as int) && i < states@.len(),
            None => state_index(states@, id) is None,
        },
{
    let mut i: usize = 0;
    assert(states@.skip(0) =~= states@);
    while i < states.len()
        invariant
            i <= states@.len(),
            state_index(states@, id) == match state_index(states@.skip(i as int), id) {
                Some(k) => Some(k + i),
                None => None::<int>,
            },
        decreases states@.len() - i,
    {
        proof {
            assert(states@.skip(i as int)[0] == states@[i as int]);
            assert(states@.skip(i as int).drop_first() =~= states@.skip(i + 1));
        }
        if states[i].id == id {
            return Some(i);
        }
        i = i + 1;
    }
    assert(states@.skip(i as int) =~= Seq::<TriggerState>::empty());
    None
}

impl TriggerRuntime {
    /// Seeds the run time from the map's triggers; `allow_win_triggers` is
    /// the number of triggers with an `Allow Win` action (each one blocks
    /// victory until it runs).
    pub fn from_prepared(seeds: &[TriggerSeed], allow_win_triggers: u32) -> (rt: Self)
        ensures
            rt@.states.len() == seeds@.len(),
            forall|i: int|
                0 <= i < seeds@.len() ==> #[trigger] rt@.states[i] == (TriggerState {
                    id: seeds@[i].id,
                    disabled: seeds@[i].disabled,
                    fired: false,
                    timer_remaining: seed_timer(seed_params(seeds@[i])),
                    timer_paused: false,
                }),
            rt@.unsupported.len() == 0,
            rt@.pending_outcome is None,
            rt@.win_blockers == allow_win_triggers,
            rt@.deferred is None,
            !rt@.input_locked,
            rt.pending_team_spawns@.len() == 0,
            rt.script_crates@.len() == 0,
    {
        let mut states: Vec<TriggerState> = Vec::new();
        let mut i: usize = 0;
        while i < seeds.len()
            invariant
                i <= seeds@.len(),
                states@.len() == i,
                forall|j: int|
                    0 <= j < i ==> #[trigger] states@[j] == (TriggerState {
                        id: seeds@[j].id,
                        disabled: seeds@[j].disabled,
                        fired: false,
                        timer_remaining: seed_timer(seed_params(seeds@[j])),
                        timer_paused: false,
                    }),
            decreases seeds@.len() - i,
        {
            let seed = &seeds[i];
            let timer = match &seed.time_elapse {
                None => None,
                Some(params) => {
                    let n = if params.len() > 0 {
                        match parse_u32_text(params[0].as_str()) {
                            Some(n) => n,
                            None => 0,
                        }
                    } else {
                        0
                    };
                    Some(n)
                },
            };
            states.push(
                TriggerState { id: seed.id, disabled: seed.disabled, fired: false, timer_remaining: timer, timer_paused: false },
            );
            i = i + 1;
        }
        TriggerRuntime {
            states,
            unsupported_actions: Vec::new(),
            pending_team_spawns: Vec::new(),
            pending_outcome: None,
            win_blockers: allow_win_triggers,
            deferred_victory_house: None,
            script_input_locked: false,
            script_crates: Vec::new(),
        }
    }

    /// Records an unsupported action code (once).
    pub fn record_unsupported(&mut self, code: i32)
        ensures
            final(self)@ == recorded(old(self)@, code),
            final(self).pending_team_spawns@ == old(self).pending_team_spawns@,
            final(self).script_crates@ == old(self).script_crates@,
    {
        let mut i: usize = 0;
        while i < self.unsupported_actions.len()
            invariant
                i <= self.unsupported_actions@.len(),
                forall|j: int| 0 <= j < i ==> self.unsupported_actions@[j] != code,
            decreases self.unsupported_actions@.len() - i,
        {
            if self.unsupported_actions[i] == code {
                assert(self.unsupported_actions@.contains(code));
                return;
            }
            i = i + 1;
        }
        self.unsupported_actions.push(code);
    }

    /// One tick of every running countdown.
    pub fn tick_timers(&mut self)
        ensures
            final(self)@ == (TriggerView { states: old(self)@.states.map_values(|s: TriggerState| timer_ticked(s)), ..old(self)@ }),
            final(self).pending_team_spawns@ == old(self).pending_team_spawns@,
            final(self).script_crates@ == old(self).script_crates@,
    {
        let ghost s0 = self.states@;
        let mut i: usize = 0;
        while i < self.states.len()
            invariant
                i <= s0.len(),
                self.states@.len() == s0.len(),
                forall|j: int| 0 <= j < i ==> #[trigger] self.states@[j] == timer_ticked(s0[j]),
                forall|j: int| i <= j < s0.len() ==> #[trigger] self.states@[j] == s0[j],
                self.unsupported_actions@ == old(self).unsupported_actions@,
                self.pending_outcome == old(self).pending_outcome,
                self.win_blockers == old(self).win_blockers,
                self.deferred_victory_house == old(self).deferred_victory_house,
                self.script_input_locked == old(self).script_input_locked,
                self.pending_team_spawns@ == old(self).pending_team_spawns@,
                self.script_crates@ == old(self).script_crates@,
            decreases s0.len() - i,
        {
            let mut st = self.states[i];
            if !st.disabled && !st.fired && !st.timer_paused {
                if let Some(r) = st.timer_remaining {
                    if r > 0 {
                        st.timer_remaining = Some(r - 1);
                    }
                }
            }
            self.states.set(i, st);
            i = i + 1;
        }
        assert(self.states@ =~= s0.map_values(|s: TriggerState| timer_ticked(s)));
    }

    /// Start of a trigger tick: nothing to do once a result is pending or
    /// without triggers (returns false); otherwise the countdowns tick and
    /// the conditions are to be checked (returns true).
    pub fn begin_tick(&mut self) -> (go: bool)
        ensures
            go == (old(self)@.pending_outcome is None && old(self)@.states.len() > 0),
            go ==> final(self)@ == (TriggerView {
                states: old(self)@.states.map_values(|s: TriggerState| timer_ticked(s)),
                ..old(self)@
            }),
            !go ==> final(self)@ == old(self)@,
            final(self).pending_team_spawns@ == old(self).pending_team_spawns@,
            final(self).script_crates@ == old(self).script_crates@,
    {
        if self.pending_outcome.is_some() || self.states.len() == 0 {
            return false;
        }
        self.tick_timers();
        true
    }

    /// Marks trigger `id` as fired.
    pub fn mark_fired(&mut self, id: u32)
        ensures
            final(self)@ == (TriggerView {
                states: with_state(old(self)@.states, id, |s: TriggerState| TriggerState { fired: true, ..s }),
                ..old(self)@
            }),
            final(self).pending_team_spawns@ == old(self).pending_team_spawns@,
            final(self).script_crates@ == old(self).script_crates@,
    {
        if let Some(i) = find_state(&self.states, id) {
            let mut st = self.states[i];
            st.fired = true;
            self.states.set(i, st);
        }
    }

    /// Forcing trigger `id`: unless it is unknown or already fired, it is
    /// enabled and marked fired, and its actions are to run (returns true).
    pub fn force_fire(&mut self, id: u32) -> (run: bool)
        ensures
            run == (state_index(old(self)@.states, id) matches Some(i) && !old(self)@.states[i].fired),
            run ==> final(self)@ == (TriggerView {
                states: with_state(
                    old(self)@.states,
                    id,
                    |s: TriggerState| TriggerState { disabled: false, fired: true, ..s },
                ),
                ..old(self)@
            }),
            !run ==> final(self)@ == old(self)@,
            final(self).pending_team_spawns@ == old(self).pending_team_spawns@,
            final(self).script_crates@ == old(self).script_crates@,
    {
        match find_state(&self.states, id) {
            Some(i) => {
                let mut st = self.states[i];
                if st.fired {
                    return false;
                }
                st.disabled = false;
                st.fired = true;
                self.states.set(i, st);
                true
            },
            None => false,
        }
    }
}

impl TriggerRuntime {
    /// Runs an action of trigger `trigger_id` that acts on the run time
    /// (`code`: the action's code, recorded as unsupported when a needed
    /// parameter is missing).
    pub fn apply_action(&mut self, trigger_id: u32, code: i32, action: TriggerAction)
        ensures
            final(self)@ == action_step(old(self)@, trigger_id, code, action),
            final(self).pending_team_spawns@ == old(self).pending_team_spawns@,
            final(self).script_crates@ == old(self).script_crates@,
    {
        let ghost a = action;
        match action {
            TriggerAction::Win { house } => {
                if self.win_blockers > 0 {
                    self.deferred_victory_house = Some(house);
                } else {
                    self.pending_outcome = Some(BattleOutcome::Victory { owner: house });
                }
            },
            TriggerAction::Lose { reason } => {
                self.pending_outcome = Some(BattleOutcome::Defeat { reason });
            },
            TriggerAction::AllowWin => {
                self.win_blockers = self.win_blockers.saturating_sub(1);
                if self.win_blockers == 0 {
                    if let Some(house) = self.deferred_victory_house.take() {
                        self.pending_outcome = Some(BattleOutcome::Victory { owner: house });
                    }
                }
            },
            TriggerAction::LockInput => {
                self.script_input_locked = true;
            },
            TriggerAction::UnlockInput => {
                self.script_input_locked = false;
            },
            TriggerAction::DestroyTrigger { target } => match target {
                Some(t) => {
                    if let Some(i) = find_state(&self.states, t) {
                        let mut st = self.states[i];
                        st.disabled = true;
                        st.fired = true;
                        self.states.set(i, st);
                    }
                },
                None => self.record_unsupported(code),
            },
            TriggerAction::TimerStart { target } => {
                let t = match target {
                    Some(t) => t,
                    None => trigger_id,
                };
                if let Some(i) = find_state(&self.states, t) {
                    let mut st = self.states[i];
                    st.timer_paused = false;
                    self.states.set(i, st);
                }
            },
            TriggerAction::TimerStop { target } => {
                let t = match target {
                    Some(t) => t,
                    None => trigger_id,
                };
                if let Some(i) = find_state(&self.states, t) {
                    let mut st = self.states[i];
                    st.timer_paused = true;
                    self.states.set(i, st);
                }
            },
            TriggerAction::TimerExtend { target, ticks } => match ticks {
                Some(n) => {
                    let t = match target {
                        Some(t) => t,
                        None => trigger_id,
                    };
                    if let Some(i) = find_state(&self.states, t) {
                        let mut st = self.states[i];
                        let cur = match st.timer_remaining {
                            Some(c) => c,
                            None => 0,
                        };
                        st.timer_remaining = Some(cur.saturating_add(n));
                        st.fired = false;
                        st.disabled = false;
                        self.states.set(i, st);
                    }
                },
                None => self.record_unsupported(code),
            },
            TriggerAction::TimerShorten { target, ticks } => match ticks {
                Some(n) => {
                    let t = match target {
                        Some(t) => t,
                        None => trigger_id,
                    };
                    if let Some(i) = find_state(&self.states, t) {
                        let mut st = self.states[i];
                        let cur = match st.timer_remaining {
                            Some(c) => c,
                            None => 0,
                        };
                        st.timer_remaining = Some(cur.saturating_sub(n));
                        st.fired = false;
                        st.disabled = false;
                        self.states.set(i, st);
                    }
                },
                None => self.record_unsupported(code),
            },
            TriggerAction::TimerSet { target, ticks } => match ticks {
                Some(n) => {
                    let t = match target {
                        Some(t) => t,
                        None => trigger_id,
                    };
                    if let Some(i) = find_state(&self.states, t) {
                        let mut st = self.states[i];
                        st.timer_remaining = Some(n);
                        st.timer_paused = false;
                        st.fired = false;
                        st.disabled = false;
                        self.states.set(i, st);
                    }
                },
                None => self.record_unsupported(code),
            },
            TriggerAction::EnableTrigger { target } => {
                let t = match target {
                    Some(t) => t,
                    None => trigger_id,
                };
                if let Some(i) = find_state(&self.states, t) {
                    let mut st = self.states[i];
                    st.disabled = false;
                    self.states.set(i, st);
                }
            },
            TriggerAction::DisableTrigger { target } => {
                let t = match target {
                    Some(t) => t,
                    None => trigger_id,
                };
                if let Some(i) = find_state(&self.states, t) {
                    let mut st = self.states[i];
                    st.disabled = true;
                    self.states.set(i, st);
                }
            },
        }
        proof {
            assert(self@.states =~= action_step(old(self)@, trigger_id, code, a).states);
        }
    }
}

/// `k` more `Allow Win` actions.
pub open spec fn allow_wins(v: TriggerView, trigger_id: u32, code: i32, k: nat) -> TriggerView
    decreases k,
{
    if k == 0 {
        v
    } else {
        action_step(allow_wins(v, trigger_id, code, (k - 1) as nat), trigger_id, code, TriggerAction::AllowWin)
    }
}

/// A victory declared while `n` `Allow Win` blockers remain is held back:
/// no result while fewer than `n` of them have run, the victory as the
/// pending result once all have.
pub proof fn law_victory_waits_for_allow_win(v: TriggerView, trigger_id: u32, code: i32, house: String, k: nat)
    requires
        v.win_blockers > 0,
        v.pending_outcome is None,
    ensures
        ({
            let held = action_step(v, trigger_id, code, TriggerAction::Win { house });
            let after = allow_wins(held, trigger_id, code, k);
            &&& held.pending_outcome is None
            &&& k < v.win_blockers ==> after.pending_outcome is None && after.win_blockers == v.win_blockers - k
                && after.deferred == Some(house@)
            &&& k == v.win_blockers ==> after.pending_outcome == Some(victory(house@)) && after.win_blockers == 0
        }),
    decreases k,
{
    if k > 0 {
        law_victory_waits_for_allow_win(v, trigger_id, code, house, (k - 1) as nat);
    }
}

/// `k` ticks of one trigger's countdown.
pub open spec fn ticked_times(s: TriggerState, k: nat) -> TriggerState
    decreases k,
{
    if k == 0 {
        s
    } else {
        timer_ticked(ticked_times(s, (k - 1) as nat))
    }
}

/// A countdown set to `n` on a running trigger reaches zero after exactly
/// `n` ticks and stays there: after `k` ticks it shows `n - k`, at least 0.
pub proof fn law_timer_counts_down(s: TriggerState, n: u32, k: nat)
    ensures
        ({
            let set = TriggerState { timer_remaining: Some(n), timer_paused: false, fired: false, disabled: false, ..s };
            ticked_times(set, k).timer_remaining == Some(if k <= n {
                (n - k) as u32
            } else {
                0u32
            })
        }),
    decreases k,
{
    if k > 0 {
        law_timer_counts_down(s, n, (k - 1) as nat);
        let set = TriggerState { timer_remaining: Some(n), timer_paused: false, fired: false, disabled: false, ..s };
        lemma_ticks_keep_switches(set, (k - 1) as nat);
    }
}

/// Countdown ticks change nothing but the countdown.
proof fn lemma_ticks_keep_switches(s: TriggerState, k: nat)
    ensures
        ticked_times(s, k).disabled == s.disabled,
        ticked_times(s, k).fired == s.fired,
        ticked_times(s, k).timer_paused == s.timer_paused,
        ticked_times(s, k).id == s.id,
    decreases k,
{
    if k > 0 {
        lemma_ticks_keep_switches(s, (k - 1) as nat);
    }
}

/// Whether entity `e` picks up a crate at `(x, y)`: alive, not a
/// structure, standing on the cell, and owned.
pub open spec fn picks_up(e: crate::entities::EntityRecord, x: u16, y: u16) -> bool {
    &&& e.alive
    &&& !(e.identity matches Some(i) && i.kind == crate::entities::EntityKind::Structure)
    &&& e.cell == Some((x, y))
    &&& e.owner is Some
}

/// House of the first entity that picks up the crate, if any.
pub open spec fn crate_taker(es: Seq<crate::entities::EntityRecord>, x: u16, y: u16) -> Option<Seq<char>>
    decreases es.len(),
{
    if es.len() == 0 {
        None
    } else if picks_up(es[0], x, y) {
        Some(es[0].owner->Some_0@)
    } else {
        crate_taker(es.drop_first(), x, y)
    }
}

/// Crates that nobody picks up, in order.
pub open spec fn crates_left(cs: Seq<ScriptCrate>, es: Seq<crate::entities::EntityRecord>) -> Seq<ScriptCrate>
    decreases cs.len(),
{
    if cs.len() == 0 {
        Seq::empty()
    } else {
        let rest = crates_left(cs.drop_last(), es);
        if crate_taker(es, cs.last().x, cs.last().y) is Some {
            rest
        } else {
            rest.push(cs.last())
        }
    }
}

/// Houses that pick up crates, last crate first.
pub open spec fn crate_takers(cs: Seq<ScriptCrate>, es: Seq<crate::entities::EntityRecord>) -> Seq<Seq<char>>
    decreases cs.len(),
{
    if cs.len() == 0 {
        Seq::empty()
    } else {
        let rest = crate_takers(cs.drop_last(), es);
        match crate_taker(es, cs.last().x, cs.last().y) {
            Some(h) => seq![h] + rest,
            None => rest,
        }
    }
}

/// House of the first entity that picks up the crate at `(x, y)`.
fn find_taker(entities: &[crate::entities::EntityRecord], x: u16, y: u16) -> (r: Option<String>)
    ensures
        house_opt(r) == crate_taker(entities@, x, y),
{
    let mut i: usize = 0;
    assert(entities@.skip(0) =~= entities@);
    while i < entities.len()
        invariant
            i <= entities@.len(),
            crate_taker(entities@, x, y) == crate_taker(entities@.skip(i as int), x, y),
        decreases entities@.len() - i,
    {
        proof {
            assert(entities@.skip(i as int)[0] == entities@[i as int]);
            assert(entities@.skip(i as int).drop_first() =~= entities@.skip(i + 1));
        }
        let e = &entities[i];
        let structure = match &e.identity {
            Some(id) => id.kind == crate::entities::EntityKind::Structure,
            None => false,
        };
        if e.alive && !structure && e.cell == Some((x, y)) {
            match &e.owner {
                Some(o) => return Some(o.clone()),
                None => {},
            }
        }
        i = i + 1;
    }
    assert(entities@.skip(i as int) =~= Seq::<crate::entities::EntityRecord>::empty());
    None
}

impl TriggerRuntime {
    /// Crates picked up this tick: a crate goes to the first living,
    /// owned, non-structure entity standing on its cell. Picked crates are
    /// removed; the returned houses (last crate first) each get
    /// [`SCRIPT_CRATE_CREDITS`].
    pub fn collect_script_crates(&mut self, entities: &[crate::entities::EntityRecord]) -> (takers: Vec<String>)
        ensures
            final(self).script_crates@ == crates_left(old(self).script_crates@, entities@),
            takers@.map_values(|s: String| s@) == crate_takers(old(self).script_crates@, entities@),
            final(self)@ == old(self)@,
            final(self).pending_team_spawns@ == old(self).pending_team_spawns@,
    {
        let ghost c0 = self.script_crates@;
        let mut kept: Vec<ScriptCrate> = Vec::new();
        let mut takers: Vec<String> = Vec::new();
        let mut rest: Vec<ScriptCrate> = Vec::new();
        std::mem::swap(&mut rest, &mut self.script_crates);
        let ghost mut done: int = 0;
        while rest.len() > 0
            invariant
                0 <= done <= c0.len(),
                rest@ == c0.skip(done),
                kept@ == crates_left(c0.take(done), entities@),
                takers@.map_values(|s: String| s@) == crate_takers(c0.take(done), entities@),
            decreases rest@.len(),
        {
            let ghost r = rest@;
            let c = rest.remove(0);
            proof {
                assert(r[0] == c);
                assert(rest@ =~= r.drop_first());
                assert(r.drop_first() =~= c0.skip(done + 1));
                assert(c0.take(done + 1).drop_last() =~= c0.take(done));
                assert(c0.take(done + 1).last() == c);
                done = done + 1;
            }
            match find_taker(entities, c.x, c.y) {
                Some(h) => {
                    let ghost before = takers@.map_values(|s: String| s@);
                    let ghost hv = h@;
                    takers.insert(0, h);
                    assert(takers@.map_values(|s: String| s@) =~= seq![hv] + before);
                },
                None => {
                    kept.push(c);
                },
            }
        }
        assert(c0.take(done) =~= c0);
        self.script_crates = kept;
        takers
    }
}


/// `state_index` finds the first state with the id, and only that.
pub proof fn lemma_state_index(states: Seq<TriggerState>, id: u32)
    ensures
        match state_index(states, id) {
            Some(i) => 0 <= i < states.len() && states[i].id == id && forall|j: int|
                0 <= j < i ==> states[j].id != id,
            None => forall|j: int| 0 <= j < states.len() ==> states[j].id != id,
        },
    decreases states.len(),
{
    if states.len() > 0 && states[0].id != id {
        lemma_state_index(states.drop_first(), id);
        assert forall|j: int| 0 < j < states.len() implies states[j] == states.drop_first()[j - 1] by {}
    }
}

/// Whether state `i` is the first one of trigger `t`.
pub open spec fn first_of(states: Seq<TriggerState>, t: u32, i: int) -> bool {
    states[i].id == t && forall|j: int| 0 <= j < i ==> states[j].id != t
}

/// A timer or switch action that names a trigger acts on that trigger (on
/// the acting trigger when it names none): the first state with that id
/// gets its timer resumed or paused, or is enabled or disabled; every other
/// state, and the rest of the run time, stay as they were.
pub proof fn law_targeted_action_changes_its_trigger_only(
    v: TriggerView,
    trigger_id: u32,
    code: i32,
    target: Option<u32>,
    i: int,
)
    requires
        0 <= i < v.states.len(),
    ensures
        ({
            let t = match target {
                Some(t) => t,
                None => trigger_id,
            };
            let s = v.states[i];
            let start = action_step(v, trigger_id, code, TriggerAction::TimerStart { target });
            let stop = action_step(v, trigger_id, code, TriggerAction::TimerStop { target });
            let on = action_step(v, trigger_id, code, TriggerAction::EnableTrigger { target });
            let off = action_step(v, trigger_id, code, TriggerAction::DisableTrigger { target });
            &&& start.states.len() == v.states.len() && stop.states.len() == v.states.len()
            &&& on.states.len() == v.states.len() && off.states.len() == v.states.len()
            &&& start.states[i] == (if first_of(v.states, t, i) { TriggerState { timer_paused: false, ..s } } else { s })
            &&& stop.states[i] == (if first_of(v.states, t, i) { TriggerState { timer_paused: true, ..s } } else { s })
            &&& on.states[i] == (if first_of(v.states, t, i) { TriggerState { disabled: false, ..s } } else { s })
            &&& off.states[i] == (if first_of(v.states, t, i) { TriggerState { disabled: true, ..s } } else { s })
            &&& TriggerView { states: v.states, ..start } == v
            &&& TriggerView { states: v.states, ..stop } == v
            &&& TriggerView { states: v.states, ..on } == v
            &&& TriggerView { states: v.states, ..off } == v
        }),
{
    let t = match target {
        Some(t) => t,
        None => trigger_id,
    };
    lemma_state_index(v.states, t);
    if let Some(k) = state_index(v.states, t) {
        if k != i && first_of(v.states, t, i) {
            if k < i {
                assert(v.states[k].id != t);
            } else {
                assert(v.states[i].id != t);
            }
        }
    }
}

/// Setting a timer that names a trigger sets that trigger's countdown and
/// restarts it (on the acting trigger when it names none); a set without
/// ticks changes no state.
pub proof fn law_timer_set_sets_its_trigger(v: TriggerView, trigger_id: u32, code: i32, target: Option<u32>, ticks: Option<u32>, i: int)
    requires
        0 <= i < v.states.len(),
    ensures
        ({
            let t = match target {
                Some(t) => t,
                None => trigger_id,
            };
            let s = v.states[i];
            let r = action_step(v, trigger_id, code, TriggerAction::TimerSet { target, ticks });
            &&& r.states.len() == v.states.len()
            &&& r.states[i] == (match ticks {
                Some(n) => if first_of(v.states, t, i) {
                    TriggerState { timer_remaining: Some(n), timer_paused: false, fired: false, disabled: false, ..s }
                } else {
                    s
                },
                None => s,
            })
        }),
{
    let t = match target {
        Some(t) => t,
        None => trigger_id,
    };
    lemma_state_index(v.states, t);
    if let Some(k) = state_index(v.states, t) {
        if k != i && first_of(v.states, t, i) {
            if k < i {
                assert(v.states[k].id != t);
            } else {
                assert(v.states[i].id != t);
            }
        }
    }
}

proof fn lemma_recorded_contains(v: TriggerView, code: i32)
    ensures
        recorded(v, code).unsupported.contains(code),
        recorded(v, code).states == v.states,
{
    if !v.unsupported.contains(code) {
        assert(v.unsupported.push(code)[v.unsupported.len() as int] == code);
    }
}

/// Extending or shortening the timer of the named trigger (the acting
/// one when none is named) changes the first state of that trigger only:
/// its countdown grows or shrinks by the ticks, saturating at the `u32`
/// bounds, and it runs again; without ticks the action is recorded as
/// unsupported and no state changes.
pub proof fn law_timer_extend_and_shorten(v: TriggerView, trigger_id: u32, code: i32, target: Option<u32>, ticks: Option<u32>, i: int)
    requires
        0 <= i < v.states.len(),
    ensures
        ({
            let t = match target {
                Some(t) => t,
                None => trigger_id,
            };
            let s = v.states[i];
            let old_left: int = match s.timer_remaining {
                Some(n) => n as int,
                None => 0,
            };
            let ext = action_step(v, trigger_id, code, TriggerAction::TimerExtend { target, ticks });
            let sho = action_step(v, trigger_id, code, TriggerAction::TimerShorten { target, ticks });
            &&& ext.states.len() == v.states.len() && sho.states.len() == v.states.len()
            &&& ticks is None ==> ext.states[i] == s && sho.states[i] == s && ext.unsupported.contains(code)
                && sho.unsupported.contains(code)
            &&& ticks matches Some(n) ==> {
                &&& ext.states[i] == (if first_of(v.states, t, i) {
                    TriggerState {
                        timer_remaining: Some(if old_left + n > u32::MAX { u32::MAX } else { (old_left + n) as u32 }),
                        fired: false,
                        disabled: false,
                        ..s
                    }
                } else {
                    s
                })
                &&& sho.states[i] == (if first_of(v.states, t, i) {
                    TriggerState {
                        timer_remaining: Some(if old_left >= n { (old_left - n) as u32 } else { 0 }),
                        fired: false,
                        disabled: false,
                        ..s
                    }
                } else {
                    s
                })
            }
        }),
{
    lemma_recorded_contains(v, code);
    let t = match target {
        Some(t) => t,
        None => trigger_id,
    };
    lemma_state_index(v.states, t);
    if let Some(k) = state_index(v.states, t) {
        if k != i && first_of(v.states, t, i) {
            if k < i {
                assert(v.states[k].id != t);
            } else {
                assert(v.states[i].id != t);
            }
        }
    }
}

/// Destroying a named trigger disables it and marks it fired for good (its
/// first state only); naming none records the action as unsupported and
/// changes no state.
pub proof fn law_destroy_trigger(v: TriggerView, trigger_id: u32, code: i32, target: Option<u32>, i: int)
    requires
        0 <= i < v.states.len(),
    ensures
        ({
            let s = v.states[i];
            let r = action_step(v, trigger_id, code, TriggerAction::DestroyTrigger { target });
            &&& r.states.len() == v.states.len()
            &&& match target {
                Some(t) => r.states[i] == (if first_of(v.states, t, i) {
                    TriggerState { disabled: true, fired: true, ..s }
                } else {
                    s
                }),
                None => r.states[i] == s && r.unsupported.contains(code),
            }
        }),
{
    lemma_recorded_contains(v, code);
    if let Some(t) = target {
        lemma_state_index(v.states, t);
        if let Some(k) = state_index(v.states, t) {
            if k != i && first_of(v.states, t, i) {
                if k < i {
                    assert(v.states[k].id != t);
                } else {
                    assert(v.states[i].id != t);
                }
            }
        }
    }
}

/// A victory waits while `Allow Win` blockers remain, and is declared
/// otherwise; each `Allow Win` clears one blocker, and clearing the last
/// declares the victory that waited. A defeat is declared at once. Input
/// is locked and unlocked as asked. None of these touches a trigger state.
pub proof fn law_outcome_actions(v: TriggerView, trigger_id: u32, code: i32, house: String, reason: String)
    ensures
        ({
            let w = action_step(v, trigger_id, code, TriggerAction::Win { house });
            &&& w.states == v.states
            &&& v.win_blockers > 0 ==> w.deferred == Some(house@) && w.pending_outcome == v.pending_outcome
            &&& v.win_blockers == 0 ==> w.pending_outcome == Some(OutcomeView::Victory(house@))
        }),
        ({
            let l = action_step(v, trigger_id, code, TriggerAction::Lose { reason });
            l.states == v.states && l.pending_outcome == Some(OutcomeView::Defeat(reason@))
        }),
        ({
            let a = action_step(v, trigger_id, code, TriggerAction::AllowWin);
            &&& a.states == v.states
            &&& a.win_blockers == (if v.win_blockers > 0 { v.win_blockers - 1 } else { 0 })
            &&& (a.win_blockers == 0 && v.deferred is Some) ==> a.pending_outcome == Some(OutcomeView::Victory(v.deferred.unwrap()))
                && a.deferred is None
            &&& a.win_blockers > 0 ==> a.pending_outcome == v.pending_outcome && a.deferred == v.deferred
        }),
        action_step(v, trigger_id, code, TriggerAction::LockInput).input_locked,
        !action_step(v, trigger_id, code, TriggerAction::UnlockInput).input_locked,
        action_step(v, trigger_id, code, TriggerAction::LockInput).states == v.states,
        action_step(v, trigger_id, code, TriggerAction::UnlockInput).states == v.states,
{
}

} // verus!
