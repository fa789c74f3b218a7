//! How a match ends: the savour window before the result is locked, the
//! pause state that a decided match keeps, the sole surviving side and the
//! score line.

use vstd::prelude::*;
use vstd::string::StringExecFns;

use crate::text::{eq_ignore_ascii_case, text_eq_ignore_ascii_case};

verus! {

/// Boot contract of a session: skirmish and campaign decide the result
/// differently.
#[derive(Clone, Copy, Debug, PartialEq, Eq, Structural)]
pub enum SessionBootKind {
    /// Skirmish: the last side standing wins.
    Skirmish,
    /// Campaign: triggers decide win or loss.
    Campaign,
}

impl Default for SessionBootKind {
    fn default() -> (kind: Self)
        ensures
            kind == SessionBootKind::Skirmish,
    {
        SessionBootKind::Skirmish
    }
}

/// Result of a match.
#[derive(Clone, Debug, PartialEq, Eq)]
pub enum BattleOutcome {
    /// A side won.
    Victory { owner: String },
    /// The local side lost (campaign trigger, skirmish elimination, ...).
    Defeat { reason: String },
}

/// Screen a session shows.
#[derive(Clone, Copy, Debug, PartialEq, Eq, Structural)]
pub enum SessionScreen {
    /// The match is running (paused or not).
    InBattle,
    /// The result screen.
    Results,
}

/// Score line of one side.
#[derive(Clone, Debug, PartialEq, Eq, Default)]
pub struct PlayerBattleStats {
    /// House name.
    pub house: String,
    /// Enemies destroyed.
    pub kills: u32,
    /// Own units and buildings lost.
    pub losses: u32,
    /// Units and buildings completed.
    pub built: u32,
    /// Score (see [`player_score`]).
    pub score: i32,
}

/// Statistics locked when the match ends.
#[derive(Clone, Debug, PartialEq, Eq, Default)]
pub struct BattleStats {
    /// Length of the match in ticks.
    pub duration_ticks: u64,
    /// Mobile units lost, all sides.
    pub units_lost: u32,
    /// Buildings lost, all sides.
    pub buildings_lost: u32,
    /// Funds spent, all sides.
    pub funds_spent: i32,
    /// One line per side, in starting order.
    pub players: Vec<PlayerBattleStats>,
}

/// `x / 100` rounded toward zero.
pub open spec fn div100(x: int) -> int {
    if x >= 0 {
        x / 100
    } else {
        -((-x) / 100)
    }
}

/// Score before the floor: spending / 100 + kills × 10 − losses × 5.
pub open spec fn raw_score(funds_spent: i32, kills: u32, losses: u32) -> int {
    div100(funds_spent as int) + kills * 10 - losses * 5
}

/// Score of a side: spending / 100 (toward zero) + kills × 10 − losses × 5,
/// never below zero. Every partial sum must fit an `i32`.
pub fn player_score(funds_spent: i32, kills: u32, losses: u32) -> (score: i32)
    requires
        kills * 10 <= i32::MAX,
        losses * 5 <= i32::MAX,
        i32::MIN <= div100(funds_spent as int) + kills * 10 <= i32::MAX,
        i32::MIN <= raw_score(funds_spent, kills, losses) <= i32::MAX,
    ensures
        score == if raw_score(funds_spent, kills, losses) > 0 {
            raw_score(funds_spent, kills, losses)
        } else {
            0
        },
{
    let spent: i32 = if funds_spent >= 0 {
        funds_spent / 100
    } else {
        let magnitude: i64 = -(funds_spent as i64);
        (-(magnitude / 100)) as i32
    };
    let gained: i32 = spent + (kills as i32) * 10;
    let score: i32 = gained - (losses as i32) * 5;
    if score > 0 {
        score
    } else {
        0
    }
}

/// Standing of one side for the last-side-standing rule.
#[derive(Clone, Copy, Debug)]
pub struct SideStanding {
    /// Ambient (decorative or passive) side: never a contender.
    pub ambient: bool,
    /// Still has something that keeps it in the match.
    pub keeps_alive: bool,
}

/// Number of contenders (non-ambient sides) among `sides`.
pub open spec fn contender_count(sides: Seq<SideStanding>) -> nat
    decreases sides.len(),
{
    if sides.len() == 0 {
        0
    } else {
        contender_count(sides.drop_last()) + if !sides.last().ambient {
            1nat
        } else {
            0nat
        }
    }
}

/// Number of contenders that are still alive.
pub open spec fn survivor_count(sides: Seq<SideStanding>) -> nat
    decreases sides.len(),
{
    if sides.len() == 0 {
        0
    } else {
        survivor_count(sides.drop_last()) + if !sides.last().ambient && sides.last().keeps_alive {
            1nat
        } else {
            0nat
        }
    }
}

/// A surviving contender.
pub open spec fn survives(s: SideStanding) -> bool {
    !s.ambient && s.keeps_alive
}

proof fn lemma_counts_bounded(sides: Seq<SideStanding>)
    ensures
        survivor_count(sides) <= contender_count(sides) <= sides.len(),
    decreases sides.len(),
{
    if sides.len() > 0 {
        lemma_counts_bounded(sides.drop_last());
    }
}

/// With no survivor counted, no side survives.
proof fn lemma_zero_survivors(sides: Seq<SideStanding>)
    requires
        survivor_count(sides) == 0,
    ensures
        forall|i: int| 0 <= i < sides.len() ==> !survives(#[trigger] sides[i]),
    decreases sides.len(),
{
    if sides.len() > 0 {
        lemma_zero_survivors(sides.drop_last());
        assert forall|i: int| 0 <= i < sides.len() implies !survives(#[trigger] sides[i]) by {
            if i < sides.len() - 1 {
                assert(sides.drop_last()[i] == sides[i]);
            }
        }
    }
}

/// The only surviving contender, when at least two contenders took part and
/// exactly one of them still stands.
pub fn sole_victor(sides: &[SideStanding]) -> (r: Option<usize>)
    ensures
        match r {
            Some(i) => {
                &&& contender_count(sides@) >= 2
                &&& survivor_count(sides@) == 1
                &&& i < sides@.len()
                &&& survives(sides@[i as int])
            },
            None => contender_count(sides@) < 2 || survivor_count(sides@) != 1,
        },
{
    let mut contenders: usize = 0;
    let mut survivors: usize = 0;
    let mut last: usize = 0;
    let mut i: usize = 0;
    while i < sides.len()
        invariant
            i <= sides@.len(),
            contenders == contender_count(sides@.take(i as int)),
            survivors == survivor_count(sides@.take(i as int)),
            survivors > 0 ==> last < i && survives(sides@[last as int]),
            survivors == 1 ==> forall|j: int| 0 <= j < i && j != last ==> !survives(#[trigger] sides@[j]),
        decreases sides@.len() - i,
    {
        proof {
            assert(sides@.take(i + 1).drop_last() =~= sides@.take(i as int));
            lemma_counts_bounded(sides@.take(i as int));
            if survivors == 0 {
                lemma_zero_survivors(sides@.take(i as int));
                assert forall|j: int| 0 <= j < i implies !survives(#[trigger] sides@[j]) by {
                    assert(sides@.take(i as int)[j] == sides@[j]);
                }
            }
        }
        let s = sides[i];
        if !s.ambient {
            contenders = contenders + 1;
            if s.keeps_alive {
                if survivors == 0 {
                    last = i;
                }
                survivors = survivors + 1;
            }
        }
        i = i + 1;
    }
    assert(sides@.take(i as int) =~= sides@);
    if contenders < 2 || survivors != 1 {
        None
    } else {
        Some(last)
    }
}

/// Mathematical value of a [`BattleOutcome`].
pub enum OutcomeView {
    Victory(Seq<char>),
    Defeat(Seq<char>),
}

impl View for BattleOutcome {
    type V = OutcomeView;

    open spec fn view(&self) -> OutcomeView {
        match self {
            BattleOutcome::Victory { owner } => OutcomeView::Victory(owner@),
            BattleOutcome::Defeat { reason } => OutcomeView::Defeat(reason@),
        }
    }
}

/// View of an optional result.
pub open spec fn outcome_opt(o: Option<BattleOutcome>) -> Option<OutcomeView> {
    match o {
        Some(o) => Some(o@),
        None => None,
    }
}

/// View of an optional text.
pub open spec fn text_opt(s: Option<String>) -> Option<Seq<char>> {
    match s {
        Some(s) => Some(s@),
        None => None,
    }
}

/// Text shown while a decided match stays paused.
pub open spec fn result_text(outcome: OutcomeView, kind: SessionBootKind) -> Seq<char> {
    match outcome {
        OutcomeView::Victory(owner) => if kind == SessionBootKind::Campaign {
            "战役胜利 · "@ + owner
        } else {
            "胜负已定 · "@ + owner
        },
        OutcomeView::Defeat(reason) => if kind == SessionBootKind::Campaign {
            if reason.len() == 0 {
                "战役失败"@
            } else {
                "战役失败 · "@ + reason
            }
        } else if reason.len() == 0 {
            "胜负已定"@
        } else {
            "胜负已定 · "@ + reason
        },
    }
}

/// Text shown during the savour window.
pub open spec fn savour_text() -> Seq<char> {
    "胜负收束中"@
}

/// Text of a manual pause.
pub open spec fn manual_pause_text() -> Seq<char> {
    "已暂停"@
}

/// Pause state and result of a running match.
#[derive(Debug)]
pub struct MatchControl {
    /// Whether the session clock is stopped.
    pub paused: bool,
    /// Why it is paused.
    pub pause_reason: Option<String>,
    /// Result; once set the match is over and stays paused.
    pub outcome: Option<BattleOutcome>,
    /// Result waiting for the savour window to pass.
    pub pending_savour_outcome: Option<BattleOutcome>,
    /// Tick at which the pending result is locked.
    pub savour_until_tick: Option<u64>,
}

/// Mathematical value of a [`MatchControl`].
pub struct MatchView {
    pub paused: bool,
    pub pause_reason: Option<Seq<char>>,
    pub outcome: Option<OutcomeView>,
    pub pending: Option<OutcomeView>,
    pub until: Option<u64>,
}

impl View for MatchControl {
    type V = MatchView;

    open spec fn view(&self) -> MatchView {
        MatchView {
            paused: self.paused,
            pause_reason: text_opt(self.pause_reason),
            outcome: outcome_opt(self.outcome),
            pending: outcome_opt(self.pending_savour_outcome),
            until: self.savour_until_tick,
        }
    }
}

/// The result is locked: set, paused, with its text; savour fields kept.
pub open spec fn decide(m: MatchView, outcome: OutcomeView, kind: SessionBootKind) -> MatchView {
    MatchView {
        paused: true,
        pause_reason: Some(result_text(outcome, kind)),
        outcome: Some(outcome),
        pending: m.pending,
        until: m.until,
    }
}

/// Locks a result unless one is locked already.
pub open spec fn commit_step(m: MatchView, outcome: OutcomeView, kind: SessionBootKind) -> MatchView {
    if m.outcome is Some {
        m
    } else {
        decide(m, outcome, kind)
    }
}

/// Last tick of a savour window started at `tick` (saturating).
pub open spec fn savour_end(tick: u64, delay: u64) -> u64 {
    if tick + delay > u64::MAX {
        u64::MAX
    } else {
        (tick + delay) as u64
    }
}

/// Starts the savour window (or locks at once for a zero delay) unless a
/// result is locked or waiting.
pub open spec fn savour_step(m: MatchView, outcome: OutcomeView, tick: u64, delay: u64, kind: SessionBootKind) -> MatchView {
    if m.outcome is Some || m.pending is Some {
        m
    } else if delay == 0 {
        decide(m, outcome, kind)
    } else {
        MatchView {
            paused: m.paused,
            pause_reason: Some(savour_text()),
            outcome: m.outcome,
            pending: Some(outcome),
            until: Some(savour_end(tick, delay)),
        }
    }
}

/// At `tick`: locks the waiting result once the window has passed.
pub open spec fn savour_check_step(m: MatchView, tick: u64, kind: SessionBootKind) -> MatchView {
    match m.until {
        None => m,
        Some(until) => if tick < until {
            m
        } else {
            let cleared = MatchView { pending: None, until: None, ..m };
            match m.pending {
                None => cleared,
                Some(o) => commit_step(cleared, o, kind),
            }
        },
    }
}

/// View of an optional borrowed text.
pub open spec fn str_opt(s: Option<&str>) -> Option<Seq<char>> {
    match s {
        Some(s) => Some(s@),
        None => None,
    }
}

/// The result a skirmish's sole survivor means for the local side: a
/// victory when the local house is the survivor (ASCII case ignored), a
/// defeat without reason otherwise.
pub open spec fn skirmish_result(victor: Seq<char>, local_house: Option<Seq<char>>) -> OutcomeView {
    match local_house {
        Some(h) => if text_eq_ignore_ascii_case(h, victor) {
            OutcomeView::Victory(victor)
        } else {
            OutcomeView::Defeat(Seq::empty())
        },
        None => OutcomeView::Defeat(Seq::empty()),
    }
}

/// One per-tick refresh: a locked result stays; an open savour window is
/// checked; otherwise a result raised by a trigger (consumed) or, in a
/// skirmish, the sole survivor starts the savour window. The flag says
/// whether the trigger's result was consumed.
pub open spec fn refresh_step(
    m: MatchView,
    tick: u64,
    delay: u64,
    kind: SessionBootKind,
    trigger: Option<OutcomeView>,
    victor: Option<Seq<char>>,
    local_house: Option<Seq<char>>,
) -> (MatchView, bool) {
    if m.outcome is Some {
        (m, false)
    } else if m.until is Some {
        (savour_check_step(m, tick, kind), false)
    } else {
        match trigger {
            Some(o) => (savour_step(m, o, tick, delay, kind), true),
            None => if kind == SessionBootKind::Campaign {
                (m, false)
            } else {
                match victor {
                    None => (m, false),
                    Some(v) => (savour_step(m, skirmish_result(v, local_house), tick, delay, kind), false),
                }
            },
        }
    }
}

/// Builds `prefix` followed by `text`.
fn joined(prefix: &str, text: &str) -> (s: String)
    ensures
        s@ == prefix@ + text@,
{
    let mut s = String::from_str(prefix);
    s.append(text);
    s
}

/// Text shown while a decided match stays paused.
fn result_message(outcome: &BattleOutcome, kind: SessionBootKind) -> (s: String)
    ensures
        s@ == result_text(outcome@, kind),
{
    match outcome {
        BattleOutcome::Victory { owner } => {
            if kind == SessionBootKind::Campaign {
                joined("战役胜利 · ", owner.as_str())
            } else {
                joined("胜负已定 · ", owner.as_str())
            }
        },
        BattleOutcome::Defeat { reason } => {
            if kind == SessionBootKind::Campaign {
                if reason.as_str().is_empty() {
                    String::from_str("战役失败")
                } else {
                    joined("战役失败 · ", reason.as_str())
                }
            } else if reason.as_str().is_empty() {
                String::from_str("胜负已定")
            } else {
                joined("胜负已定 · ", reason.as_str())
            }
        },
    }
}

impl MatchControl {
    /// A running, unpaused match without a result.
    pub fn new() -> (c: Self)
        ensures
            c@ == (MatchView { paused: false, pause_reason: None, outcome: None, pending: None, until: None }),
    {
        MatchControl {
            paused: false,
            pause_reason: None,
            outcome: None,
            pending_savour_outcome: None,
            savour_until_tick: None,
        }
    }

    /// Screen to show: the results once the match is decided.
    pub fn screen(&self) -> (s: SessionScreen)
        ensures
            s == if self@.outcome is Some {
                SessionScreen::Results
            } else {
                SessionScreen::InBattle
            },
    {
        if self.outcome.is_some() {
            SessionScreen::Results
        } else {
            SessionScreen::InBattle
        }
    }

    /// Clears a manual pause (no effect once the match is decided).
    pub fn resume(&mut self)
        ensures
            final(self)@ == if old(self)@.outcome is Some {
                old(self)@
            } else {
                MatchView { paused: false, pause_reason: None, ..old(self)@ }
            },
    {
        if self.outcome.is_some() {
            return;
        }
        self.paused = false;
        self.pause_reason = None;
    }

    /// Pauses by hand with a reason (no effect once the match is decided).
    pub fn pause(&mut self, reason: String)
        ensures
            final(self)@ == if old(self)@.outcome is Some {
                old(self)@
            } else {
                MatchView { paused: true, pause_reason: Some(reason@), ..old(self)@ }
            },
    {
        if self.outcome.is_some() {
            return;
        }
        self.paused = true;
        self.pause_reason = Some(reason);
    }

    /// Toggles the manual pause; a decided match stays paused.
    pub fn toggle_pause(&mut self)
        ensures
            final(self)@ == if old(self)@.outcome is Some {
                old(self)@
            } else if old(self)@.paused {
                MatchView { paused: false, pause_reason: None, ..old(self)@ }
            } else {
                MatchView { paused: true, pause_reason: Some(manual_pause_text()), ..old(self)@ }
            },
    {
        if self.outcome.is_some() {
            return;
        }
        if self.paused {
            self.resume();
        } else {
            self.pause(String::from_str("已暂停"));
        }
    }

    /// Locks the result and pauses (no effect once the match is decided).
    fn commit_outcome(&mut self, outcome: BattleOutcome, kind: SessionBootKind)
        ensures
            final(self)@ == commit_step(old(self)@, outcome@, kind),
    {
        if self.outcome.is_some() {
            return;
        }
        let reason = result_message(&outcome, kind);
        self.outcome = Some(outcome);
        self.paused = true;
        self.pause_reason = Some(reason);
    }

    /// Starts the savour window for `outcome` at `tick`: the result is
    /// locked `delay` ticks later, at once when `delay` is zero. Ignored when
    /// a result is locked or already waiting.
    pub fn begin_savour(&mut self, outcome: BattleOutcome, tick: u64, delay: u64, kind: SessionBootKind)
        ensures
            final(self)@ == savour_step(old(self)@, outcome@, tick, delay, kind),
    {
        if self.outcome.is_some() || self.pending_savour_outcome.is_some() {
            return;
        }
        if delay == 0 {
            self.commit_outcome(outcome, kind);
            return;
        }
        self.pending_savour_outcome = Some(outcome);
        self.savour_until_tick = Some(tick.saturating_add(delay));
        self.pause_reason = Some(String::from_str("胜负收束中"));
    }

    /// At `tick`, locks the waiting result once its window has passed.
    /// Returns whether a savour window was open (so nothing else decides the
    /// match this tick).
    pub fn try_commit_savour(&mut self, tick: u64, kind: SessionBootKind) -> (open: bool)
        ensures
            open == (old(self)@.until is Some),
            final(self)@ == savour_check_step(old(self)@, tick, kind),
    {
        let until = match self.savour_until_tick {
            Some(u) => u,
            None => return false,
        };
        if tick < until {
            return true;
        }
        let outcome = match self.pending_savour_outcome.take() {
            Some(o) => o,
            None => {
                self.savour_until_tick = None;
                return true;
            },
        };
        self.savour_until_tick = None;
        self.commit_outcome(outcome, kind);
        true
    }

    /// A result decided by a script or trigger; it still goes through the
    /// savour window. Ignored when a result is locked or waiting.
    pub fn apply_scripted_outcome(&mut self, outcome: BattleOutcome, tick: u64, delay: u64, kind: SessionBootKind)
        ensures
            final(self)@ == savour_step(old(self)@, outcome@, tick, delay, kind),
    {
        if self.outcome.is_some() || self.pending_savour_outcome.is_some() {
            return;
        }
        self.begin_savour(outcome, tick, delay, kind);
    }

    /// Per-tick refresh after the simulation step. `trigger_outcome` is a
    /// result raised by a trigger (taken when used), `victor` the sole
    /// surviving house if any, `local_house` the local player's house.
    pub fn refresh_outcome(
        &mut self,
        tick: u64,
        delay: u64,
        kind: SessionBootKind,
        trigger_outcome: &mut Option<BattleOutcome>,
        victor: Option<String>,
        local_house: Option<&str>,
    )
        ensures
            ({
                let (next, consumed) = refresh_step(
                    old(self)@,
                    tick,
                    delay,
                    kind,
                    outcome_opt(*old(trigger_outcome)),
                    text_opt(victor),
                    str_opt(local_house),
                );
                &&& final(self)@ == next
                &&& consumed ==> *final(trigger_outcome) is None
                &&& !consumed ==> *final(trigger_outcome) == *old(trigger_outcome)
            }),
    {
        if self.outcome.is_some() {
            return;
        }
        if self.try_commit_savour(tick, kind) {
            return;
        }
        if let Some(o) = trigger_outcome.take() {
            self.begin_savour(o, tick, delay, kind);
            return;
        }
        if kind == SessionBootKind::Campaign {
            return;
        }
        let owner = match victor {
            Some(v) => v,
            None => return,
        };
        let local_win = match local_house {
            Some(h) => eq_ignore_ascii_case(h, owner.as_str()),
            None => false,
        };
        let outcome = if local_win {
            BattleOutcome::Victory { owner }
        } else {
            BattleOutcome::Defeat { reason: String::new() }
        };
        self.begin_savour(outcome, tick, delay, kind);
    }
}

/// A locked result is final: no later step changes the result, the pause
/// or its text.
pub proof fn law_locked_result_is_final(
    m: MatchView,
    other: OutcomeView,
    tick: u64,
    delay: u64,
    kind: SessionBootKind,
    trigger: Option<OutcomeView>,
    victor: Option<Seq<char>>,
    local_house: Option<Seq<char>>,
)
    requires
        m.outcome is Some,
    ensures
        commit_step(m, other, kind) == m,
        savour_step(m, other, tick, delay, kind) == m,
        refresh_step(m, tick, delay, kind, trigger, victor, local_house).0 == m,
        savour_check_step(m, tick, kind).outcome == m.outcome,
        savour_check_step(m, tick, kind).paused == m.paused,
        savour_check_step(m, tick, kind).pause_reason == m.pause_reason,
{
}

/// With no savour delay a result is locked at once, and the match pauses.
pub proof fn law_zero_delay_locks_at_once(m: MatchView, outcome: OutcomeView, tick: u64, kind: SessionBootKind)
    requires
        m.outcome is None,
        m.pending is None,
    ensures
        savour_step(m, outcome, tick, 0, kind).outcome == Some(outcome),
        savour_step(m, outcome, tick, 0, kind).paused,
        savour_step(m, outcome, tick, 0, kind).pause_reason == Some(result_text(outcome, kind)),
{
}

/// A savour window started at `start` keeps the match undecided before its
/// end and locks the waiting result, paused, from its end on.
pub proof fn law_savour_window_locks_result(
    m: MatchView,
    outcome: OutcomeView,
    start: u64,
    delay: u64,
    now: u64,
    kind: SessionBootKind,
)
    requires
        m.outcome is None,
        m.pending is None,
        delay > 0,
    ensures
        ({
            let waiting = savour_step(m, outcome, start, delay, kind);
            let checked = savour_check_step(waiting, now, kind);
            &&& waiting.outcome is None
            &&& now < savour_end(start, delay) ==> checked == waiting
            &&& now >= savour_end(start, delay) ==> {
                &&& checked.outcome == Some(outcome)
                &&& checked.paused
                &&& checked.pause_reason == Some(result_text(outcome, kind))
                &&& checked.pending is None
                &&& checked.until is None
            }
        }),
{
}

/// `ks` holds `k` exactly.
pub open spec fn lists_key(ks: Seq<String>, k: Seq<char>) -> bool {
    exists|i: int| 0 <= i < ks.len() && (#[trigger] ks[i])@ == k
}

fn list_has_key(ks: &[String], k: &str) -> (r: bool)
    ensures
        r == lists_key(ks@, k@),
{
    let mut i: usize = 0;
    while i < ks.len()
        invariant
            i <= ks@.len(),
            forall|j: int| 0 <= j < i ==> (#[trigger] ks@[j])@ != k@,
        decreases ks@.len() - i,
    {
        if crate::key_order::compare_keys(ks[i].as_str(), k) == crate::key_order::KeyOrder::Same {
            return true;
        }
        i = i + 1;
    }
    false
}

/// A type counts as a base unit (`[General] BaseUnit`): listed there; with
/// an empty list, a type that deploys into a construction yard.
pub open spec fn base_unit(base_units: Seq<String>, yard_deployers: Seq<String>, type_id: Seq<char>) -> bool {
    if lists_key(base_units, type_id) {
        true
    } else if base_units.len() > 0 {
        false
    } else {
        lists_key(yard_deployers, type_id)
    }
}

/// Whether type `type_id` is a base unit (see [`base_unit`]).
pub fn is_base_unit(base_units: &[String], yard_deployers: &[String], type_id: &str) -> (r: bool)
    ensures
        r == base_unit(base_units@, yard_deployers@, type_id@),
{
    if list_has_key(base_units, type_id) {
        return true;
    }
    if base_units.len() > 0 {
        return false;
    }
    list_has_key(yard_deployers, type_id)
}

/// Entity `e` keeps `house` in the game: a living entity of that house
/// (ASCII case ignored) that is a structure; in a short game also a base
/// unit; in a long game also any unit, infantry or aircraft.
pub open spec fn keeps_house_alive(
    e: crate::entities::EntityRecord,
    house: Seq<char>,
    short_game: bool,
    base_units: Seq<String>,
    yard_deployers: Seq<String>,
) -> bool {
    &&& e.alive
    &&& e.owner matches Some(o) && text_eq_ignore_ascii_case(o@, house)
    &&& e.identity matches Some(id) && match id.kind {
        crate::entities::EntityKind::Structure => true,
        crate::entities::EntityKind::Unit => !short_game || base_unit(base_units, yard_deployers, id.type_id@),
        crate::entities::EntityKind::Infantry => !short_game,
        crate::entities::EntityKind::Aircraft => !short_game,
        crate::entities::EntityKind::Other => false,
    }
}

/// Whether `house` is still in the game (see [`keeps_house_alive`]).
pub fn house_keeps_alive(
    es: &[crate::entities::EntityRecord],
    house: &str,
    short_game: bool,
    base_units: &[String],
    yard_deployers: &[String],
) -> (r: bool)
    ensures
        r == exists|i: int|
            0 <= i < es@.len() && keeps_house_alive(#[trigger] es@[i], house@, short_game, base_units@, yard_deployers@),
{
    let mut i: usize = 0;
    while i < es.len()
        invariant
            i <= es@.len(),
            forall|j: int|
                0 <= j < i ==> !keeps_house_alive(#[trigger] es@[j], house@, short_game, base_units@, yard_deployers@),
        decreases es@.len() - i,
    {
        let e = &es[i];
        if e.alive {
            let owned = match &e.owner {
                Some(o) => eq_ignore_ascii_case(o.as_str(), house),
                None => false,
            };
            if owned {
                if let Some(id) = &e.identity {
                    let keeps = match id.kind {
                        crate::entities::EntityKind::Structure => true,
                        crate::entities::EntityKind::Unit => !short_game || is_base_unit(
                            base_units,
                            yard_deployers,
                            id.type_id.as_str(),
                        ),
                        crate::entities::EntityKind::Infantry => !short_game,
                        crate::entities::EntityKind::Aircraft => !short_game,
                        crate::entities::EntityKind::Other => false,
                    };
                    if keeps {
                        assert(keeps_house_alive(es@[i as int], house@, short_game, base_units@, yard_deployers@));
                        return true;
                    }
                }
            }
        }
        i = i + 1;
    }
    false
}

/// A living building keeps its house in the game, short game or not; so
/// does any living unit in a long game. A dead entity, or one of another
/// house, keeps no house alive; and a short game keeps no more alive than
/// a long one.
pub proof fn law_what_keeps_a_house_alive(
    e: crate::entities::EntityRecord,
    house: Seq<char>,
    short_game: bool,
    base_units: Seq<String>,
    yard_deployers: Seq<String>,
)
    ensures
        e.alive && (e.owner matches Some(o) && text_eq_ignore_ascii_case(o@, house)) && (e.identity matches Some(
            id,
        ) && id.kind == crate::entities::EntityKind::Structure) ==> keeps_house_alive(
            e,
            house,
            short_game,
            base_units,
            yard_deployers,
        ),
        e.alive && (e.owner matches Some(o) && text_eq_ignore_ascii_case(o@, house)) && (e.identity matches Some(
            id,
        ) && id.kind != crate::entities::EntityKind::Other) ==> keeps_house_alive(
            e,
            house,
            false,
            base_units,
            yard_deployers,
        ),
        !e.alive ==> !keeps_house_alive(e, house, short_game, base_units, yard_deployers),
        !(e.owner matches Some(o) && text_eq_ignore_ascii_case(o@, house)) ==> !keeps_house_alive(
            e,
            house,
            short_game,
            base_units,
            yard_deployers,
        ),
        keeps_house_alive(e, house, true, base_units, yard_deployers) ==> keeps_house_alive(
            e,
            house,
            false,
            base_units,
            yard_deployers,
        ),
{
}

/// A house with a living building among the entities is still in the
/// game, whatever the game's length.
pub proof fn law_a_house_with_a_building_is_alive(
    es: Seq<crate::entities::EntityRecord>,
    house: Seq<char>,
    short_game: bool,
    base_units: Seq<String>,
    yard_deployers: Seq<String>,
    i: int,
)
    requires
        0 <= i < es.len(),
        es[i].alive,
        es[i].owner matches Some(o) && text_eq_ignore_ascii_case(o@, house),
        es[i].identity matches Some(id) && id.kind == crate::entities::EntityKind::Structure,
    ensures
        exists|j: int| 0 <= j < es.len() && keeps_house_alive(#[trigger] es[j], house, short_game, base_units, yard_deployers),
{
    law_what_keeps_a_house_alive(es[i], house, short_game, base_units, yard_deployers);
}

/// In a short game, of a house's living entities only its buildings and
/// base units keep it in the game: infantry, aircraft and other units do
/// not.
pub proof fn law_short_game_counts_buildings_and_base_units(
    e: crate::entities::EntityRecord,
    house: Seq<char>,
    base_units: Seq<String>,
    yard_deployers: Seq<String>,
)
    requires
        e.alive,
        e.owner matches Some(o) && text_eq_ignore_ascii_case(o@, house),
        e.identity is Some,
    ensures
        keeps_house_alive(e, house, true, base_units, yard_deployers) <==> (e.identity.unwrap().kind
            == crate::entities::EntityKind::Structure || (e.identity.unwrap().kind == crate::entities::EntityKind::Unit
            && base_unit(base_units, yard_deployers, e.identity.unwrap().type_id@))),
{
}

} // verus!
