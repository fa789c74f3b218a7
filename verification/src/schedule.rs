//! The fixed order of system phases inside one logic tick.

use vstd::prelude::*;

verus! {

/// One fixed phase of a logic tick (their order comes from [`SystemSchedule`]).
#[derive(Debug, Clone, Copy, PartialEq, Eq, Hash, Structural)]
pub enum SystemPhase {
    /// Consume the commands of this tick's input frame.
    ApplyCommands,
    /// Movement and path stepping.
    Movement,
    /// Hit-flash countdown.
    HitFlash,
    /// Combat resolution.
    Combat,
    /// Turret turning.
    Turrets,
    /// Refinery income.
    RefineryIncome,
    /// Factory production.
    Production,
    /// Super-weapon effects (lightning storm countdown and lighting).
    Powers,
    /// Map triggers and script actions.
    Triggers,
    /// Recompute the state digest.
    Rehash,
}

/// The default phase order, the single source of tick determinism.
pub open spec fn default_phase_order() -> Seq<SystemPhase> {
    seq![
        SystemPhase::ApplyCommands,
        SystemPhase::Movement,
        SystemPhase::HitFlash,
        SystemPhase::Combat,
        SystemPhase::Turrets,
        SystemPhase::RefineryIncome,
        SystemPhase::Production,
        SystemPhase::Powers,
        SystemPhase::Triggers,
        SystemPhase::Rehash,
    ]
}

impl SystemPhase {
    /// The default phase order.
    pub fn default_order() -> (order: Vec<Self>)
        ensures
            order@ == default_phase_order(),
    {
        let order = vec![
            SystemPhase::ApplyCommands,
            SystemPhase::Movement,
            SystemPhase::HitFlash,
            SystemPhase::Combat,
            SystemPhase::Turrets,
            SystemPhase::RefineryIncome,
            SystemPhase::Production,
            SystemPhase::Powers,
            SystemPhase::Triggers,
            SystemPhase::Rehash,
        ];
        assert(order@ =~= default_phase_order());
        order
    }
}

/// The phases one tick runs, in order.
#[derive(Debug, Clone)]
pub struct SystemSchedule {
    /// Phases run in this order every tick.
    pub phases: Vec<SystemPhase>,
}

impl Default for SystemSchedule {
    fn default() -> (schedule: Self)
        ensures
            schedule.phases@ == default_phase_order(),
    {
        SystemSchedule { phases: SystemPhase::default_order() }
    }
}

impl SystemSchedule {
    /// The default phase order.
    pub fn standard() -> (schedule: Self)
        ensures
            schedule.phases@ == default_phase_order(),
    {
        SystemSchedule { phases: SystemPhase::default_order() }
    }

    /// A custom order (leaving a phase out turns its system off).
    pub fn from_phases(phases: Vec<SystemPhase>) -> (schedule: Self)
        ensures
            schedule.phases@ == phases@,
    {
        SystemSchedule { phases }
    }

    /// Whether the phase runs in this schedule.
    pub fn contains(&self, phase: SystemPhase) -> (found: bool)
        ensures
            found == self.phases@.contains(phase),
    {
        let n = self.phases.len();
        let mut i: usize = 0;
        while i < n
            invariant
                n == self.phases@.len(),
                i <= n,
                forall|j: int| 0 <= j < i ==> self.phases@[j] != phase,
            decreases n - i,
        {
            if self.phases[i] == phase {
                return true;
            }
            i += 1;
        }
        false
    }

    /// The schedule without `phase`; the other phases keep their order.
    pub fn without(self, phase: SystemPhase) -> (schedule: Self)
        ensures
            schedule.phases@ == self.phases@.filter(|p: SystemPhase| p != phase),
    {
        let n = self.phases.len();
        let mut kept: Vec<SystemPhase> = Vec::new();
        let mut i: usize = 0;
        while i < n
            invariant
                n == self.phases@.len(),
                i <= n,
                kept@ == self.phases@.subrange(0, i as int).filter(|p: SystemPhase| p != phase),
            decreases n - i,
        {
            let p = self.phases[i];
            proof {
                reveal_with_fuel(Seq::filter, 1);
                assert(self.phases@.subrange(0, i as int + 1).drop_last() =~= self.phases@.subrange(
                    0,
                    i as int,
                ));
                assert(self.phases@.subrange(0, i as int + 1).last() == p);
            }
            if p != phase {
                kept.push(p);
            }
            i += 1;
        }
        assert(self.phases@.subrange(0, n as int) =~= self.phases@);
        SystemSchedule { phases: kept }
    }
}

/// Leaving a phase out removes exactly that phase: it no longer runs, every
/// other phase still runs, and the remaining order is unchanged.
pub proof fn law_without_removes_only_that_phase(phases: Seq<SystemPhase>, phase: SystemPhase, other: SystemPhase)
    requires
        other != phase,
    ensures
        !phases.filter(|p: SystemPhase| p != phase).contains(phase),
        phases.filter(|p: SystemPhase| p != phase).contains(other) == phases.contains(other),
        phases.filter(|p: SystemPhase| p != phase).filter(|p: SystemPhase| p != phase)
            == phases.filter(|p: SystemPhase| p != phase),
    decreases phases.len(),
{
    reveal_with_fuel(Seq::filter, 1);
    let f = |p: SystemPhase| p != phase;
    if phases.len() > 0 {
        law_without_removes_only_that_phase(phases.drop_last(), phase, other);
        let rest = phases.drop_last().filter(f);
        if f(phases.last()) {
            assert(phases.filter(f) == rest.push(phases.last()));
            assert(rest.push(phases.last()).drop_last() =~= rest);
            assert(phases.filter(f).contains(other) ==> phases.contains(other)) by {
                if phases.filter(f).contains(other) {
                    if rest.contains(other) {
                        let k = choose|k: int| 0 <= k < phases.drop_last().len() && phases.drop_last()[k] == other;
                        assert(phases[k] == other);
                    } else {
                        assert(phases.last() == other);
                    }
                }
            }
            assert(phases.contains(other) ==> phases.filter(f).contains(other)) by {
                if phases.contains(other) {
                    let k = choose|k: int| 0 <= k < phases.len() && phases[k] == other;
                    if k == phases.len() - 1 {
                        assert(phases.filter(f)[rest.len() as int] == other);
                    } else {
                        assert(phases.drop_last()[k] == other);
                        let m = choose|m: int| 0 <= m < rest.len() && rest[m] == other;
                        assert(phases.filter(f)[m] == other);
                    }
                }
            }
            assert(!phases.filter(f).contains(phase)) by {
                if phases.filter(f).contains(phase) {
                    let k = choose|k: int| 0 <= k < phases.filter(f).len() && phases.filter(f)[k] == phase;
                    if k < rest.len() {
                        assert(rest[k] == phase);
                    }
                }
            }
        } else {
            assert(phases.filter(f) == rest);
            assert(phases.contains(other) ==> phases.filter(f).contains(other)) by {
                if phases.contains(other) {
                    let k = choose|k: int| 0 <= k < phases.len() && phases[k] == other;
                    assert(k != phases.len() - 1);
                    assert(phases.drop_last()[k] == other);
                }
            }
            assert(phases.filter(f).contains(other) ==> phases.contains(other)) by {
                if rest.contains(other) {
                    let k = choose|k: int| 0 <= k < phases.drop_last().len() && phases.drop_last()[k] == other;
                    assert(phases[k] == other);
                }
            }
        }
    }
    lemma_filter_idempotent(phases, phase);
}

proof fn lemma_filter_idempotent(phases: Seq<SystemPhase>, phase: SystemPhase)
    ensures
        phases.filter(|p: SystemPhase| p != phase).filter(|p: SystemPhase| p != phase)
            == phases.filter(|p: SystemPhase| p != phase),
    decreases phases.len(),
{
    reveal_with_fuel(Seq::filter, 1);
    let f = |p: SystemPhase| p != phase;
    if phases.len() > 0 {
        lemma_filter_idempotent(phases.drop_last(), phase);
        let rest = phases.drop_last().filter(f);
        if f(phases.last()) {
            assert(rest.push(phases.last()).drop_last() =~= rest);
        }
    }
}

} // verus!
