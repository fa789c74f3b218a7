//! Lightning storm: countdown to activation, lighting switch, periodic
//! strikes around the target cell, and the end of the storm.

use vstd::prelude::*;

verus! {

/// Marker of the ending state: after the duration runs out the storm keeps
/// the ion lighting for one more tick, then clears.
pub const ENDING_DURATION_SENTINEL: i32 = i32::MIN;

/// Logic ticks between two strikes while the storm is active.
pub const LIGHTNING_STRIKE_INTERVAL_TICKS: i32 = 15;

/// Chebyshev radius of a strike around the target cell (centre included).
pub const LIGHTNING_STRIKE_RADIUS: i32 = 1;

/// Damage of one strike to every unit or building it covers.
pub const LIGHTNING_STRIKE_DAMAGE: u32 = 50;

/// Ticks per `RechargeTime` unit of a super weapon.
pub const SUPER_WEAPON_TICKS_PER_RECHARGE_UNIT: u32 = 90;

/// Map lighting the storm switches between.
#[derive(Debug, Clone, Copy, PartialEq, Eq, Structural)]
pub enum LightingProfile {
    /// Ordinary lighting.
    Normal,
    /// Ion-storm lighting.
    Ion,
}

/// The one lightning storm of a match (at most one at a time).
#[derive(Debug, Clone, Copy, PartialEq, Eq, Structural)]
pub struct LightningStormState {
    /// Target cell X.
    pub target_x: u16,
    /// Target cell Y.
    pub target_y: u16,
    /// Ticks left before activation (lighting stays normal while above 0).
    pub deferment_remaining: i32,
    /// Ticks left once active (`-1`: endless; the sentinel: ending).
    pub duration_remaining: i32,
    /// Ticks until the next strike (0: strike this tick).
    pub strike_cooldown: i32,
}

/// Why a super weapon could not be fired.
#[derive(Debug, Clone, Copy, PartialEq, Eq, Structural)]
pub enum FireSuperWeaponError {
    /// No such type in the definitions.
    UnknownType,
    /// No living building of the side provides it.
    NoProvider,
    /// Still charging.
    NotReady,
    /// Its `Type=` has no effect wired yet.
    UnsupportedKind,
}

impl LightningStormState {
    /// A storm aimed at `(target_x, target_y)`; a negative deferment counts
    /// as none.
    pub fn new(target_x: u16, target_y: u16, deferment: i32, duration: i32) -> (s: Self)
        ensures
            s == (LightningStormState {
                target_x,
                target_y,
                deferment_remaining: if deferment >= 0 {
                    deferment
                } else {
                    0
                },
                duration_remaining: duration,
                strike_cooldown: 0,
            }),
    {
        LightningStormState {
            target_x,
            target_y,
            deferment_remaining: if deferment >= 0 { deferment } else { 0 },
            duration_remaining: duration,
            strike_cooldown: 0,
        }
    }
}

/// Effect a storm step has outside the storm itself.
#[derive(Debug, Clone, Copy, PartialEq, Eq, Structural)]
pub enum StormEffect {
    /// Nothing outside the storm changes.
    Quiet,
    /// The lighting switches to ion.
    Begin,
    /// The lighting switches to ion and a strike hits the cell.
    BeginAndStrike(u16, u16),
    /// A strike hits the cell.
    Strike(u16, u16),
    /// The storm is over: the lighting goes back to normal.
    End,
}

/// The storm after starting or re-aiming one, and whether the lighting
/// switches to ion now. A running countdown can only be shortened (and takes
/// the new duration); an active storm only takes the new target.
pub open spec fn storm_started(
    storm: Option<LightningStormState>,
    target_x: u16,
    target_y: u16,
    deferment: i32,
    duration: i32,
) -> (Option<LightningStormState>, bool) {
    match storm {
        Some(s) => {
            if s.deferment_remaining > 0 {
                let requested = if deferment >= 0 {
                    deferment
                } else {
                    0
                };
                let d = if requested <= s.deferment_remaining {
                    requested
                } else {
                    s.deferment_remaining
                };
                (
                    Some(
                        LightningStormState {
                            target_x,
                            target_y,
                            deferment_remaining: d,
                            duration_remaining: duration,
                            ..s
                        },
                    ),
                    d == 0,
                )
            } else {
                (Some(LightningStormState { target_x, target_y, ..s }), false)
            }
        },
        None => {
            let d = if deferment >= 0 {
                deferment
            } else {
                0
            };
            (
                Some(
                    LightningStormState {
                        target_x,
                        target_y,
                        deferment_remaining: d,
                        duration_remaining: duration,
                        strike_cooldown: 0,
                    },
                ),
                d == 0,
            )
        },
    }
}

/// Strike check of an active storm: whether it strikes now, and the storm
/// after the check (cooldown counted down, or reset after a strike).
pub open spec fn strike_check(s: LightningStormState) -> (LightningStormState, bool) {
    if s.deferment_remaining > 0 || s.duration_remaining == ENDING_DURATION_SENTINEL
        || s.duration_remaining == 0 {
        (s, false)
    } else if s.strike_cooldown > 0 {
        (LightningStormState { strike_cooldown: (s.strike_cooldown - 1) as i32, ..s }, false)
    } else {
        (LightningStormState { strike_cooldown: LIGHTNING_STRIKE_INTERVAL_TICKS, ..s }, true)
    }
}

/// One tick of a storm: the storm afterwards (`None` when it is over) and
/// its effect on the world.
pub open spec fn storm_ticked(s: LightningStormState) -> (Option<LightningStormState>, StormEffect) {
    if s.deferment_remaining > 0 {
        let s1 = LightningStormState { deferment_remaining: (s.deferment_remaining - 1) as i32, ..s };
        if s1.deferment_remaining > 0 {
            (Some(s1), StormEffect::Quiet)
        } else {
            let (s2, hit) = strike_check(s1);
            if hit {
                (Some(s2), StormEffect::BeginAndStrike(s.target_x, s.target_y))
            } else {
                (Some(s2), StormEffect::Begin)
            }
        }
    } else if s.duration_remaining == ENDING_DURATION_SENTINEL {
        (None, StormEffect::End)
    } else if s.duration_remaining == 0 {
        (Some(LightningStormState { duration_remaining: ENDING_DURATION_SENTINEL, ..s }), StormEffect::Quiet)
    } else {
        let (s2, hit) = strike_check(s);
        let s3 = if s.duration_remaining < 0 {
            s2
        } else {
            LightningStormState { duration_remaining: (s2.duration_remaining - 1) as i32, ..s2 }
        };
        if hit {
            (Some(s3), StormEffect::Strike(s.target_x, s.target_y))
        } else {
            (Some(s3), StormEffect::Quiet)
        }
    }
}

/// Runs the strike check on a present storm.
fn apply_lightning_strike_if_due(storm: &mut LightningStormState) -> (hit: bool)
    ensures
        (*final(storm), hit) == strike_check(*old(storm)),
{
    if storm.deferment_remaining > 0 || storm.duration_remaining == ENDING_DURATION_SENTINEL
        || storm.duration_remaining == 0 {
        return false;
    }
    if storm.strike_cooldown > 0 {
        storm.strike_cooldown = storm.strike_cooldown - 1;
        return false;
    }
    storm.strike_cooldown = LIGHTNING_STRIKE_INTERVAL_TICKS;
    true
}

/// Starts or re-aims the storm; returns whether the lighting turns ion now.
pub fn start_storm(
    storm: &mut Option<LightningStormState>,
    target_x: u16,
    target_y: u16,
    deferment: i32,
    duration: i32,
) -> (begin_now: bool)
    ensures
        (*final(storm), begin_now) == storm_started(*old(storm), target_x, target_y, deferment, duration),
{
    match storm {
        Some(s) => {
            s.target_x = target_x;
            s.target_y = target_y;
            if s.deferment_remaining > 0 {
                let requested = if deferment >= 0 { deferment } else { 0 };
                if requested <= s.deferment_remaining {
                    s.deferment_remaining = requested;
                }
                s.duration_remaining = duration;
                s.deferment_remaining == 0
            } else {
                false
            }
        },
        None => {
            let s = LightningStormState::new(target_x, target_y, deferment, duration);
            let begin_now = s.deferment_remaining == 0;
            *storm = Some(s);
            begin_now
        },
    }
}

/// Advances a storm by one tick; returns the effect on the world.
pub fn tick_storm(storm: &mut Option<LightningStormState>) -> (effect: StormEffect)
    ensures
        *old(storm) is None ==> *final(storm) is None && effect == StormEffect::Quiet,
        *old(storm) matches Some(s) ==> (*final(storm), effect) == storm_ticked(s),
{
    let mut s = match *storm {
        None => {
            return StormEffect::Quiet;
        },
        Some(s) => s,
    };
    if s.deferment_remaining > 0 {
        s.deferment_remaining = s.deferment_remaining - 1;
        if s.deferment_remaining > 0 {
            *storm = Some(s);
            return StormEffect::Quiet;
        }
        let hit = apply_lightning_strike_if_due(&mut s);
        *storm = Some(s);
        return if hit {
            StormEffect::BeginAndStrike(s.target_x, s.target_y)
        } else {
            StormEffect::Begin
        };
    }
    let duration = s.duration_remaining;
    if duration == ENDING_DURATION_SENTINEL {
        *storm = None;
        return StormEffect::End;
    }
    if duration == 0 {
        s.duration_remaining = ENDING_DURATION_SENTINEL;
        *storm = Some(s);
        return StormEffect::Quiet;
    }
    let (x, y) = (s.target_x, s.target_y);
    let hit = apply_lightning_strike_if_due(&mut s);
    if duration > 0 {
        s.duration_remaining = s.duration_remaining - 1;
    }
    *storm = Some(s);
    if hit {
        StormEffect::Strike(x, y)
    } else {
        StormEffect::Quiet
    }
}

/// Ticks a storm still has before it is cleared, when it is not endless:
/// the countdown, then the duration, then one tick in the ending state and
/// the clearing tick.
pub open spec fn storm_lifetime(s: LightningStormState) -> int {
    if s.duration_remaining == ENDING_DURATION_SENTINEL {
        1
    } else if s.duration_remaining >= 0 {
        (if s.deferment_remaining > 0 {
            s.deferment_remaining as int
        } else {
            0
        }) + s.duration_remaining + 2
    } else {
        -1
    }
}

/// Every tick of a storm with a finite duration brings it one tick closer to
/// its end; an endless storm (`-1`) never ends by itself.
pub proof fn law_storm_runs_down(s: LightningStormState)
    requires
        s.deferment_remaining >= 0,
        s.duration_remaining >= 0 || s.duration_remaining == ENDING_DURATION_SENTINEL,
        s.duration_remaining == ENDING_DURATION_SENTINEL ==> s.deferment_remaining == 0,
    ensures
        storm_lifetime(s) >= 1,
        storm_ticked(s).0 is None <==> storm_lifetime(s) == 1,
        storm_ticked(s).0 matches Some(t) ==> storm_lifetime(t) == storm_lifetime(s) - 1,
        storm_ticked(s).0 is None ==> storm_ticked(s).1 == StormEffect::End,
        storm_ticked(s).0 matches Some(t) ==> t.deferment_remaining >= 0 && (t.duration_remaining >= 0
            || t.duration_remaining == ENDING_DURATION_SENTINEL) && (t.duration_remaining
            == ENDING_DURATION_SENTINEL ==> t.deferment_remaining == 0),
{
}

/// The storm after `n` ticks (`None` once cleared).
pub open spec fn storm_after(s: Option<LightningStormState>, n: nat) -> Option<LightningStormState>
    decreases n,
{
    if n == 0 {
        s
    } else {
        match storm_after(s, (n - 1) as nat) {
            Some(t) => storm_ticked(t).0,
            None => None,
        }
    }
}

proof fn lemma_storm_after(s: LightningStormState, k: nat)
    requires
        s.deferment_remaining >= 0,
        s.duration_remaining >= 0,
        k < storm_lifetime(s),
    ensures
        storm_after(Some(s), k) matches Some(t) && storm_lifetime(t) == storm_lifetime(s) - k
            && t.deferment_remaining >= 0 && (t.duration_remaining >= 0 || t.duration_remaining
            == ENDING_DURATION_SENTINEL) && (t.duration_remaining == ENDING_DURATION_SENTINEL
            ==> t.deferment_remaining == 0),
    decreases k,
{
    if k > 0 {
        lemma_storm_after(s, (k - 1) as nat);
        let t = storm_after(Some(s), (k - 1) as nat)->0;
        law_storm_runs_down(t);
    }
}

/// A storm with countdown `F >= 0` and duration `D >= 0` that nothing else
/// touches is still there after each of its first `F + D + 1` ticks, ends
/// (effect `End`, lighting back to normal) on tick `F + D + 2`, and is gone
/// after it.
pub proof fn law_storm_clears_after_its_lifetime(s: LightningStormState)
    requires
        s.deferment_remaining >= 0,
        s.duration_remaining >= 0,
    ensures
        storm_lifetime(s) == s.deferment_remaining + s.duration_remaining + 2,
        forall|k: nat| k < storm_lifetime(s) ==> #[trigger] storm_after(Some(s), k) is Some,
        storm_after(Some(s), (storm_lifetime(s) - 1) as nat) matches Some(t) && storm_ticked(t)
            == (None::<LightningStormState>, StormEffect::End),
        storm_after(Some(s), storm_lifetime(s) as nat) is None,
{
    assert forall|k: nat| k < storm_lifetime(s) implies #[trigger] storm_after(Some(s), k) is Some by {
        lemma_storm_after(s, k);
    }
    let n = (storm_lifetime(s) - 1) as nat;
    lemma_storm_after(s, n);
    let t = storm_after(Some(s), n)->0;
    law_storm_runs_down(t);
    assert(storm_lifetime(s) as nat == n + 1);
}

/// A storm with endless duration (`-1`) is never cleared by ticking.
pub proof fn law_endless_storm_never_clears(s: LightningStormState, n: nat)
    requires
        s.duration_remaining == -1,
    ensures
        storm_after(Some(s), n) matches Some(t) && t.duration_remaining == -1,
    decreases n,
{
    if n > 0 {
        law_endless_storm_never_clears(s, (n - 1) as nat);
        let t = storm_after(Some(s), (n - 1) as nat)->0;
        law_endless_storm_persists(t);
    }
}

/// An endless storm never clears itself.
pub proof fn law_endless_storm_persists(s: LightningStormState)
    requires
        s.duration_remaining == -1,
    ensures
        storm_ticked(s).0 matches Some(t) && t.duration_remaining == -1,
{
}

/// Re-aiming never lengthens the countdown and never restarts an active
/// storm; it always takes the new target.
pub proof fn law_restart_never_delays(
    s: LightningStormState,
    target_x: u16,
    target_y: u16,
    deferment: i32,
    duration: i32,
)
    requires
        s.deferment_remaining >= 0,
    ensures
        storm_started(Some(s), target_x, target_y, deferment, duration).0 matches Some(t) && t.target_x
            == target_x && t.target_y == target_y && 0 <= t.deferment_remaining
            <= s.deferment_remaining,
        s.deferment_remaining == 0 ==> storm_started(Some(s), target_x, target_y, deferment, duration)
            == (Some(LightningStormState { target_x, target_y, ..s }), false),
{
}

} // verus!
