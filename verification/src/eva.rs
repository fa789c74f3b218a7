//! EVA advice: the "insufficient funds" reminder, repeated at most once per
//! speak delay.

use vstd::prelude::*;

use crate::players::PlayerState;

verus! {

/// Below this many credits a side with a factory is reminded of its funds.
pub const FUNDS_NAG_CREDITS: i32 = 100;

/// One tick of a side's funds reminder: the countdown drops by one; when it
/// is over and the side has fewer than [`FUNDS_NAG_CREDITS`] credits and an
/// infantry, vehicle or building factory, the reminder plays and the
/// countdown restarts at `delay`. A zero delay switches reminders off.
pub open spec fn nag_step(ticks_left: u32, funds: i32, has_factory: bool, delay: u32) -> (u32, bool) {
    if delay == 0 {
        (ticks_left, false)
    } else {
        let t: u32 = if ticks_left > 0 {
            (ticks_left - 1) as u32
        } else {
            0
        };
        if t > 0 || funds >= FUNDS_NAG_CREDITS || !has_factory {
            (t, false)
        } else {
            (delay, true)
        }
    }
}

/// Advances every side's funds reminder by one tick; returns the indices of
/// the sides whose reminder plays now, in order.
pub fn tick_eva_funds_nag(
    nag_ticks: &mut Vec<u32>,
    players: &[PlayerState],
    has_factory: &[bool],
    delay: u32,
) -> (cued: Vec<usize>)
    requires
        old(nag_ticks)@.len() == players@.len(),
        has_factory@.len() == players@.len(),
    ensures
        final(nag_ticks)@.len() == players@.len(),
        forall|i: int|
            0 <= i < players@.len() ==> (#[trigger] final(nag_ticks)@[i], cued@.contains(i as usize)) == nag_step(
                old(nag_ticks)@[i],
                players@[i].funds,
                has_factory@[i],
                delay,
            ),
        forall|k: int, l: int| 0 <= k < l < cued@.len() ==> cued@[k] < cued@[l],
{
    let mut cued: Vec<usize> = Vec::new();
    if delay == 0 {
        return cued;
    }
    let n = players.len();
    let mut i: usize = 0;
    while i < n
        invariant
            n == players@.len(),
            nag_ticks@.len() == n,
            has_factory@.len() == n,
            delay > 0,
            i <= n,
            forall|j: int| i <= j < n ==> #[trigger] nag_ticks@[j] == old(nag_ticks)@[j],
            forall|j: int|
                0 <= j < i ==> (#[trigger] nag_ticks@[j], cued@.contains(j as usize)) == nag_step(
                    old(nag_ticks)@[j],
                    players@[j].funds,
                    has_factory@[j],
                    delay,
                ),
            forall|k: int| 0 <= k < cued@.len() ==> #[trigger] cued@[k] < i,
            forall|k: int, l: int| 0 <= k < l < cued@.len() ==> cued@[k] < cued@[l],
        decreases n - i,
    {
        let mut t = nag_ticks[i];
        if t > 0 {
            t = t - 1;
        }
        let cue = t == 0 && players[i].funds < FUNDS_NAG_CREDITS && has_factory[i];
        if cue {
            t = delay;
        }
        nag_ticks.set(i, t);
        let ghost before = cued@;
        if cue {
            cued.push(i);
        }
        proof {
            assert forall|j: int| 0 <= j < i + 1 implies (#[trigger] nag_ticks@[j], cued@.contains(j as usize))
                == nag_step(old(nag_ticks)@[j], players@[j].funds, has_factory@[j], delay) by {
                if j < i {
                    if cue {
                        assert(cued@ == before.push(i));
                        if before.contains(j as usize) {
                            let k = choose|k: int| 0 <= k < before.len() && before[k] == j as usize;
                            assert(cued@[k] == j as usize);
                        }
                        if cued@.contains(j as usize) {
                            let k = choose|k: int| 0 <= k < cued@.len() && cued@[k] == j as usize;
                            assert(k < before.len());
                        }
                    }
                } else {
                    if cue {
                        assert(cued@[cued@.len() - 1] == i);
                    } else {
                        if cued@.contains(i) {
                            let k = choose|k: int| 0 <= k < cued@.len() && cued@[k] == i;
                            assert(cued@[k] < i);
                        }
                    }
                }
            }
        }
        i = i + 1;
    }
    cued
}

/// Countdown and reminders over successive ticks, for the given funds and
/// factory readings of each tick.
pub open spec fn nag_run(ticks_left: u32, funds: Seq<i32>, factory: Seq<bool>, delay: u32) -> (u32, bool)
    decreases funds.len(),
{
    if funds.len() == 0 {
        (ticks_left, false)
    } else {
        let (t, cue) = nag_step(ticks_left, funds[0], factory[0], delay);
        let (t2, later) = nag_run(t, funds.drop_first(), factory.drop_first(), delay);
        (t2, cue || later)
    }
}

/// After a reminder plays, none plays again during the next `delay - 1`
/// ticks, whatever the funds and factories: the countdown then stands at
/// `delay` minus the ticks gone by.
pub proof fn law_reminder_spacing(funds: Seq<i32>, factory: Seq<bool>, delay: u32)
    requires
        funds.len() == factory.len(),
        funds.len() < delay,
    ensures
        nag_run(delay, funds, factory, delay) == ((delay - funds.len()) as u32, false),
    decreases funds.len(),
{
    if funds.len() > 0 {
        lemma_run_from(delay, funds, factory, delay);
    }
}

/// From a countdown longer than the run, no reminder plays and the countdown
/// drops by the run's length.
proof fn lemma_run_from(ticks_left: u32, funds: Seq<i32>, factory: Seq<bool>, delay: u32)
    requires
        funds.len() == factory.len(),
        funds.len() < ticks_left,
        delay > 0,
    ensures
        nag_run(ticks_left, funds, factory, delay) == ((ticks_left - funds.len()) as u32, false),
    decreases funds.len(),
{
    if funds.len() > 0 {
        lemma_run_from((ticks_left - 1) as u32, funds.drop_first(), factory.drop_first(), delay);
    }
}

} // verus!
