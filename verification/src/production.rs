//! Pay-as-you-build: how much of a unit's cost falls due on each production
//! tick.

use vstd::prelude::*;

verus! {

/// Amount that should have been paid once the current tick's step is done:
/// the cost in proportion to the finished steps (rounded down), the whole
/// cost on the last step.
pub open spec fn paid_target(cost: i32, total_ticks: u32, remaining_ticks: u32) -> int {
    let completed_after = if total_ticks >= remaining_ticks {
        total_ticks - remaining_ticks + 1
    } else {
        1
    };
    if remaining_ticks <= 1 || completed_after >= total_ticks {
        cost as int
    } else {
        (cost * completed_after) / (total_ticks as int)
    }
}

/// Whether a production step charges anything at all.
pub open spec fn step_charges(cost: i32, total_ticks: u32, remaining_ticks: u32) -> bool {
    cost > 0 && total_ticks > 0 && remaining_ticks > 0
}

/// Funds due for a production step when `paid` was already paid: what is
/// missing to the step's target, never negative; nothing for a free item or
/// a finished queue.
pub open spec fn step_due(cost: i32, total_ticks: u32, remaining_ticks: u32, paid: int) -> int {
    if !step_charges(cost, total_ticks, remaining_ticks) {
        0
    } else if paid_target(cost, total_ticks, remaining_ticks) >= paid {
        paid_target(cost, total_ticks, remaining_ticks) - paid
    } else {
        0
    }
}

/// Funds due for this production step given what was already paid (never
/// negative; nothing for a free item or a finished queue).
pub fn produce_step_due(cost: i32, total_ticks: u32, remaining_ticks: u32, paid: i32) -> (due: i32)
    requires
        step_charges(cost, total_ticks, remaining_ticks) ==> paid_target(cost, total_ticks, remaining_ticks)
            - paid <= i32::MAX,
    ensures
        !step_charges(cost, total_ticks, remaining_ticks) ==> due == 0,
        due == step_due(cost, total_ticks, remaining_ticks, paid as int),
        step_charges(cost, total_ticks, remaining_ticks) ==> due == if paid_target(
            cost,
            total_ticks,
            remaining_ticks,
        ) >= paid {
            paid_target(cost, total_ticks, remaining_ticks) - paid
        } else {
            0
        },
{
    if cost <= 0 || total_ticks == 0 || remaining_ticks == 0 {
        return 0;
    }
    let completed_after = total_ticks.saturating_sub(remaining_ticks).saturating_add(1);
    proof {
        if total_ticks >= remaining_ticks {
            assert(completed_after == total_ticks - remaining_ticks + 1);
        }
    }
    let target: i32 = if remaining_ticks <= 1 || completed_after >= total_ticks {
        cost
    } else {
        proof {
            assert(0 <= (cost as int) * (completed_after as int) <= (cost as int) * (total_ticks as int))
                by (nonlinear_arith)
                requires
                    cost > 0,
                    completed_after < total_ticks,
            ;
            assert((cost as int) * (completed_after as int) <= 0x7fff_ffff * 0xffff_ffff) by (nonlinear_arith)
                requires
                    0 < cost <= 0x7fff_ffff,
                    0 < completed_after <= 0xffff_ffff,
            ;
            assert((cost as int) * (completed_after as int) / (total_ticks as int) <= cost as int)
                by (nonlinear_arith)
                requires
                    cost > 0,
                    0 < completed_after < total_ticks,
            ;
        }
        ((cost as i64 * completed_after as i64) / total_ticks as i64) as i32
    };
    if target >= paid {
        target - paid
    } else {
        0
    }
}

/// The amount due grows with the finished steps and reaches the whole cost
/// on the last step; paying each step's due keeps the total paid at the
/// target, so a whole build pays exactly its cost.
pub proof fn law_production_pays_cost_exactly(cost: i32, total_ticks: u32, remaining_ticks: u32, paid: int)
    requires
        step_charges(cost, total_ticks, remaining_ticks),
        remaining_ticks <= total_ticks,
    ensures
        0 <= paid_target(cost, total_ticks, remaining_ticks) <= cost,
        remaining_ticks == 1 ==> paid_target(cost, total_ticks, remaining_ticks) == cost,
        remaining_ticks > 1 ==> paid_target(cost, total_ticks, (remaining_ticks - 1) as u32)
            >= paid_target(cost, total_ticks, remaining_ticks),
        paid <= paid_target(cost, total_ticks, remaining_ticks) ==> paid + (paid_target(
            cost,
            total_ticks,
            remaining_ticks,
        ) - paid) == paid_target(cost, total_ticks, remaining_ticks),
{
    let c = total_ticks - remaining_ticks + 1;
    if !(remaining_ticks <= 1 || c >= total_ticks) {
        assert(0 <= (cost as int) * c / (total_ticks as int) <= cost) by (nonlinear_arith)
            requires
                cost > 0,
                0 < c < total_ticks,
        ;
    }
    if remaining_ticks > 1 {
        let c2 = c + 1;
        if !(remaining_ticks - 1 <= 1 || c2 >= total_ticks) {
            assert((cost as int) * c / (total_ticks as int) <= (cost as int) * c2 / (total_ticks as int))
                by (nonlinear_arith)
                requires
                    cost > 0,
                    0 < c < c2,
                    total_ticks > 0,
            ;
        } else if !(remaining_ticks <= 1 || c >= total_ticks) {
            assert((cost as int) * c / (total_ticks as int) <= cost) by (nonlinear_arith)
                requires
                    cost > 0,
                    0 < c < total_ticks,
            ;
        }
    }
}

/// Total paid after the first `k` steps of a build of `total_ticks` steps,
/// starting from nothing paid and paying each step's due.
pub open spec fn paid_after(cost: i32, total_ticks: u32, k: nat) -> int
    decreases k,
{
    if k == 0 {
        0
    } else {
        let p = paid_after(cost, total_ticks, (k - 1) as nat);
        p + step_due(cost, total_ticks, (total_ticks - (k - 1)) as u32, p)
    }
}

proof fn lemma_paid_after(cost: i32, total_ticks: u32, k: nat)
    requires
        cost > 0,
        1 <= k <= total_ticks,
    ensures
        paid_after(cost, total_ticks, k) == paid_target(cost, total_ticks, (total_ticks - k + 1) as u32),
        step_due(cost, total_ticks, (total_ticks - (k - 1)) as u32, paid_after(cost, total_ticks, (k - 1) as nat)) >= 0,
    decreases k,
{
    let r = (total_ticks - k + 1) as u32;
    law_production_pays_cost_exactly(cost, total_ticks, r, 0);
    let p = paid_after(cost, total_ticks, (k - 1) as nat);
    if k > 1 {
        lemma_paid_after(cost, total_ticks, (k - 1) as nat);
        let r1 = (r + 1) as u32;
        law_production_pays_cost_exactly(cost, total_ticks, r1, 0);
        assert((total_ticks - (k - 1) + 1) as u32 == r1);
        assert(p == paid_target(cost, total_ticks, r1));
        assert((r1 - 1) as u32 == r);
        assert(paid_target(cost, total_ticks, r) >= p);
    } else {
        assert(p == 0);
    }
    assert(step_charges(cost, total_ticks, r));
    assert(step_due(cost, total_ticks, r, p) == paid_target(cost, total_ticks, r) - p);
    assert((total_ticks - (k - 1)) as u32 == r);
}

/// A whole build pays exactly its cost: paying each step's due from the
/// first step (`remaining == total`) to the last (`remaining == 1`), no step
/// is negative and the total paid is the cost.
pub proof fn law_whole_build_pays_cost(cost: i32, total_ticks: u32)
    requires
        cost > 0,
        total_ticks > 0,
    ensures
        paid_after(cost, total_ticks, total_ticks as nat) == cost,
        forall|k: nat|
            1 <= k <= total_ticks ==> #[trigger] step_due(
                cost,
                total_ticks,
                (total_ticks - (k - 1)) as u32,
                paid_after(cost, total_ticks, (k - 1) as nat),
            ) >= 0,
{
    lemma_paid_after(cost, total_ticks, total_ticks as nat);
    law_production_pays_cost_exactly(cost, total_ticks, 1, 0);
    assert forall|k: nat| 1 <= k <= total_ticks implies #[trigger] step_due(
        cost,
        total_ticks,
        (total_ticks - (k - 1)) as u32,
        paid_after(cost, total_ticks, (k - 1) as nat),
    ) >= 0 by {
        lemma_paid_after(cost, total_ticks, k);
    }
}

/// An item in production on one track of a factory.
#[derive(Clone, Copy, Debug, PartialEq, Eq, Structural)]
pub struct ProductionSlot {
    pub type_id: u32,
    pub remaining_ticks: u32,
    pub total_ticks: u32,
    /// Funds paid so far.
    pub paid: i32,
}

/// What one production tick does to a track.
#[derive(Clone, Copy, Debug, PartialEq, Eq, Structural)]
pub struct SlotAdvance {
    /// The track afterwards.
    pub slot: Option<ProductionSlot>,
    /// Funds taken from the owner.
    pub charged: i32,
    /// Type finished on this tick.
    pub finished: Option<u32>,
}

/// Funds due for the next step of `s`, its type costing `cost`.
pub open spec fn slot_due(s: ProductionSlot, cost: i32) -> int {
    if step_charges(cost, s.total_ticks, s.remaining_ticks) {
        let t = paid_target(cost, s.total_ticks, s.remaining_ticks);
        if t >= s.paid {
            t - s.paid
        } else {
            0
        }
    } else {
        0
    }
}

/// `a + b` held at `i32::MAX`.
pub open spec fn add_capped(a: i32, b: int) -> i32 {
    if a + b > i32::MAX {
        i32::MAX
    } else {
        (a + b) as i32
    }
}

/// One production tick of track `slot` whose type costs `cost`, the owner
/// holding `funds`: nothing on a low-power house's odd ticks, on an empty
/// track, or when the step's due exceeds the funds; else the due is
/// charged and added to what was paid, and the track counts down, the item
/// finishing on its last step.
pub open spec fn slot_advanced(slot: Option<ProductionSlot>, cost: i32, funds: i32, low_power: bool, tick: u64) -> SlotAdvance {
    let idle = SlotAdvance { slot, charged: 0, finished: None };
    if low_power && tick % 2 == 1 {
        idle
    } else {
        match slot {
            None => idle,
            Some(s) => {
                let d = slot_due(s, cost);
                if d > 0 && funds < d {
                    idle
                } else if s.remaining_ticks > 1 {
                    SlotAdvance {
                        slot: Some(
                            ProductionSlot {
                                remaining_ticks: (s.remaining_ticks - 1) as u32,
                                paid: add_capped(s.paid, d),
                                ..s
                            },
                        ),
                        charged: d as i32,
                        finished: None,
                    }
                } else {
                    SlotAdvance { slot: None, charged: d as i32, finished: Some(s.type_id) }
                }
            },
        }
    }
}

/// Advances one factory track by one tick (see [`slot_advanced`]).
pub fn advance_factory_slot(slot: Option<ProductionSlot>, cost: i32, funds: i32, low_power: bool, tick: u64) -> (r: SlotAdvance)
    requires
        slot matches Some(s) ==> (step_charges(cost, s.total_ticks, s.remaining_ticks) ==> paid_target(
            cost,
            s.total_ticks,
            s.remaining_ticks,
        ) - s.paid <= i32::MAX),
    ensures
        r == slot_advanced(slot, cost, funds, low_power, tick),
{
    let idle = SlotAdvance { slot, charged: 0, finished: None };
    if low_power && tick % 2 == 1 {
        return idle;
    }
    let s = match slot {
        Some(s) => s,
        None => {
            return idle;
        },
    };
    let due = produce_step_due(cost, s.total_ticks, s.remaining_ticks, s.paid);
    if due > 0 && funds < due {
        return idle;
    }
    if s.remaining_ticks > 1 {
        let paid = if s.paid > i32::MAX - due {
            i32::MAX
        } else {
            s.paid + due
        };
        SlotAdvance {
            slot: Some(ProductionSlot { remaining_ticks: s.remaining_ticks - 1, paid, ..s }),
            charged: due,
            finished: None,
        }
    } else {
        SlotAdvance { slot: None, charged: due, finished: Some(s.type_id) }
    }
}

} // verus!
