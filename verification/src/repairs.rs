//! Repairs with the sidebar wrench: on each repair pulse every building
//! under repair heals a step and its owner pays the step's share of the
//! repair cost (`[General]` `RepairPercent`, `RepairRate`, `RepairStep`).

use vstd::prelude::*;

use crate::key_order::{compare_keys, KeyOrder};

verus! {

/// Hit points of an entity.
#[derive(Clone, Copy, Debug, PartialEq, Eq, Structural)]
pub struct HealthState {
    pub current: u32,
    pub maximum: u32,
    pub dead: bool,
}

/// An entity marked as under repair.
#[derive(Clone, Debug)]
pub struct RepairingEntity {
    pub id: u64,
    /// Whether its identity says it is a structure (none: no identity).
    pub structure: Option<bool>,
    pub health: Option<HealthState>,
    /// Owning house, if any.
    pub owner: Option<String>,
    /// Cost of its type, when the type is known.
    pub cost: Option<i32>,
}

/// A house's purse.
#[derive(Clone, Debug)]
pub struct HouseAccount {
    pub house: String,
    pub funds: i32,
    /// Funds spent so far.
    pub spent: i32,
}

/// The repair rules of `[General]`.
#[derive(Clone, Copy, Debug)]
pub struct RepairRules {
    /// Ticks between repair pulses.
    pub interval_ticks: u64,
    /// Hit points healed per pulse.
    pub step: u32,
    /// Percent of the type's cost that a full repair costs.
    pub percent: u32,
}

/// An entity under repair as plain values.
pub struct RepairView {
    pub id: u64,
    pub structure: Option<bool>,
    pub health: Option<HealthState>,
    pub owner: Option<Seq<char>>,
    pub cost: Option<i32>,
}

/// The entities as plain values.
pub open spec fn repair_views(es: Seq<RepairingEntity>) -> Seq<RepairView> {
    es.map_values(
        |e: RepairingEntity|
            RepairView {
                id: e.id,
                structure: e.structure,
                health: e.health,
                owner: match e.owner {
                    Some(h) => Some(h@),
                    None => None,
                },
                cost: e.cost,
            },
    )
}

/// A purse as plain values.
pub struct AccountView {
    pub house: Seq<char>,
    pub funds: i32,
    pub spent: i32,
}

/// The purses as plain values.
pub open spec fn account_views(a: Seq<HouseAccount>) -> Seq<AccountView> {
    a.map_values(|p: HouseAccount| AccountView { house: p.house@, funds: p.funds, spent: p.spent })
}

/// Whether `tick` is a repair pulse: a nonzero multiple of the interval
/// (at least 1).
pub open spec fn is_repair_pulse(tick: u64, interval: u64) -> bool {
    let iv = if interval > 1 {
        interval
    } else {
        1
    };
    tick != 0 && tick % iv == 0
}

/// What the first look at an entity under repair decides.
pub enum RepairTriage {
    /// No identity: left alone.
    Skip,
    /// Not a structure, gone, at full health or without an owner: repair
    /// ends.
    Stop,
    /// Repaired on this pulse.
    Job,
}

/// The first look at `e`.
pub open spec fn triage(e: RepairView) -> RepairTriage {
    match e.structure {
        None => RepairTriage::Skip,
        Some(false) => RepairTriage::Stop,
        Some(true) => match e.health {
            None => RepairTriage::Stop,
            Some(h) => if h.dead || h.current >= h.maximum || h.maximum == 0 {
                RepairTriage::Stop
            } else if e.owner is None {
                RepairTriage::Stop
            } else {
                RepairTriage::Job
            },
        },
    }
}

/// Indices of the entities repaired this pulse, and the ids whose repair
/// ends at the first look, both in order.
pub open spec fn first_look(es: Seq<RepairView>) -> (Seq<int>, Seq<u64>)
    decreases es.len(),
{
    if es.len() == 0 {
        (Seq::empty(), Seq::empty())
    } else {
        let (jobs, stops) = first_look(es.drop_last());
        match triage(es.last()) {
            RepairTriage::Skip => (jobs, stops),
            RepairTriage::Stop => (jobs, stops.push(es.last().id)),
            RepairTriage::Job => (jobs.push(es.len() - 1), stops),
        }
    }
}

/// First purse of `house` (exact name).
pub open spec fn account_of(a: Seq<AccountView>, house: Seq<char>) -> Option<int>
    decreases a.len(),
{
    if a.len() == 0 {
        None
    } else {
        match account_of(a.drop_last(), house) {
            Some(i) => Some(i),
            None => if a.last().house == house {
                Some(a.len() - 1)
            } else {
                None
            },
        }
    }
}

/// Hit points healed: the step (at least 1), no more than is missing.
pub open spec fn heal_amount(h: HealthState, step: u32) -> int {
    let s = if step > 1 {
        step as int
    } else {
        1
    };
    let missing = if h.maximum >= h.current {
        h.maximum - h.current
    } else {
        0
    };
    if s < missing {
        s
    } else {
        missing
    }
}

/// The type's cost as charged (negative and unknown costs are free).
pub open spec fn charged_cost(cost: Option<i32>) -> nat {
    match cost {
        Some(c) => if c > 0 {
            c as nat
        } else {
            0
        },
        None => 0,
    }
}

/// The fee of healing `heal` points of a building with `maximum` points:
/// its share of `cost * percent / 100`, rounded down and taken as an `i32`.
pub open spec fn repair_fee(cost: nat, percent: u32, heal: int, maximum: u32) -> i32 {
    if cost == 0 || percent == 0 {
        0
    } else {
        let m: int = if maximum > 1 {
            maximum as int
        } else {
            1
        };
        (((cost * percent * heal) / (100 * m)) as u64) as i32
    }
}

/// `a + b` held at `i32::MAX` (`b` not negative).
pub open spec fn plus_capped(a: i32, b: i32) -> i32 {
    if a + b > i32::MAX {
        i32::MAX
    } else {
        (a + b) as i32
    }
}

/// Entities, purses and ended repairs after the repair job of `es[j]`: with
/// no purse of its owner the repair ends; else the heal is paid (the repair
/// ends, unhealed, when the purse is short of a positive fee), the
/// building heals, and the repair ends once it is at full health.
pub open spec fn repair_job(
    es: Seq<RepairView>,
    accts: Seq<AccountView>,
    stops: Seq<u64>,
    j: int,
    rules: RepairRules,
) -> (Seq<RepairView>, Seq<AccountView>, Seq<u64>) {
    let e = es[j];
    let h = e.health.unwrap();
    match account_of(accts, e.owner.unwrap()) {
        None => (es, accts, stops.push(e.id)),
        Some(p) => {
            let heal = heal_amount(h, rules.step);
            let fee = repair_fee(charged_cost(e.cost), rules.percent, heal, h.maximum);
            if heal == 0 {
                (es, accts, stops.push(e.id))
            } else if fee > 0 && accts[p].funds < fee {
                (es, accts, stops.push(e.id))
            } else {
                let a = accts[p];
                let accts1 = if fee > 0 {
                    accts.update(p, AccountView { funds: (a.funds - fee) as i32, spent: plus_capped(a.spent, fee), ..a })
                } else {
                    accts
                };
                let cur = if h.current + heal > h.maximum {
                    h.maximum
                } else {
                    (h.current + heal) as u32
                };
                let es1 = es.update(j, RepairView { health: Some(HealthState { current: cur, ..h }), ..e });
                if cur >= h.maximum {
                    (es1, accts1, stops.push(e.id))
                } else {
                    (es1, accts1, stops)
                }
            }
        },
    }
}

/// The repair jobs `jobs` done in order.
pub open spec fn repair_jobs(
    es: Seq<RepairView>,
    accts: Seq<AccountView>,
    stops: Seq<u64>,
    jobs: Seq<int>,
    rules: RepairRules,
) -> (Seq<RepairView>, Seq<AccountView>, Seq<u64>)
    decreases jobs.len(),
{
    if jobs.len() == 0 {
        (es, accts, stops)
    } else {
        let (es1, a1, s1) = repair_jobs(es, accts, stops, jobs.drop_last(), rules);
        repair_job(es1, a1, s1, jobs.last(), rules)
    }
}

/// Costs are small enough that no fee computation overflows.
pub open spec fn fees_fit(es: Seq<RepairView>, rules: RepairRules) -> bool {
    forall|i: int|
        0 <= i < es.len() ==> charged_cost((#[trigger] es[i]).cost) * rules.percent * (if rules.step > 1 {
            rules.step as int
        } else {
            1
        }) <= u64::MAX
}

pub(crate) fn find_account(accts: &Vec<HouseAccount>, house: &str) -> (r: Option<usize>)
    ensures
        match r {
            Some(i) => account_of(account_views(accts@), house@) == Some(i as int) && i < accts@.len(),
            None => account_of(account_views(accts@), house@) is None,
        },
{
    let ghost a = account_views(accts@);
    let mut i: usize = 0;
    while i < accts.len()
        invariant
            i <= accts@.len(),
            a == account_views(accts@),
            account_of(a.take(i as int), house@) is None,
        decreases accts@.len() - i,
    {
        proof {
            assert(a.take(i + 1).drop_last() =~= a.take(i as int));
            assert(a.take(i + 1).last() == a[i as int]);
        }
        if compare_keys(accts[i].house.as_str(), house) == KeyOrder::Same {
            proof {
                lemma_account_prefix(a, house@, i + 1);
            }
            return Some(i);
        }
        i = i + 1;
    }
    assert(a.take(i as int) =~= a);
    None
}

proof fn lemma_account_prefix(a: Seq<AccountView>, house: Seq<char>, k: int)
    requires
        0 <= k <= a.len(),
        account_of(a.take(k), house) is Some,
    ensures
        account_of(a, house) == account_of(a.take(k), house),
    decreases a.len() - k,
{
    if k < a.len() {
        assert(a.take(k + 1).drop_last() =~= a.take(k));
        lemma_account_prefix(a, house, k + 1);
    } else {
        assert(a.take(k) =~= a);
    }
}

proof fn lemma_first_look_jobs(es: Seq<RepairView>)
    ensures
        forall|q: int|
            0 <= q < first_look(es).0.len() ==> 0 <= #[trigger] first_look(es).0[q] < es.len() && triage(
                es[first_look(es).0[q]],
            ) == RepairTriage::Job,
        forall|q1: int, q2: int|
            0 <= q1 < q2 < first_look(es).0.len() ==> #[trigger] first_look(es).0[q1] < #[trigger] first_look(es).0[q2],
    decreases es.len(),
{
    if es.len() > 0 {
        lemma_first_look_jobs(es.drop_last());
        let init = es.drop_last();
        assert forall|q1: int, q2: int|
            0 <= q1 < q2 < first_look(es).0.len() implies #[trigger] first_look(es).0[q1] < #[trigger] first_look(es).0[q2] by {
            let j0 = first_look(init).0;
            if q2 < j0.len() {
                assert(first_look(es).0[q1] == j0[q1]);
                assert(first_look(es).0[q2] == j0[q2]);
            } else {
                assert(first_look(es).0[q1] == j0[q1]);
                assert(0 <= j0[q1] < init.len());
            }
        }
        assert forall|q: int| 0 <= q < first_look(es).0.len() implies 0 <= #[trigger] first_look(es).0[q] < es.len()
            && triage(es[first_look(es).0[q]]) == RepairTriage::Job by {
            if q < first_look(init).0.len() {
                assert(es[first_look(init).0[q]] == init[first_look(init).0[q]]);
            }
        }
    }
}

/// The first look at the entities under repair.
fn triage_all(es: &Vec<RepairingEntity>) -> (r: (Vec<usize>, Vec<u64>))
    ensures
        r.0@.map_values(|x: usize| x as int) == first_look(repair_views(es@)).0,
        r.1@ == first_look(repair_views(es@)).1,
{
    let ghost v = repair_views(es@);
    let mut jobs: Vec<usize> = Vec::new();
    let mut stops: Vec<u64> = Vec::new();
    let mut i: usize = 0;
    while i < es.len()
        invariant
            i <= es@.len(),
            v == repair_views(es@),
            jobs@.map_values(|x: usize| x as int) == first_look(v.take(i as int)).0,
            stops@ == first_look(v.take(i as int)).1,
        decreases es@.len() - i,
    {
        let e = &es[i];
        proof {
            assert(v.take(i + 1).drop_last() =~= v.take(i as int));
            assert(v.take(i + 1).last() == v[i as int]);
        }
        let ghost j0 = jobs@;
        match e.structure {
            None => {},
            Some(false) => {
                stops.push(e.id);
            },
            Some(true) => match e.health {
                None => {
                    stops.push(e.id);
                },
                Some(h) => {
                    if h.dead || h.current >= h.maximum || h.maximum == 0 || e.owner.is_none() {
                        stops.push(e.id);
                    } else {
                        jobs.push(i);
                        assert(jobs@.map_values(|x: usize| x as int) =~= j0.map_values(|x: usize| x as int).push(
                            i as int,
                        ));
                    }
                },
            },
        }
        i = i + 1;
    }
    assert(v.take(i as int) =~= v);
    (jobs, stops)
}

/// The repair job of entity `j` (see [`repair_job`]).
fn do_repair_job(
    es: &mut Vec<RepairingEntity>,
    accts: &mut Vec<HouseAccount>,
    stops: &mut Vec<u64>,
    j: usize,
    rules: RepairRules,
)
    requires
        j < old(es)@.len(),
        triage(repair_views(old(es)@)[j as int]) == RepairTriage::Job,
        fees_fit(repair_views(old(es)@), rules),
    ensures
        (repair_views(final(es)@), account_views(final(accts)@), final(stops)@) == repair_job(
            repair_views(old(es)@),
            account_views(old(accts)@),
            old(stops)@,
            j as int,
            rules,
        ),
        final(es)@.len() == old(es)@.len(),
        forall|k: int| 0 <= k < old(es)@.len() && k != j ==> #[trigger] final(es)@[k] == old(es)@[k],
        final(es)@[j as int].structure == old(es)@[j as int].structure,
        final(es)@[j as int].cost == old(es)@[j as int].cost,
        final(es)@[j as int].id == old(es)@[j as int].id,
{
    let ghost v = repair_views(es@);
    let ghost av = account_views(accts@);
    assert(v[j as int].owner == Some(es@[j as int].owner.unwrap()@));
    let p = match es[j].owner.as_ref() {
        Some(h) => find_account(accts, h.as_str()),
        None => None,
    };
    let p = match p {
        Some(p) => p,
        None => {
            stops.push(es[j].id);
            return;
        },
    };
    let h = match es[j].health {
        Some(h) => h,
        None => {
            return;
        },
    };
    let step: u32 = if rules.step > 1 {
        rules.step
    } else {
        1
    };
    let missing: u32 = h.maximum - h.current;
    let heal: u32 = if step < missing {
        step
    } else {
        missing
    };
    let cost: u32 = match es[j].cost {
        Some(c) => if c > 0 {
            c as u32
        } else {
            0
        },
        None => 0,
    };
    let fee: i32 = if cost == 0 || rules.percent == 0 {
        0
    } else {
        let m: u64 = if h.maximum > 1 {
            h.maximum as u64
        } else {
            1
        };
        proof {
            assert(v[j as int].cost == es@[j as int].cost);
            let c = cost as int;
            let pc = rules.percent as int;
            let hl = heal as int;
            let st = step as int;
            assert(c * pc * st <= u64::MAX);
            assert(c * pc * hl <= c * pc * st) by (nonlinear_arith)
                requires
                    0 <= hl <= st,
                    0 <= c,
                    0 <= pc,
            ;
            assert(0 <= c * pc) by (nonlinear_arith)
                requires
                    0 <= c,
                    0 <= pc,
            ;
            assert(c * pc <= c * pc * st) by (nonlinear_arith)
                requires
                    1 <= st,
                    0 <= c * pc,
            ;
        }
        let total: u64 = cost as u64 * rules.percent as u64 * heal as u64;
        #[verifier::truncate]
        ((total / (100 * m)) as i32)
    };
    if heal == 0 {
        stops.push(es[j].id);
        return;
    }
    if fee > 0 && accts[p].funds < fee {
        stops.push(es[j].id);
        return;
    }
    if fee > 0 {
        let a = &accts[p];
        let spent = if a.spent > i32::MAX - fee {
            i32::MAX
        } else {
            a.spent + fee
        };
        let na = HouseAccount { house: a.house.as_str().to_owned(), funds: a.funds - fee, spent };
        accts.set(p, na);
        proof {
            assert(account_views(accts@) =~= av.update(
                p as int,
                AccountView { funds: (av[p as int].funds - fee) as i32, spent: plus_capped(av[p as int].spent, fee), ..av[p as int] },
            ));
        }
    }
    let cur: u32 = h.current + heal;
    let e = &es[j];
    let ne = RepairingEntity {
        id: e.id,
        structure: e.structure,
        health: Some(HealthState { current: cur, ..h }),
        owner: match &e.owner {
            Some(o) => Some(o.as_str().to_owned()),
            None => None,
        },
        cost: e.cost,
    };
    es.set(j, ne);
    proof {
        assert(repair_views(es@) =~= v.update(j as int, RepairView { health: Some(HealthState { current: cur, ..h }), ..v[j as int] }));
    }
    if cur >= h.maximum {
        stops.push(es[j].id);
    }
}

/// Entities, purses and ended repairs after one tick: nothing happens off
/// the repair pulse; on it, the first look sorts the entities (see
/// [`first_look`]) and the repair jobs run in order (see [`repair_jobs`]).
pub open spec fn repairs_after(
    es: Seq<RepairView>,
    accts: Seq<AccountView>,
    rules: RepairRules,
    tick: u64,
) -> (Seq<RepairView>, Seq<AccountView>, Seq<u64>) {
    if !is_repair_pulse(tick, rules.interval_ticks) {
        (es, accts, Seq::empty())
    } else {
        let (jobs, stops) = first_look(es);
        repair_jobs(es, accts, stops, jobs, rules)
    }
}

/// One tick of repairs (see [`repairs_after`]); returns the ids whose
/// repair ends, in order (an id may come twice).
pub fn tick_repairs(es: &mut Vec<RepairingEntity>, accts: &mut Vec<HouseAccount>, rules: RepairRules, tick: u64) -> (stops: Vec<
    u64,
>)
    requires
        fees_fit(repair_views(old(es)@), rules),
    ensures
        (repair_views(final(es)@), account_views(final(accts)@), stops@) == repairs_after(
            repair_views(old(es)@),
            account_views(old(accts)@),
            rules,
            tick,
        ),
{
    let interval: u64 = if rules.interval_ticks > 1 {
        rules.interval_ticks
    } else {
        1
    };
    if tick == 0 || tick % interval != 0 {
        return Vec::new();
    }
    let ghost v0 = repair_views(es@);
    let ghost a0 = account_views(accts@);
    let (jobs, mut stops) = triage_all(es);
    let ghost jv = jobs@.map_values(|x: usize| x as int);
    proof {
        lemma_first_look_jobs(v0);
    }
    let ghost s0 = stops@;
    let mut g: usize = 0;
    while g < jobs.len()
        invariant
            g <= jobs@.len(),
            jv == jobs@.map_values(|x: usize| x as int),
            jv == first_look(v0).0,
            s0 == first_look(v0).1,
            v0 == repair_views(old(es)@),
            es@.len() == old(es)@.len(),
            fees_fit(v0, rules),
            forall|k: int| 0 <= k < es@.len() ==> (#[trigger] es@[k]).cost == old(es)@[k].cost,
            forall|q: int| g <= q < jobs@.len() ==> es@[#[trigger] jv[q]] == old(es)@[jv[q]],
            forall|q: int|
                0 <= q < jv.len() ==> 0 <= #[trigger] jv[q] < v0.len() && triage(v0[jv[q]]) == RepairTriage::Job,
            forall|q1: int, q2: int| 0 <= q1 < q2 < jv.len() ==> #[trigger] jv[q1] < #[trigger] jv[q2],
            (repair_views(es@), account_views(accts@), stops@) == repair_jobs(v0, a0, s0, jv.take(g as int), rules),
        decreases jobs@.len() - g,
    {
        let j = jobs[g];
        proof {
            assert(jv[g as int] == j as int);
            assert(es@[j as int] == old(es)@[j as int]);
            assert(repair_views(es@)[j as int] == v0[j as int]);
            assert forall|i: int| 0 <= i < repair_views(es@).len() implies charged_cost(
                (#[trigger] repair_views(es@)[i]).cost,
            ) * rules.percent * (if rules.step > 1 {
                rules.step as int
            } else {
                1
            }) <= u64::MAX by {
                assert(repair_views(es@)[i].cost == v0[i].cost);
            }
            assert(jv.take(g + 1).drop_last() =~= jv.take(g as int));
            assert(jv.take(g + 1).last() == j as int);
        }
        let ghost es_before = es@;
        do_repair_job(es, accts, &mut stops, j, rules);
        proof {
            assert forall|q: int| g + 1 <= q < jobs@.len() implies es@[#[trigger] jv[q]] == old(es)@[jv[q]] by {
                assert(jv[g as int] < jv[q]);
                assert(es@[jv[q]] == es_before[jv[q]]);
            }
            assert forall|k: int| 0 <= k < es@.len() implies (#[trigger] es@[k]).cost == old(es)@[k].cost by {
                if k != j {
                    assert(es@[k] == es_before[k]);
                }
            }
        }
        g = g + 1;
    }
    proof {
        assert(jv.take(g as int) =~= jv);
    }
    stops
}

} // verus!
