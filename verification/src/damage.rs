//! Damage taken by an entity, the kill it may credit to the attacking
//! house, and the attackers left without a target.

use vstd::prelude::*;

use crate::entities::{is_mobile, mobile, EntityKind};
use crate::repairs::HealthState;
use crate::text::{eq_ignore_ascii_case, text_eq_ignore_ascii_case};

verus! {

/// An entity as damage reads it.
#[derive(Clone, Debug)]
pub struct DamageTarget {
    pub health: Option<HealthState>,
    /// Key of the owning house, if any.
    pub house: Option<String>,
    pub kind: Option<EntityKind>,
    /// Its type is known.
    pub typed: bool,
    pub cell: Option<(u16, u16)>,
}

/// Kills scored by a house.
#[derive(Clone, Debug)]
pub struct KillTally {
    pub house: String,
    pub kills: u32,
}

/// What a hit did.
#[derive(Clone, Copy, Debug, PartialEq, Eq, Structural)]
pub enum DamageOutcome {
    /// Nothing: no damage, a dead or incomplete target.
    Ignored,
    /// Damaged and still alive.
    Hit { structure: bool },
    /// Killed; `credited` is the tally that scored it, if any.
    Killed { structure: bool, mobile: bool, credited: Option<usize> },
}

/// A target takes damage: alive, with an owner, a kind, a type and a cell.
pub open spec fn damageable(t: DamageTarget) -> bool {
    &&& t.health matches Some(h) && !h.dead
    &&& t.house is Some
    &&& t.kind is Some
    &&& t.typed
    &&& t.cell is Some
}

/// Hit points after `amount` damage (never below zero).
pub open spec fn after_damage(h: HealthState, amount: u32) -> HealthState {
    let cur: u32 = if h.current > amount {
        (h.current - amount) as u32
    } else {
        0
    };
    HealthState { current: cur, dead: if cur == 0 {
        true
    } else {
        h.dead
    }, ..h }
}

/// First tally of `house` (ASCII case ignored).
pub open spec fn tally_of(ts: Seq<KillTally>, house: Seq<char>) -> Option<int>
    decreases ts.len(),
{
    if ts.len() == 0 {
        None
    } else {
        match tally_of(ts.drop_last(), house) {
            Some(i) => Some(i),
            None => if text_eq_ignore_ascii_case(ts.last().house@, house) {
                Some(ts.len() - 1)
            } else {
                None
            },
        }
    }
}

/// The tally credited with a kill of a unit of `victim` by `killer`: the
/// killer's own, when it is another house (exact name) and has one.
pub open spec fn credited_tally(ts: Seq<KillTally>, killer: Option<Seq<char>>, victim: Seq<char>) -> Option<int> {
    match killer {
        Some(k) => if k != victim {
            tally_of(ts, k)
        } else {
            None
        },
        None => None,
    }
}

fn find_tally(ts: &Vec<KillTally>, house: &str) -> (r: Option<usize>)
    ensures
        match r {
            Some(i) => tally_of(ts@, house@) == Some(i as int) && i < ts@.len(),
            None => tally_of(ts@, house@) is None,
        },
{
    let mut i: usize = 0;
    while i < ts.len()
        invariant
            i <= ts@.len(),
            tally_of(ts@.take(i as int), house@) is None,
        decreases ts@.len() - i,
    {
        proof {
            assert(ts@.take(i + 1).drop_last() =~= ts@.take(i as int));
            assert(ts@.take(i + 1).last() == ts@[i as int]);
        }
        if eq_ignore_ascii_case(ts[i].house.as_str(), house) {
            proof {
                lemma_tally_prefix(ts@, house@, i + 1);
            }
            return Some(i);
        }
        i = i + 1;
    }
    assert(ts@.take(i as int) =~= ts@);
    None
}

proof fn lemma_tally_prefix(ts: Seq<KillTally>, house: Seq<char>, k: int)
    requires
        0 <= k <= ts.len(),
        tally_of(ts.take(k), house) is Some,
    ensures
        tally_of(ts, house) == tally_of(ts.take(k), house),
    decreases ts.len() - k,
{
    if k < ts.len() {
        assert(ts.take(k + 1).drop_last() =~= ts.take(k));
        lemma_tally_prefix(ts, house, k + 1);
    } else {
        assert(ts.take(k) =~= ts);
    }
}

/// Applies `amount` damage to `targets[index]`, crediting a kill to the
/// tally of `killer_house` when that is another house. Nothing happens for
/// no damage, an index out of range, or a target that is not damageable.
pub fn apply_damage_credited(
    targets: &mut Vec<DamageTarget>,
    index: usize,
    amount: u32,
    killer_house: Option<&str>,
    tallies: &mut Vec<KillTally>,
) -> (r: DamageOutcome)
    ensures
        index >= old(targets)@.len() || amount == 0 || !damageable(old(targets)@[index as int]) ==> {
            &&& r == DamageOutcome::Ignored
            &&& final(targets)@ == old(targets)@
            &&& final(tallies)@ == old(tallies)@
        },
        index < old(targets)@.len() && amount > 0 && damageable(old(targets)@[index as int]) ==> {
            let t = old(targets)@[index as int];
            let h = after_damage(t.health.unwrap(), amount);
            let structure = t.kind == Some(EntityKind::Structure);
            let victim = t.house.unwrap()@;
            let killer = match killer_house {
                Some(k) => Some(k@),
                None => None,
            };
            &&& final(targets)@.len() == old(targets)@.len()
            &&& forall|k: int| 0 <= k < old(targets)@.len() && k != index ==> #[trigger] final(targets)@[k] == old(targets)@[k]
            &&& final(targets)@[index as int].health == Some(h)
            &&& final(targets)@[index as int].kind == t.kind
            &&& final(targets)@[index as int].typed == t.typed
            &&& final(targets)@[index as int].cell == t.cell
            &&& final(targets)@[index as int].house.unwrap()@ == victim
            &&& if h.current > 0 {
                &&& r == DamageOutcome::Hit { structure }
                &&& final(tallies)@ == old(tallies)@
            } else {
                let c = credited_tally(old(tallies)@, killer, victim);
                &&& r == DamageOutcome::Killed { structure, mobile: mobile(t.kind.unwrap()), credited: match c {
                    Some(i) => Some(i as usize),
                    None => None,
                } }
                &&& final(tallies)@.len() == old(tallies)@.len()
                &&& forall|k: int| 0 <= k < old(tallies)@.len() && c != Some(k) ==> #[trigger] final(tallies)@[k] == old(tallies)@[k]
                &&& c matches Some(i) ==> final(tallies)@[i].house@ == old(tallies)@[i].house@ && final(tallies)@[i].kills
                    == if old(tallies)@[i].kills == u32::MAX {
                    u32::MAX
                } else {
                    (old(tallies)@[i].kills + 1) as u32
                }
            }
        },
{
    if index >= targets.len() || amount == 0 {
        return DamageOutcome::Ignored;
    }
    let t = &targets[index];
    let h = match t.health {
        Some(h) => h,
        None => {
            return DamageOutcome::Ignored;
        },
    };
    if h.dead || !t.typed || t.cell.is_none() {
        return DamageOutcome::Ignored;
    }
    let kind = match t.kind {
        Some(k) => k,
        None => {
            return DamageOutcome::Ignored;
        },
    };
    let house = match &t.house {
        Some(hs) => hs.as_str().to_owned(),
        None => {
            return DamageOutcome::Ignored;
        },
    };
    let cur: u32 = if h.current > amount {
        h.current - amount
    } else {
        0
    };
    let nh = HealthState { current: cur, dead: if cur == 0 {
        true
    } else {
        h.dead
    }, ..h };
    let nt = DamageTarget {
        health: Some(nh),
        house: Some(house.as_str().to_owned()),
        kind: t.kind,
        typed: t.typed,
        cell: t.cell,
    };
    targets.set(index, nt);
    let structure = match kind {
        EntityKind::Structure => true,
        _ => false,
    };
    if cur > 0 {
        return DamageOutcome::Hit { structure };
    }
    let mut credited: Option<usize> = None;
    if let Some(k) = killer_house {
        let same = crate::key_order::compare_keys(k, house.as_str()) == crate::key_order::KeyOrder::Same;
        if !same {
            if let Some(i) = find_tally(tallies, k) {
                let tl = &tallies[i];
                let kills = if tl.kills == u32::MAX {
                    u32::MAX
                } else {
                    tl.kills + 1
                };
                let nt = KillTally { house: tl.house.as_str().to_owned(), kills };
                tallies.set(i, nt);
                credited = Some(i);
            }
        }
    }
    DamageOutcome::Killed { structure, mobile: is_mobile(kind), credited }
}

/// Indices of the entities whose attack target is `dead`, in order.
pub open spec fn attackers_of(targets: Seq<Option<u64>>, dead: u64) -> Seq<int>
    decreases targets.len(),
{
    if targets.len() == 0 {
        Seq::empty()
    } else {
        let rest = attackers_of(targets.drop_last(), dead);
        if targets.last() == Some(dead) {
            rest.push(targets.len() - 1)
        } else {
            rest
        }
    }
}

/// The entities (by their attack target, in entity order) left without a
/// target by the death of `dead`.
pub fn attackers_targeting(targets: &[Option<u64>], dead: u64) -> (r: Vec<usize>)
    ensures
        r@.map_values(|i: usize| i as int) == attackers_of(targets@, dead),
{
    let mut r: Vec<usize> = Vec::new();
    let mut i: usize = 0;
    while i < targets.len()
        invariant
            i <= targets@.len(),
            r@.map_values(|i: usize| i as int) == attackers_of(targets@.take(i as int), dead),
        decreases targets@.len() - i,
    {
        proof {
            assert(targets@.take(i + 1).drop_last() =~= targets@.take(i as int));
            assert(targets@.take(i + 1).last() == targets@[i as int]);
        }
        let hit = match targets[i] {
            Some(t) => t == dead,
            None => false,
        };
        if hit {
            let ghost r0 = r@;
            r.push(i);
            assert(r@.map_values(|i: usize| i as int) =~= r0.map_values(|i: usize| i as int).push(i as int));
        }
        i = i + 1;
    }
    assert(targets@.take(i as int) =~= targets@);
    r
}

} // verus!
