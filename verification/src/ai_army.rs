//! The skirmish AI's army: counting its combatants and sending idle ones
//! at the nearest enemy.

use vstd::prelude::*;

use crate::ai::HouseTypeKey;
use crate::entities::{is_mobile, mobile, EntityKind};
use crate::house_actions::{house_key, manhattan};
use crate::players::{allied, house_list_allows, houses_are_allied, list_has_house, PlayerState};

verus! {

/// An entity as the AI's army orders read it.
#[derive(Clone, Copy, Debug)]
pub struct ArmyUnit {
    pub id: u64,
    /// Has health and is not dead.
    pub alive: bool,
    /// Owning house id, if any.
    pub owner: Option<u32>,
    /// Kind from its identity (none: no identity).
    pub kind: Option<EntityKind>,
    /// Damage of its weapon, when it has combat stats.
    pub attack_damage: Option<u32>,
    /// It is attacking something already.
    pub has_target: bool,
    /// The map placed it on guard duty.
    pub guarding: bool,
    pub cell: Option<(u16, u16)>,
}

/// A combatant of house `house`: a living mobile unit of it with a weapon
/// that does damage.
pub open spec fn combatant_of(u: ArmyUnit, house: Option<u32>) -> bool {
    &&& u.alive
    &&& u.owner is Some && u.owner == house
    &&& u.kind matches Some(k) && mobile(k)
    &&& u.attack_damage matches Some(d) && d > 0
}

/// Number of combatants of `house` among `us`.
pub open spec fn combatant_count(us: Seq<ArmyUnit>, house: Option<u32>) -> nat
    decreases us.len(),
{
    if us.len() == 0 {
        0
    } else {
        combatant_count(us.drop_last(), house) + if combatant_of(us.last(), house) {
            1nat
        } else {
            0nat
        }
    }
}

proof fn lemma_count_bound(us: Seq<ArmyUnit>, house: Option<u32>)
    ensures
        combatant_count(us, house) <= us.len(),
    decreases us.len(),
{
    if us.len() > 0 {
        lemma_count_bound(us.drop_last(), house);
    }
}

/// Number of living mobile combatants of house `house` (its id, if known).
pub fn count_mobile_combatants(us: &[ArmyUnit], house: Option<u32>) -> (n: usize)
    ensures
        n == combatant_count(us@, house),
{
    let mut n: usize = 0;
    let mut i: usize = 0;
    while i < us.len()
        invariant
            i <= us@.len(),
            n == combatant_count(us@.take(i as int), house),
        decreases us@.len() - i,
    {
        proof {
            assert(us@.take(i + 1).drop_last() =~= us@.take(i as int));
            assert(us@.take(i + 1).last() == us@[i as int]);
            lemma_count_bound(us@.take(i as int), house);
        }
        let u = us[i];
        let owned = match (u.owner, house) {
            (Some(o), Some(h)) => o == h,
            _ => false,
        };
        let mob = match u.kind {
            Some(k) => is_mobile(k),
            None => false,
        };
        let armed = match u.attack_damage {
            Some(d) => d > 0,
            None => false,
        };
        if u.alive && owned && mob && armed {
            n = n + 1;
        }
        i = i + 1;
    }
    assert(us@.take(i as int) =~= us@);
    n
}

/// Unit `u` counts as an enemy of house `house` (id `house_id`): alive and
/// placed, and not owned by that house, an ally of it or an ambient house
/// (an entity without an owner counts as an enemy).
pub open spec fn enemy_of(
    u: ArmyUnit,
    houses: Seq<HouseTypeKey>,
    players: Seq<PlayerState>,
    ambient: Seq<String>,
    house: Seq<char>,
    house_id: Option<u32>,
) -> bool {
    &&& u.alive
    &&& match u.owner {
        Some(o) => house_id != Some(o) && !allied(players, house, house_key(houses, o)) && !list_has_house(
            ambient,
            house_key(houses, o),
        ),
        None => true,
    }
    &&& u.cell is Some
}

/// The first enemy of `house` nearest to `(fx, fy)` (Manhattan distance)
/// among `us` other than index `from`, with its distance.
pub open spec fn nearest_enemy_of(
    us: Seq<ArmyUnit>,
    from: int,
    houses: Seq<HouseTypeKey>,
    players: Seq<PlayerState>,
    ambient: Seq<String>,
    house: Seq<char>,
    house_id: Option<u32>,
    fx: u16,
    fy: u16,
) -> Option<(int, int)>
    decreases us.len(),
{
    if us.len() == 0 {
        None
    } else {
        let b = nearest_enemy_of(us.drop_last(), from, houses, players, ambient, house, house_id, fx, fy);
        let k = us.len() - 1;
        let u = us.last();
        if k != from && enemy_of(u, houses, players, ambient, house, house_id) {
            let d = manhattan(fx, fy, u.cell.unwrap().0, u.cell.unwrap().1);
            match b {
                Some(bd) => if d < bd.0 {
                    Some((d, k))
                } else {
                    b
                },
                None => Some((d, k)),
            }
        } else {
            b
        }
    }
}

fn key_of(houses: &[HouseTypeKey], id: u32) -> (k: String)
    ensures
        k@ == house_key(houses@, id),
{
    match crate::ai::find_house_with_id(houses, id) {
        Some(i) => houses[i].type_key.as_str().to_owned(),
        None => {
            let k = String::new();
            assert(k@ =~= Seq::<char>::empty());
            k
        },
    }
}

/// Index of the enemy of `house` nearest to unit `from` (see
/// [`nearest_enemy_of`]); none when `from` has no position.
pub fn nearest_enemy(
    us: &[ArmyUnit],
    from: usize,
    houses: &[HouseTypeKey],
    players: &[PlayerState],
    ambient: &[String],
    house: &str,
    house_id: Option<u32>,
) -> (r: Option<usize>)
    requires
        from < us@.len(),
    ensures
        r == match us@[from as int].cell {
            Some(c) => match nearest_enemy_of(us@, from as int, houses@, players@, ambient@, house@, house_id, c.0, c.1) {
                Some(b) => Some(b.1 as usize),
                None => None::<usize>,
            },
            None => None::<usize>,
        },
{
    let (fx, fy) = match us[from].cell {
        Some(c) => c,
        None => {
            return None;
        },
    };
    let mut best: Option<(u32, usize)> = None;
    let mut i: usize = 0;
    while i < us.len()
        invariant
            i <= us@.len(),
            match best {
                Some(b) => nearest_enemy_of(us@.take(i as int), from as int, houses@, players@, ambient@, house@, house_id, fx, fy)
                    == Some((b.0 as int, b.1 as int)),
                None => nearest_enemy_of(us@.take(i as int), from as int, houses@, players@, ambient@, house@, house_id, fx, fy) is None,
            },
        decreases us@.len() - i,
    {
        proof {
            assert(us@.take(i + 1).drop_last() =~= us@.take(i as int));
            assert(us@.take(i + 1).last() == us@[i as int]);
        }
        let u = us[i];
        if i != from && u.alive {
            let hostile = match u.owner {
                Some(o) => {
                    let own = match house_id {
                        Some(h) => h == o,
                        None => false,
                    };
                    if own {
                        false
                    } else {
                        let key = key_of(houses, o);
                        !houses_are_allied(players, house, key.as_str()) && !house_list_allows(ambient, key.as_str())
                    }
                },
                None => true,
            };
            if hostile {
                if let Some(c) = u.cell {
                    let dx: u32 = if fx >= c.0 {
                        (fx - c.0) as u32
                    } else {
                        (c.0 - fx) as u32
                    };
                    let dy: u32 = if fy >= c.1 {
                        (fy - c.1) as u32
                    } else {
                        (c.1 - fy) as u32
                    };
                    let d = dx + dy;
                    let take = match best {
                        Some(b) => d < b.0,
                        None => true,
                    };
                    if take {
                        best = Some((d, i));
                    }
                }
            }
        }
        i = i + 1;
    }
    assert(us@.take(i as int) =~= us@);
    match best {
        Some(b) => Some(b.1),
        None => None,
    }
}

/// Unit `u` of house `house` is sent at an enemy: alive, armed (damage
/// above zero), idle, a mobile unit, not on guard duty.
pub open spec fn sent_to_attack(u: ArmyUnit, house: Option<u32>) -> bool {
    &&& u.alive
    &&& u.owner is Some && u.owner == house
    &&& u.attack_damage matches Some(d) && d > 0
    &&& !u.has_target
    &&& u.kind matches Some(k) && mobile(k)
    &&& !u.guarding
}

/// The attack orders among the first `k` units: each one sent to attack,
/// in order, against its nearest enemy when it has one.
pub open spec fn attack_orders(
    us: Seq<ArmyUnit>,
    k: int,
    houses: Seq<HouseTypeKey>,
    players: Seq<PlayerState>,
    ambient: Seq<String>,
    house: Seq<char>,
    house_id: Option<u32>,
) -> Seq<(u64, u64)>
    decreases k,
{
    if k <= 0 {
        Seq::empty()
    } else {
        let rest = attack_orders(us, k - 1, houses, players, ambient, house, house_id);
        let u = us[k - 1];
        if sent_to_attack(u, house_id) && u.cell is Some {
            match nearest_enemy_of(us, k - 1, houses, players, ambient, house, house_id, u.cell.unwrap().0, u.cell.unwrap().1) {
                Some(t) => rest.push((u.id, us[t.1].id)),
                None => rest,
            }
        } else {
            rest
        }
    }
}

proof fn lemma_nearest_in_range(
    us: Seq<ArmyUnit>,
    from: int,
    houses: Seq<HouseTypeKey>,
    players: Seq<PlayerState>,
    ambient: Seq<String>,
    house: Seq<char>,
    house_id: Option<u32>,
    fx: u16,
    fy: u16,
)
    ensures
        nearest_enemy_of(us, from, houses, players, ambient, house, house_id, fx, fy) matches Some(b) ==> 0 <= b.1
            < us.len(),
    decreases us.len(),
{
    if us.len() > 0 {
        lemma_nearest_in_range(us.drop_last(), from, houses, players, ambient, house, house_id, fx, fy);
    }
}

/// Attack orders (attacker id, target id) for the idle armed units of house
/// `house` (see [`attack_orders`]); none while the house has no
/// construction yard (`has_yard`).
pub fn auto_attack_commands(
    us: &[ArmyUnit],
    houses: &[HouseTypeKey],
    players: &[PlayerState],
    ambient: &[String],
    house: &str,
    house_id: Option<u32>,
    has_yard: bool,
) -> (orders: Vec<(u64, u64)>)
    ensures
        orders@ == if has_yard {
            attack_orders(us@, us@.len() as int, houses@, players@, ambient@, house@, house_id)
        } else {
            Seq::empty()
        },
{
    let mut orders: Vec<(u64, u64)> = Vec::new();
    if !has_yard {
        return orders;
    }
    let mut i: usize = 0;
    while i < us.len()
        invariant
            i <= us@.len(),
            has_yard,
            orders@ == attack_orders(us@, i as int, houses@, players@, ambient@, house@, house_id),
        decreases us@.len() - i,
    {
        let u = us[i];
        let owned = match (u.owner, house_id) {
            (Some(o), Some(h)) => o == h,
            _ => false,
        };
        let armed = match u.attack_damage {
            Some(d) => d > 0,
            None => false,
        };
        let mob = match u.kind {
            Some(k) => is_mobile(k),
            None => false,
        };
        if u.alive && owned && armed && !u.has_target && mob && !u.guarding {
            if let Some(c) = u.cell {
                proof {
                    lemma_nearest_in_range(us@, i as int, houses@, players@, ambient@, house@, house_id, c.0, c.1);
                }
                if let Some(t) = nearest_enemy(us, i, houses, players, ambient, house, house_id) {
                    orders.push((u.id, us[t].id));
                }
            }
        }
        i = i + 1;
    }
    orders
}

/// Whether heuristic production may order an army unit this tick for house
/// `house` (id `house_id`), its army counted from the units themselves (see
/// [`heuristic_should_produce_army`]).
pub fn should_produce_army_now(
    houses: &[crate::ai::MapHouse],
    house: &str,
    house_id: Option<u32>,
    max_iq_levels: i32,
    iq_production: i32,
    units: &[ArmyUnit],
    tick: u64,
) -> (r: bool)
    ensures
        r == (crate::ai::iq_of(houses@, house@, max_iq_levels) >= iq_production && combatant_count(units@, house_id)
            < crate::ai::HEURISTIC_ARMY_CAP && (combatant_count(units@, house_id) == 0 || tick
            % crate::ai::HEURISTIC_PRODUCE_PERIOD == 0)),
{
    let army = count_mobile_combatants(units, house_id);
    crate::ai::heuristic_should_produce_army(houses, house, max_iq_levels, iq_production, army, tick)
}

} // verus!
