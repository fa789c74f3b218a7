//! Conditions of the map's AI triggers: what is counted or compared for the
//! house that owns a trigger, and the comparison itself.

use vstd::prelude::*;

use crate::entities::EntityRecord;
use crate::players::{allied, funds_of, house_funds, house_list_allows, houses_are_allied, list_has_house, PlayerState};
use crate::super_weapons::{
    best_percent, house_charges, own_super_weapon_charge_percent, SuperWeaponRuntime, WeaponFilter,
};
use crate::text::{eq_ignore_ascii_case, text_eq_ignore_ascii_case};

verus! {

/// How an AI trigger compares the value it reads with its amount.
#[derive(Clone, Copy, Debug, PartialEq, Eq, Structural)]
pub enum AiTriggerCompareOp {
    Less,
    LessEqual,
    Equal,
    GreaterEqual,
    Greater,
    NotEqual,
}

/// Whether `value` compares to `amount` as `op` says.
pub open spec fn compare_holds(op: AiTriggerCompareOp, value: i32, amount: i32) -> bool {
    match op {
        AiTriggerCompareOp::Less => value < amount,
        AiTriggerCompareOp::LessEqual => value <= amount,
        AiTriggerCompareOp::Equal => value == amount,
        AiTriggerCompareOp::GreaterEqual => value >= amount,
        AiTriggerCompareOp::Greater => value > amount,
        AiTriggerCompareOp::NotEqual => value != amount,
    }
}

impl AiTriggerCompareOp {
    /// Compares `value` with `amount`.
    pub fn compare(self, value: i32, amount: i32) -> (r: bool)
        ensures
            r == compare_holds(self, value, amount),
    {
        match self {
            AiTriggerCompareOp::Less => value < amount,
            AiTriggerCompareOp::LessEqual => value <= amount,
            AiTriggerCompareOp::Equal => value == amount,
            AiTriggerCompareOp::GreaterEqual => value >= amount,
            AiTriggerCompareOp::Greater => value > amount,
            AiTriggerCompareOp::NotEqual => value != amount,
        }
    }
}

/// What an AI trigger's condition looks at.
#[derive(Clone, Copy, Debug, PartialEq, Eq, Structural)]
pub enum AiConditionKind {
    Always,
    /// A condition code the engine does not support.
    Unsupported(i32),
    EnemyOwns,
    OwnOwns,
    NeutralOwns,
    EnemyYellowPower,
    EnemyRedPower,
    EnemyCredits,
    OwnCredits,
    OwnSuperWeaponCharge,
}

/// The condition of an AI trigger.
#[derive(Clone, Debug)]
pub struct AiCondition {
    pub kind: AiConditionKind,
    /// Type key counted by the "owns" conditions (none: nothing counts).
    pub object_type: Option<String>,
    /// Slots read by the super-weapon condition.
    pub weapon: WeaponFilter,
    pub op: AiTriggerCompareOp,
    pub amount: i32,
}

/// Power state of a player, as the power conditions read it.
#[derive(Clone, Copy, Debug)]
pub struct PlayerPower {
    /// Short of power.
    pub low_power: bool,
    /// Drains power and produces none.
    pub no_output: bool,
}

/// What the conditions read of the battle.
pub struct AiConditionWorld<'a> {
    pub entities: &'a [EntityRecord],
    pub players: &'a [PlayerState],
    /// Power state of each player (same order as `players`).
    pub power: &'a [PlayerPower],
    /// Houses that no side plays (neutral, civilians, ...).
    pub ambient_houses: &'a [String],
    pub super_weapons: &'a SuperWeaponRuntime,
}

/// Which owners an "owns" condition counts.
#[derive(Clone, Copy, Debug, PartialEq, Eq, Structural)]
pub enum OwnerClass {
    /// Neither the owner, nor an ally, nor an ambient house.
    Enemy,
    /// The owner itself.
    Own,
    /// An ambient house.
    Neutral,
}

/// House `h` is an enemy of `owner`: not the same, not allied, not ambient.
pub open spec fn is_enemy(players: Seq<PlayerState>, ambient: Seq<String>, owner: Seq<char>, h: Seq<char>) -> bool {
    !text_eq_ignore_ascii_case(h, owner) && !allied(players, owner, h) && !list_has_house(ambient, h)
}

/// House `h` belongs to `class` as seen from `owner`.
pub open spec fn in_class(
    players: Seq<PlayerState>,
    ambient: Seq<String>,
    owner: Seq<char>,
    class: OwnerClass,
    h: Seq<char>,
) -> bool {
    match class {
        OwnerClass::Enemy => is_enemy(players, ambient, owner, h),
        OwnerClass::Own => text_eq_ignore_ascii_case(h, owner),
        OwnerClass::Neutral => list_has_house(ambient, h),
    }
}

/// Entity `e` is a living `type_key` owned by a house of `class`.
pub open spec fn counted(
    e: EntityRecord,
    players: Seq<PlayerState>,
    ambient: Seq<String>,
    owner: Seq<char>,
    class: OwnerClass,
    type_key: Seq<char>,
) -> bool {
    &&& e.alive
    &&& e.owner matches Some(o) && in_class(players, ambient, owner, class, o@)
    &&& e.identity matches Some(i) && i.type_id@ == type_key
}

/// Number of entities of `es` that `counted` admits.
pub open spec fn type_count_of(
    es: Seq<EntityRecord>,
    players: Seq<PlayerState>,
    ambient: Seq<String>,
    owner: Seq<char>,
    class: OwnerClass,
    type_key: Seq<char>,
) -> nat
    decreases es.len(),
{
    if es.len() == 0 {
        0
    } else {
        type_count_of(es.drop_last(), players, ambient, owner, class, type_key) + if counted(
            es.last(),
            players,
            ambient,
            owner,
            class,
            type_key,
        ) {
            1nat
        } else {
            0nat
        }
    }
}

/// The count, saturated at `i32::MAX`.
pub open spec fn saturated(n: nat) -> i32 {
    if n > i32::MAX {
        i32::MAX
    } else {
        n as i32
    }
}

fn in_class_exec(
    players: &[PlayerState],
    ambient: &[String],
    owner: &str,
    class: OwnerClass,
    h: &str,
) -> (r: bool)
    ensures
        r == in_class(players@, ambient@, owner@, class, h@),
{
    match class {
        OwnerClass::Enemy => !eq_ignore_ascii_case(h, owner) && !houses_are_allied(players, owner, h)
            && !house_list_allows(ambient, h),
        OwnerClass::Own => eq_ignore_ascii_case(h, owner),
        OwnerClass::Neutral => house_list_allows(ambient, h),
    }
}

/// Number of living entities of type `type_key` owned by a house of `class`
/// (none counted without a type), saturated at `i32::MAX`.
pub fn count_type_owned_by(w: &AiConditionWorld, owner: &str, class: OwnerClass, type_key: Option<&str>) -> (n: i32)
    ensures
        n == match type_key {
            Some(k) => saturated(type_count_of(w.entities@, w.players@, w.ambient_houses@, owner@, class, k@)),
            None => 0,
        },
{
    let key = match type_key {
        Some(k) => k,
        None => {
            return 0;
        },
    };
    let es = w.entities;
    let mut n: i32 = 0;
    let mut j: usize = 0;
    while j < es.len()
        invariant
            j <= es@.len(),
            es@ == w.entities@,
            n == saturated(type_count_of(es@.take(j as int), w.players@, w.ambient_houses@, owner@, class, key@)),
        decreases es@.len() - j,
    {
        let e = &es[j];
        proof {
            assert(es@.take(j + 1).drop_last() =~= es@.take(j as int));
            assert(es@.take(j + 1).last() == *e);
        }
        let owned = match &e.owner {
            Some(o) => in_class_exec(w.players, w.ambient_houses, owner, class, o.as_str()),
            None => false,
        };
        let typed = match &e.identity {
            Some(i) => crate::text::same_text(i.type_id.as_str(), key),
            None => false,
        };
        if e.alive && owned && typed {
            if n < i32::MAX {
                n = n + 1;
            }
        }
        j = j + 1;
    }
    assert(es@.take(j as int) =~= es@);
    n
}

/// The highest funds among the enemy players of `owner` (none: no enemy).
pub open spec fn max_enemy_funds_of(players: Seq<PlayerState>, all: Seq<PlayerState>, ambient: Seq<String>, owner: Seq<char>) -> Option<i32>
    decreases players.len(),
{
    if players.len() == 0 {
        None
    } else {
        let rest = max_enemy_funds_of(players.drop_last(), all, ambient, owner);
        let p = players.last();
        if is_enemy(all, ambient, owner, p.house@) {
            match rest {
                Some(m) => Some(if p.funds > m {
                    p.funds
                } else {
                    m
                }),
                None => Some(p.funds),
            }
        } else {
            rest
        }
    }
}

/// Highest funds of an enemy player of `owner` (0 without one).
pub fn max_enemy_funds(w: &AiConditionWorld, owner: &str) -> (m: i32)
    ensures
        m == match max_enemy_funds_of(w.players@, w.players@, w.ambient_houses@, owner@) {
            Some(m) => m,
            None => 0,
        },
{
    let ps = w.players;
    let mut best: Option<i32> = None;
    let mut k: usize = 0;
    while k < ps.len()
        invariant
            k <= ps@.len(),
            ps@ == w.players@,
            best == max_enemy_funds_of(ps@.take(k as int), w.players@, w.ambient_houses@, owner@),
        decreases ps@.len() - k,
    {
        let p = &ps[k];
        proof {
            assert(ps@.take(k + 1).drop_last() =~= ps@.take(k as int));
            assert(ps@.take(k + 1).last() == *p);
        }
        if in_class_exec(ps, w.ambient_houses, owner, OwnerClass::Enemy, p.house.as_str()) {
            best = match best {
                Some(m) => Some(if p.funds > m {
                    p.funds
                } else {
                    m
                }),
                None => Some(p.funds),
            };
        }
        k = k + 1;
    }
    assert(ps@.take(k as int) =~= ps@);
    match best {
        Some(m) => m,
        None => 0,
    }
}

/// Which power state an enemy-power condition looks for.
pub open spec fn power_matches(pw: PlayerPower, red: bool) -> bool {
    if red {
        pw.no_output
    } else {
        pw.low_power
    }
}

/// Some enemy player of `owner` is in the power state looked for.
pub open spec fn enemy_power_state(
    players: Seq<PlayerState>,
    power: Seq<PlayerPower>,
    ambient: Seq<String>,
    owner: Seq<char>,
    red: bool,
) -> bool {
    exists|k: int|
        0 <= k < players.len() && k < power.len() && is_enemy(players, ambient, owner, (#[trigger] players[k]).house@)
            && power_matches(power[k], red)
}

fn any_enemy_in_power_state(w: &AiConditionWorld, owner: &str, red: bool) -> (r: bool)
    ensures
        r == enemy_power_state(w.players@, w.power@, w.ambient_houses@, owner@, red),
{
    let ps = w.players;
    let mut k: usize = 0;
    while k < ps.len()
        invariant
            k <= ps@.len(),
            ps@ == w.players@,
            forall|m: int|
                0 <= m < k && m < w.power@.len() ==> !(is_enemy(w.players@, w.ambient_houses@, owner@, (#[trigger] ps@[m]).house@)
                    && power_matches(w.power@[m], red)),
        decreases ps@.len() - k,
    {
        if k < w.power.len() {
            let pw = w.power[k];
            let hit = if red {
                pw.no_output
            } else {
                pw.low_power
            };
            if hit && in_class_exec(ps, w.ambient_houses, owner, OwnerClass::Enemy, ps[k].house.as_str()) {
                return true;
            }
        }
        k = k + 1;
    }
    false
}

/// Whether AI trigger condition `c` holds for house `owner`.
pub open spec fn ai_condition_holds(
    es: Seq<EntityRecord>,
    players: Seq<PlayerState>,
    power: Seq<PlayerPower>,
    ambient: Seq<String>,
    charges: Option<Seq<crate::super_weapons::ChargeView>>,
    owner: Seq<char>,
    c: AiCondition,
) -> bool {
    let count = |class: OwnerClass|
        match c.object_type {
            Some(k) => saturated(type_count_of(es, players, ambient, owner, class, k@)),
            None => 0i32,
        };
    match c.kind {
        AiConditionKind::Always => true,
        AiConditionKind::Unsupported(_) => false,
        AiConditionKind::EnemyOwns => compare_holds(c.op, count(OwnerClass::Enemy), c.amount),
        AiConditionKind::OwnOwns => compare_holds(c.op, count(OwnerClass::Own), c.amount),
        AiConditionKind::NeutralOwns => compare_holds(c.op, count(OwnerClass::Neutral), c.amount),
        AiConditionKind::EnemyYellowPower => enemy_power_state(players, power, ambient, owner, false),
        AiConditionKind::EnemyRedPower => enemy_power_state(players, power, ambient, owner, true),
        AiConditionKind::EnemyCredits => compare_holds(
            c.op,
            match max_enemy_funds_of(players, players, ambient, owner) {
                Some(m) => m,
                None => 0,
            },
            c.amount,
        ),
        AiConditionKind::OwnCredits => compare_holds(c.op, funds_of(players, owner), c.amount),
        AiConditionKind::OwnSuperWeaponCharge => compare_holds(
            c.op,
            match charges {
                Some(s) => best_percent(s, c.weapon),
                None => 0,
            },
            c.amount,
        ),
    }
}

/// Whether AI trigger condition `c` holds for the house `owner` that the
/// trigger is evaluated for.
pub fn ai_trigger_condition_holds(w: &AiConditionWorld, owner: &str, c: &AiCondition) -> (r: bool)
    ensures
        r == ai_condition_holds(
            w.entities@,
            w.players@,
            w.power@,
            w.ambient_houses@,
            house_charges(w.super_weapons@, owner@),
            owner@,
            *c,
        ),
{
    let key: Option<&str> = match &c.object_type {
        Some(k) => Some(k.as_str()),
        None => None,
    };
    match c.kind {
        AiConditionKind::Always => true,
        AiConditionKind::Unsupported(_) => false,
        AiConditionKind::EnemyOwns => c.op.compare(count_type_owned_by(w, owner, OwnerClass::Enemy, key), c.amount),
        AiConditionKind::OwnOwns => c.op.compare(count_type_owned_by(w, owner, OwnerClass::Own, key), c.amount),
        AiConditionKind::NeutralOwns => c.op.compare(count_type_owned_by(w, owner, OwnerClass::Neutral, key), c.amount),
        AiConditionKind::EnemyYellowPower => any_enemy_in_power_state(w, owner, false),
        AiConditionKind::EnemyRedPower => any_enemy_in_power_state(w, owner, true),
        AiConditionKind::EnemyCredits => c.op.compare(max_enemy_funds(w, owner), c.amount),
        AiConditionKind::OwnCredits => c.op.compare(house_funds(w.players, owner), c.amount),
        AiConditionKind::OwnSuperWeaponCharge => c.op.compare(
            own_super_weapon_charge_percent(w.super_weapons, owner, &c.weapon),
            c.amount,
        ),
    }
}

} // verus!
