//! Build and production availability: what the sidebar may order is bound to
//! the buildings that are alive right now, never unlocked for good.

use vstd::prelude::*;

use crate::command_checks::TechnoClass;
use crate::entities::{build_limit_reached, type_count, EntityKind, EntityRecord};
use crate::key_order::{compare_keys, insert_sorted_key, key_lt, lemma_key_order, strictly_sorted, texts, KeyOrder};
use crate::players::{house_list_allows, list_has_house, TechTreePlayer};
use crate::tech_tree::{eligible, is_type_eligible, TechnoRules};
use crate::super_weapons::{charge_of, charge_ready, required_ticks, required_ticks_for_sw, SuperWeaponRuntime};
use crate::text::{
    eq_ignore_ascii_case, lemma_upper_of_is_upper_text, same_text, text_eq_ignore_ascii_case, to_ascii_upper, upper_text,
};

verus! {

/// Why a command or a sidebar entry is refused.
#[derive(Debug, Clone, Copy, PartialEq, Eq, Structural)]
pub enum CommandRejectReason {
    /// The entity does not exist.
    EntityNotFound,
    /// The entity is dead.
    EntityDead,
    /// The entity belongs to another player.
    WrongOwner,
    /// The entity cannot move.
    NotMobile,
    /// The target is not valid for the order.
    InvalidTarget,
    /// The building cannot be placed there.
    InvalidPlacement,
    /// The entity cannot deploy.
    CannotDeploy,
    /// A required building is missing.
    MissingPrerequisite,
    /// Not enough power.
    InsufficientPower,
    /// Not enough funds.
    InsufficientFunds,
    /// The factory is busy or a build limit is reached.
    QueueFull,
    /// The same command was already given this tick.
    DuplicateCommand,
    /// The super weapon is still charging.
    SuperWeaponNotReady,
}

/// One buildable or producible sidebar entry.
#[derive(Debug, Clone, PartialEq, Eq)]
pub struct CapabilityItem {
    /// Rules type key.
    pub type_id: String,
    /// Cost.
    pub cost: i32,
    /// Whether it can be ordered now (living buildings, funds and power counted).
    pub enabled: bool,
    /// Why it cannot be ordered, when it cannot.
    pub disabled_reason: Option<CommandRejectReason>,
}

/// A super weapon the local side may fire (bound to a living provider
/// building and its charge).
#[derive(Debug, Clone, PartialEq, Eq)]
pub struct SuperWeaponCapabilityItem {
    /// `[SuperWeaponTypes]` type key.
    pub type_id: String,
    /// `UIName=` string key (may be empty).
    pub ui_name: String,
    /// `SidebarImage=` (may be empty).
    pub sidebar_image: String,
    /// `Type=` literal (upper case).
    pub kind: String,
    /// Ticks charged so far.
    pub charge_ticks: u32,
    /// Ticks needed to be ready.
    pub required_ticks: u32,
    /// Whether it is fully charged.
    pub ready: bool,
    /// Whether a fire command may be given now.
    pub enabled: bool,
    /// Why it cannot be fired, when it cannot.
    pub disabled_reason: Option<CommandRejectReason>,
}

/// Availability of a building: no construction yard refuses every building;
/// a power-gated building needs a power plant; a reached build limit fills the
/// queue; then the funds must cover the cost. The first failing check names
/// the reason.
pub open spec fn build_availability(
    has_construction_yard: bool,
    has_power_plant: bool,
    funds: i32,
    cost: i32,
    requires_power: bool,
    build_limit_hit: bool,
) -> (bool, Option<CommandRejectReason>) {
    if !has_construction_yard {
        (false, Some(CommandRejectReason::MissingPrerequisite))
    } else if requires_power && !has_power_plant {
        (false, Some(CommandRejectReason::InsufficientPower))
    } else if build_limit_hit {
        (false, Some(CommandRejectReason::QueueFull))
    } else if funds < cost {
        (false, Some(CommandRejectReason::InsufficientFunds))
    } else {
        (true, None)
    }
}

/// Availability of a unit: no factory of its kind refuses it; a busy factory
/// or a reached build limit fills the queue; then the funds must cover the
/// cost.
pub open spec fn produce_availability(
    has_factory: bool,
    factory_idle: bool,
    funds: i32,
    cost: i32,
    build_limit_hit: bool,
) -> (bool, Option<CommandRejectReason>) {
    if !has_factory {
        (false, Some(CommandRejectReason::MissingPrerequisite))
    } else if !factory_idle || build_limit_hit {
        (false, Some(CommandRejectReason::QueueFull))
    } else if funds < cost {
        (false, Some(CommandRejectReason::InsufficientFunds))
    } else {
        (true, None)
    }
}

/// Whether a building can be ordered, and why not.
pub fn evaluate_build_availability(
    has_construction_yard: bool,
    has_power_plant: bool,
    funds: i32,
    cost: i32,
    requires_power: bool,
    build_limit_hit: bool,
) -> (r: (bool, Option<CommandRejectReason>))
    ensures
        r == build_availability(
            has_construction_yard,
            has_power_plant,
            funds,
            cost,
            requires_power,
            build_limit_hit,
        ),
{
    if !has_construction_yard {
        return (false, Some(CommandRejectReason::MissingPrerequisite));
    }
    if requires_power && !has_power_plant {
        return (false, Some(CommandRejectReason::InsufficientPower));
    }
    if build_limit_hit {
        return (false, Some(CommandRejectReason::QueueFull));
    }
    if funds < cost {
        return (false, Some(CommandRejectReason::InsufficientFunds));
    }
    (true, None)
}

/// Whether a unit can be ordered, and why not.
pub fn evaluate_produce_availability(
    has_factory: bool,
    factory_idle: bool,
    funds: i32,
    cost: i32,
    build_limit_hit: bool,
) -> (r: (bool, Option<CommandRejectReason>))
    ensures
        r == produce_availability(has_factory, factory_idle, funds, cost, build_limit_hit),
{
    if !has_factory {
        return (false, Some(CommandRejectReason::MissingPrerequisite));
    }
    if !factory_idle || build_limit_hit {
        return (false, Some(CommandRejectReason::QueueFull));
    }
    if funds < cost {
        return (false, Some(CommandRejectReason::InsufficientFunds));
    }
    (true, None)
}

/// An entry is enabled exactly when it carries no reason; losing the
/// construction yard (or the factory) disables every entry with
/// `MissingPrerequisite`, whatever the funds; power gates only the buildings
/// that need power.
pub proof fn law_availability_tracks_living_buildings(
    has_yard: bool,
    has_power: bool,
    has_factory: bool,
    idle: bool,
    funds: i32,
    cost: i32,
    requires_power: bool,
    limit_hit: bool,
)
    ensures
        build_availability(has_yard, has_power, funds, cost, requires_power, limit_hit).0
            == (build_availability(has_yard, has_power, funds, cost, requires_power, limit_hit).1 is None),
        produce_availability(has_factory, idle, funds, cost, limit_hit).0 == (produce_availability(
            has_factory,
            idle,
            funds,
            cost,
            limit_hit,
        ).1 is None),
        !has_yard ==> build_availability(has_yard, has_power, funds, cost, requires_power, limit_hit)
            == (false, Some(CommandRejectReason::MissingPrerequisite)),
        !has_factory ==> produce_availability(has_factory, idle, funds, cost, limit_hit) == (
            false,
            Some(CommandRejectReason::MissingPrerequisite),
        ),
        !requires_power ==> build_availability(has_yard, has_power, funds, cost, requires_power, limit_hit)
            == build_availability(has_yard, true, funds, cost, requires_power, limit_hit),
{
}


/// A sidebar entry as plain values.
pub struct CapabilityItemView {
    pub type_id: Seq<char>,
    pub cost: i32,
    pub enabled: bool,
    pub disabled_reason: Option<CommandRejectReason>,
}

impl View for CapabilityItem {
    type V = CapabilityItemView;

    open spec fn view(&self) -> CapabilityItemView {
        CapabilityItemView {
            type_id: self.type_id@,
            cost: self.cost,
            enabled: self.enabled,
            disabled_reason: self.disabled_reason,
        }
    }
}

/// The entries as plain values.
pub open spec fn item_views(s: Seq<CapabilityItem>) -> Seq<CapabilityItemView> {
    s.map_values(|c: CapabilityItem| c@)
}

/// Entries in type-key order (equal keys in any order).
pub open spec fn sorted_by_type(s: Seq<CapabilityItemView>) -> bool {
    forall|i: int, j: int| 0 <= i < j < s.len() ==> !key_lt(#[trigger] s[j].type_id, #[trigger] s[i].type_id)
}

/// Index of the first entry whose key does not come before `key`.
fn first_not_before(items: &[CapabilityItem], key: &str) -> (p: usize)
    ensures
        p <= items@.len(),
        forall|q: int| 0 <= q < p ==> key_lt(#[trigger] items@[q].type_id@, key@),
        p < items@.len() ==> !key_lt(items@[p as int].type_id@, key@),
{
    let mut p: usize = 0;
    while p < items.len()
        invariant
            p <= items@.len(),
            forall|q: int| 0 <= q < p ==> key_lt(#[trigger] items@[q].type_id@, key@),
        decreases items@.len() - p,
    {
        if compare_keys(items[p].type_id.as_str(), key) != KeyOrder::Before {
            return p;
        }
        p = p + 1;
    }
    p
}

/// Sorts sidebar entries by type key (byte order); entries with equal keys
/// keep their order.
pub fn sort_items_by_type(items: Vec<CapabilityItem>) -> (sorted: Vec<CapabilityItem>)
    ensures
        sorted_by_type(item_views(sorted@)),
        item_views(sorted@).to_multiset() == item_views(items@).to_multiset(),
{
    broadcast use vstd::seq_lib::group_to_multiset_ensures;

    let ghost all = item_views(items@);
    let mut rest = items;
    let mut out: Vec<CapabilityItem> = Vec::new();
    assert(item_views(out@) =~= Seq::<CapabilityItemView>::empty());
    while rest.len() > 0
        invariant
            sorted_by_type(item_views(out@)),
            item_views(out@).to_multiset().add(item_views(rest@).to_multiset()) == all.to_multiset(),
        decreases rest@.len(),
    {
        let ghost r0 = rest@;
        let x = rest.pop().unwrap();
        proof {
            assert(r0 =~= rest@.push(x));
            assert(item_views(r0) =~= item_views(rest@).push(x@));
        }
        let p = first_not_before(out.as_slice(), x.type_id.as_str());
        let ghost before = item_views(out@);
        let ghost xv = x@;
        out.insert(p, x);
        proof {
            let after = item_views(out@);
            assert(after =~= before.insert(p as int, xv));
            vstd::seq_lib::to_multiset_insert(before, p as int, xv);
            assert forall|i: int, j: int| 0 <= i < j < after.len() implies !key_lt(
                #[trigger] after[j].type_id,
                #[trigger] after[i].type_id,
            ) by {
                if j < p {
                    assert(after[i] == before[i]);
                    assert(after[j] == before[j]);
                } else if i < p && j == p {
                    assert(after[i] == before[i]);
                    lemma_key_order(before[i].type_id, xv.type_id, xv.type_id);
                } else if i < p && j > p {
                    assert(after[i] == before[i]);
                    assert(after[j] == before[j - 1]);
                } else if i == p {
                    assert(after[j] == before[j - 1]);
                    lemma_key_order(before[p as int].type_id, xv.type_id, xv.type_id);
                    lemma_key_order(before[j - 1].type_id, xv.type_id, before[p as int].type_id);
                    if j - 1 > p {
                        assert(!key_lt(before[j - 1].type_id, before[p as int].type_id));
                    }
                } else {
                    assert(after[i] == before[i - 1]);
                    assert(after[j] == before[j - 1]);
                }
            }
            vstd::seq_lib::to_multiset_build(item_views(rest@), xv);
            assert(item_views(rest@).to_multiset().insert(xv) == item_views(r0).to_multiset());
            assert(after.to_multiset() == before.to_multiset().insert(xv));
            assert(after.to_multiset().add(item_views(rest@).to_multiset()) =~= before.to_multiset().add(
                item_views(r0).to_multiset(),
            ));
        }
    }
    assert(item_views(rest@) =~= Seq::<CapabilityItemView>::empty());
    assert(item_views(out@).to_multiset().add(item_views(rest@).to_multiset()) =~= item_views(out@).to_multiset());
    out
}


/// A type of the definitions as the sidebar reads it.
#[derive(Clone, Debug)]
pub struct BarTechno {
    pub type_key: String,
    pub class: TechnoClass,
    /// Its tech-tree rules.
    pub rules: TechnoRules,
    /// Whether its owner list admits the player's house.
    pub owner_allowed: bool,
    pub cost: i32,
    /// `BuildLimit=` (0 or less: none).
    pub build_limit: i32,
    /// It deploys into a building (such vehicles stay off the bar).
    pub deploys: bool,
}

/// A building of the definitions as the build bar reads it.
#[derive(Clone, Debug)]
pub struct BarStructure {
    pub type_key: String,
    /// Its own `Cost=` (0 or less: the type's cost counts).
    pub cost: i32,
    /// Its type definition, if the definitions have one.
    pub techno: Option<BarTechno>,
    /// It needs a power plant.
    pub requires_power: bool,
}

/// What the build bar reads of the player's side.
pub struct BuildBarSide<'a> {
    pub player: TechTreePlayer<'a>,
    /// Keys of the side's living structures (tech tree).
    pub living: &'a [String],
    pub funds: i32,
    pub has_yard: bool,
    pub has_power: bool,
    /// The building finished at a yard and waiting to be placed, if any.
    pub ready: Option<String>,
    /// Whether a construction yard of the side is idle.
    pub yard_idle: bool,
    /// Types queued in the side's production queues.
    pub in_production: &'a [String],
    /// The entities (build limits count the side's living ones).
    pub entities: &'a [EntityRecord],
}

/// Whether building `s` is on the build bar of `player`.
pub open spec fn structure_on_bar(s: BarStructure, player: TechTreePlayer, living: Seq<String>) -> bool {
    match s.techno {
        Some(t) => eligible(t.rules, player, t.owner_allowed, living),
        None => false,
    }
}

/// The build-bar entry of building `s`: without a construction yard every
/// building is out (missing prerequisite); else a building ready to place,
/// or one in production, may be clicked; otherwise a busy yard fills the
/// queue, and then the availability rules decide.
pub open spec fn build_item(
    s: BarStructure,
    house: Seq<char>,
    funds: i32,
    has_yard: bool,
    has_power: bool,
    ready: Option<Seq<char>>,
    yard_idle: bool,
    in_production: Seq<String>,
    es: Seq<EntityRecord>,
) -> CapabilityItemView {
    let cost = if s.cost > 0 {
        s.cost
    } else {
        match s.techno {
            Some(t) => t.cost,
            None => 0,
        }
    };
    let limit_hit = match s.techno {
        Some(t) => t.build_limit > 0 && type_count(es, house, s.type_key@) as i32 >= t.build_limit,
        None => false,
    };
    let (enabled, reason) = if !has_yard {
        (false, Some(CommandRejectReason::MissingPrerequisite))
    } else if ready matches Some(r) && text_eq_ignore_ascii_case(r, s.type_key@) {
        (true, None)
    } else if list_has_house(in_production, s.type_key@) {
        (true, None)
    } else if has_yard && !yard_idle {
        (false, Some(CommandRejectReason::QueueFull))
    } else {
        build_availability(has_yard, has_power, funds, cost, s.requires_power, limit_hit)
    };
    CapabilityItemView { type_id: s.type_key@, cost, enabled, disabled_reason: reason }
}

/// The build-bar entries of `structs` that are on the bar, in their order.
pub open spec fn build_items(
    structs: Seq<BarStructure>,
    player: TechTreePlayer,
    living: Seq<String>,
    funds: i32,
    has_yard: bool,
    has_power: bool,
    ready: Option<Seq<char>>,
    yard_idle: bool,
    in_production: Seq<String>,
    es: Seq<EntityRecord>,
) -> Seq<CapabilityItemView>
    decreases structs.len(),
{
    if structs.len() == 0 {
        Seq::empty()
    } else {
        let rest = build_items(
            structs.drop_last(),
            player,
            living,
            funds,
            has_yard,
            has_power,
            ready,
            yard_idle,
            in_production,
            es,
        );
        if structure_on_bar(structs.last(), player, living) {
            rest.push(
                build_item(
                    structs.last(),
                    player.house@,
                    funds,
                    has_yard,
                    has_power,
                    ready,
                    yard_idle,
                    in_production,
                    es,
                ),
            )
        } else {
            rest
        }
    }
}

/// View of an optional text.
pub open spec fn text_opt(t: Option<String>) -> Option<Seq<char>> {
    match t {
        Some(t) => Some(t@),
        None => None,
    }
}

/// The build bar of a side: the buildings of the definitions that are on
/// its bar, each with its cost and availability, sorted by type key.
pub fn project_build_items(structs: &[BarStructure], side: &BuildBarSide) -> (items: Vec<CapabilityItem>)
    ensures
        sorted_by_type(item_views(items@)),
        item_views(items@).to_multiset() == build_items(
            structs@,
            side.player,
            side.living@,
            side.funds,
            side.has_yard,
            side.has_power,
            text_opt(side.ready),
            side.yard_idle,
            side.in_production@,
            side.entities@,
        ).to_multiset(),
{
    let mut v: Vec<CapabilityItem> = Vec::new();
    let mut k: usize = 0;
    while k < structs.len()
        invariant
            k <= structs@.len(),
            item_views(v@) == build_items(
                structs@.take(k as int),
                side.player,
                side.living@,
                side.funds,
                side.has_yard,
                side.has_power,
                text_opt(side.ready),
                side.yard_idle,
                side.in_production@,
                side.entities@,
            ),
        decreases structs@.len() - k,
    {
        let s = &structs[k];
        proof {
            assert(structs@.take(k + 1).drop_last() =~= structs@.take(k as int));
            assert(structs@.take(k + 1).last() == *s);
        }
        let on_bar = match &s.techno {
            Some(t) => is_type_eligible(Some(&t.rules), side.player, t.owner_allowed, side.living),
            None => false,
        };
        if on_bar {
            let key = s.type_key.as_str();
            let cost = if s.cost > 0 {
                s.cost
            } else {
                match &s.techno {
                    Some(t) => t.cost,
                    None => 0,
                }
            };
            let limit_hit = match &s.techno {
                Some(t) => build_limit_reached(side.entities, side.player.house, key, t.build_limit),
                None => false,
            };
            let is_ready = match &side.ready {
                Some(r) => eq_ignore_ascii_case(r.as_str(), key),
                None => false,
            };
            let (enabled, reason) = if !side.has_yard {
                (false, Some(CommandRejectReason::MissingPrerequisite))
            } else if is_ready {
                (true, None)
            } else if house_list_allows(side.in_production, key) {
                (true, None)
            } else if side.has_yard && !side.yard_idle {
                (false, Some(CommandRejectReason::QueueFull))
            } else {
                evaluate_build_availability(side.has_yard, side.has_power, side.funds, cost, s.requires_power, limit_hit)
            };
            let item = CapabilityItem { type_id: key.to_owned(), cost, enabled, disabled_reason: reason };
            proof {
                assert(item@ == build_item(
                    *s,
                    side.player.house@,
                    side.funds,
                    side.has_yard,
                    side.has_power,
                    text_opt(side.ready),
                    side.yard_idle,
                    side.in_production@,
                    side.entities@,
                ));
            }
            v.push(item);
            assert(item_views(v@) =~= build_items(
                structs@.take(k as int),
                side.player,
                side.living@,
                side.funds,
                side.has_yard,
                side.has_power,
                text_opt(side.ready),
                side.yard_idle,
                side.in_production@,
                side.entities@,
            ).push(item@));
        }
        k = k + 1;
    }
    assert(structs@.take(k as int) =~= structs@);
    sort_items_by_type(v)
}

/// Whether type `t` is on the production bar of class `class`.
pub open spec fn techno_on_bar(t: BarTechno, class: TechnoClass, player: TechTreePlayer, living: Seq<String>) -> bool {
    &&& t.class == class
    &&& eligible(t.rules, player, t.owner_allowed, living)
    &&& !t.deploys
}

/// The production-bar entry of type `t`.
pub open spec fn produce_item(
    t: BarTechno,
    house: Seq<char>,
    funds: i32,
    has_factory: bool,
    factory_idle: bool,
    es: Seq<EntityRecord>,
) -> CapabilityItemView {
    let limit_hit = t.build_limit > 0 && type_count(es, house, t.type_key@) as i32 >= t.build_limit;
    let (enabled, reason) = produce_availability(has_factory, factory_idle, funds, t.cost, limit_hit);
    CapabilityItemView { type_id: t.type_key@, cost: t.cost, enabled, disabled_reason: reason }
}

/// The production-bar entries of `technos` of class `class`, in their order.
pub open spec fn produce_items(
    technos: Seq<BarTechno>,
    class: TechnoClass,
    player: TechTreePlayer,
    living: Seq<String>,
    funds: i32,
    has_factory: bool,
    factory_idle: bool,
    es: Seq<EntityRecord>,
) -> Seq<CapabilityItemView>
    decreases technos.len(),
{
    if technos.len() == 0 {
        Seq::empty()
    } else {
        let rest = produce_items(technos.drop_last(), class, player, living, funds, has_factory, factory_idle, es);
        if techno_on_bar(technos.last(), class, player, living) {
            rest.push(produce_item(technos.last(), player.house@, funds, has_factory, factory_idle, es))
        } else {
            rest
        }
    }
}

/// The production bar of class `class` for a side: the eligible types of
/// that class that do not deploy, each with its availability, sorted by type
/// key.
pub fn project_produce_items(
    technos: &[BarTechno],
    class: TechnoClass,
    player: TechTreePlayer,
    living: &[String],
    funds: i32,
    has_factory: bool,
    factory_idle: bool,
    entities: &[EntityRecord],
) -> (items: Vec<CapabilityItem>)
    ensures
        sorted_by_type(item_views(items@)),
        item_views(items@).to_multiset() == produce_items(
            technos@,
            class,
            player,
            living@,
            funds,
            has_factory,
            factory_idle,
            entities@,
        ).to_multiset(),
{
    let mut v: Vec<CapabilityItem> = Vec::new();
    let mut k: usize = 0;
    while k < technos.len()
        invariant
            k <= technos@.len(),
            item_views(v@) == produce_items(
                technos@.take(k as int),
                class,
                player,
                living@,
                funds,
                has_factory,
                factory_idle,
                entities@,
            ),
        decreases technos@.len() - k,
    {
        let t = &technos[k];
        proof {
            assert(technos@.take(k + 1).drop_last() =~= technos@.take(k as int));
            assert(technos@.take(k + 1).last() == *t);
        }
        if t.class == class && is_type_eligible(Some(&t.rules), player, t.owner_allowed, living) && !t.deploys {
            let key = t.type_key.as_str();
            let limit_hit = build_limit_reached(entities, player.house, key, t.build_limit);
            let (enabled, reason) = evaluate_produce_availability(has_factory, factory_idle, funds, t.cost, limit_hit);
            let item = CapabilityItem { type_id: key.to_owned(), cost: t.cost, enabled, disabled_reason: reason };
            v.push(item);
            assert(item_views(v@) =~= produce_items(
                technos@.take(k as int),
                class,
                player,
                living@,
                funds,
                has_factory,
                factory_idle,
                entities@,
            ).push(item@));
        }
        k = k + 1;
    }
    assert(technos@.take(k as int) =~= technos@);
    sort_items_by_type(v)
}


/// Entity `e` is a living structure of exactly house `house`.
pub open spec fn living_structure_of(e: EntityRecord, house: Seq<char>) -> bool {
    &&& e.alive
    &&& e.owner matches Some(o) && o@ == house
    &&& e.identity matches Some(i) && i.kind == EntityKind::Structure
}

/// `k` is the type id of a living structure of `house`.
pub open spec fn living_structure_type(es: Seq<EntityRecord>, house: Seq<char>, k: Seq<char>) -> bool {
    exists|j: int|
        0 <= j < es.len() && living_structure_of(#[trigger] es[j], house) && es[j].identity.unwrap().type_id@ == k
}

/// Type ids of `house`'s living structures, sorted and without repeats.
pub fn living_structure_type_keys(entities: &[EntityRecord], house: &str) -> (keys: Vec<String>)
    ensures
        strictly_sorted(texts(keys@)),
        forall|k: Seq<char>| #[trigger] texts(keys@).contains(k) <==> living_structure_type(entities@, house@, k),
{
    let mut keys: Vec<String> = Vec::new();
    assert(texts(keys@) =~= Seq::<Seq<char>>::empty());
    let mut j: usize = 0;
    while j < entities.len()
        invariant
            j <= entities@.len(),
            strictly_sorted(texts(keys@)),
            forall|k: Seq<char>| #[trigger]
                texts(keys@).contains(k) <==> living_structure_type(entities@.take(j as int), house@, k),
        decreases entities@.len() - j,
    {
        let e = &entities[j];
        let owned = match &e.owner {
            Some(o) => same_text(o.as_str(), house),
            None => false,
        };
        let ghost t0 = entities@.take(j as int);
        let ghost t1 = entities@.take(j + 1);
        match &e.identity {
            Some(i) => {
                if e.alive && owned && i.kind == EntityKind::Structure {
                    insert_sorted_key(&mut keys, i.type_id.as_str());
                }
            },
            None => {},
        }
        proof {
            assert forall|k: Seq<char>| #[trigger] texts(keys@).contains(k) <==> living_structure_type(t1, house@, k) by {
                if living_structure_type(t1, house@, k) {
                    let m = choose|m: int|
                        0 <= m < t1.len() && living_structure_of(#[trigger] t1[m], house@) && t1[m].identity.unwrap().type_id@
                            == k;
                    if m < j {
                        assert(t0[m] == t1[m]);
                        assert(living_structure_type(t0, house@, k));
                    } else {
                        assert(t1[m] == *e);
                    }
                }
                if living_structure_type(t0, house@, k) {
                    let m = choose|m: int|
                        0 <= m < t0.len() && living_structure_of(#[trigger] t0[m], house@) && t0[m].identity.unwrap().type_id@
                            == k;
                    assert(t1[m] == t0[m]);
                }
                if living_structure_of(*e, house@) && e.identity.unwrap().type_id@ == k {
                    assert(t1[j as int] == *e);
                }
            }
        }
        j = j + 1;
    }
    assert(entities@.take(j as int) =~= entities@);
    keys
}

/// A building type and the super weapon it provides.
#[derive(Clone, Debug)]
pub struct StructureWeapon {
    pub structure: String,
    pub weapon: String,
}

/// A super weapon of the definitions as the sidebar reads it.
#[derive(Clone, Debug)]
pub struct SuperWeaponDef {
    /// `[SuperWeaponTypes]` key (upper case).
    pub type_key: String,
    pub ui_name: String,
    pub sidebar_image: String,
    /// `Type=`.
    pub kind: String,
    /// `RechargeTime=`.
    pub recharge_time: i32,
}

/// The weapon the first provider entry for building type `structure` names.
pub open spec fn weapon_of(providers: Seq<StructureWeapon>, structure: Seq<char>) -> Option<Seq<char>>
    decreases providers.len(),
{
    if providers.len() == 0 {
        None
    } else {
        match weapon_of(providers.drop_last(), structure) {
            Some(w) => Some(w),
            None => if providers.last().structure@ == structure {
                Some(providers.last().weapon@)
            } else {
                None
            },
        }
    }
}

/// `k` is the upper-cased key of a weapon that a living structure of
/// `house` provides.
pub open spec fn provided_weapon(es: Seq<EntityRecord>, providers: Seq<StructureWeapon>, house: Seq<char>, k: Seq<char>) -> bool {
    exists|j: int|
        0 <= j < es.len() && living_structure_of(#[trigger] es[j], house) && (weapon_of(
            providers,
            es[j].identity.unwrap().type_id@,
        ) matches Some(w) && k == upper_text(w))
}

/// The first definition with key `k`.
pub open spec fn weapon_def(defs: Seq<SuperWeaponDef>, k: Seq<char>) -> Option<SuperWeaponDef>
    decreases defs.len(),
{
    if defs.len() == 0 {
        None
    } else {
        match weapon_def(defs.drop_last(), k) {
            Some(d) => Some(d),
            None => if defs.last().type_key@ == k {
                Some(defs.last())
            } else {
                None
            },
        }
    }
}

/// A super-weapon bar entry as plain values.
pub struct SuperWeaponItemView {
    pub type_id: Seq<char>,
    pub ui_name: Seq<char>,
    pub sidebar_image: Seq<char>,
    pub kind: Seq<char>,
    pub charge_ticks: u32,
    pub required_ticks: u32,
    pub ready: bool,
    pub enabled: bool,
    pub disabled_reason: Option<CommandRejectReason>,
}

impl View for SuperWeaponCapabilityItem {
    type V = SuperWeaponItemView;

    open spec fn view(&self) -> SuperWeaponItemView {
        SuperWeaponItemView {
            type_id: self.type_id@,
            ui_name: self.ui_name@,
            sidebar_image: self.sidebar_image@,
            kind: self.kind@,
            charge_ticks: self.charge_ticks,
            required_ticks: self.required_ticks,
            ready: self.ready,
            enabled: self.enabled,
            disabled_reason: self.disabled_reason,
        }
    }
}

/// The entry of weapon `k` (definition `d`) for `house`: its charge (the
/// recharge time when it has no slot yet); a weapon still charging is
/// refused as not ready, a ready one whose kind has no bar action as missing
/// a prerequisite.
pub open spec fn weapon_item(
    d: SuperWeaponDef,
    k: Seq<char>,
    v: Seq<crate::super_weapons::HouseChargesView>,
    house: Seq<char>,
) -> SuperWeaponItemView {
    let c = charge_of(v, house, k);
    let required = match c {
        Some(c) => c.required_ticks,
        None => required_ticks(d.recharge_time),
    };
    let charge = match c {
        Some(c) => c.charge_ticks,
        None => 0,
    };
    let ready = c matches Some(c) && charge_ready(c);
    let supported = text_eq_ignore_ascii_case(d.kind@, "LightningStorm"@);
    let (enabled, reason) = if !ready {
        (false, Some(CommandRejectReason::SuperWeaponNotReady))
    } else if !supported {
        (false, Some(CommandRejectReason::MissingPrerequisite))
    } else {
        (true, None)
    };
    SuperWeaponItemView {
        type_id: k,
        ui_name: d.ui_name@,
        sidebar_image: d.sidebar_image@,
        kind: d.kind@,
        charge_ticks: charge,
        required_ticks: required,
        ready,
        enabled,
        disabled_reason: reason,
    }
}

/// The entries of keys `ks` that have a definition, in order.
pub open spec fn weapon_items(
    ks: Seq<Seq<char>>,
    defs: Seq<SuperWeaponDef>,
    v: Seq<crate::super_weapons::HouseChargesView>,
    house: Seq<char>,
) -> Seq<SuperWeaponItemView>
    decreases ks.len(),
{
    if ks.len() == 0 {
        Seq::empty()
    } else {
        let rest = weapon_items(ks.drop_last(), defs, v, house);
        match weapon_def(defs, ks.last()) {
            Some(d) => rest.push(weapon_item(d, ks.last(), v, house)),
            None => rest,
        }
    }
}

/// The entries as plain values.
pub open spec fn weapon_item_views(s: Seq<SuperWeaponCapabilityItem>) -> Seq<SuperWeaponItemView> {
    s.map_values(|c: SuperWeaponCapabilityItem| c@)
}

fn find_weapon_of(providers: &[StructureWeapon], structure: &str) -> (r: Option<usize>)
    ensures
        match r {
            Some(i) => i < providers@.len() && weapon_of(providers@, structure@) == Some(providers@[i as int].weapon@),
            None => weapon_of(providers@, structure@) is None,
        },
{
    let mut i: usize = 0;
    while i < providers.len()
        invariant
            i <= providers@.len(),
            weapon_of(providers@.take(i as int), structure@) is None,
        decreases providers@.len() - i,
    {
        proof {
            assert(providers@.take(i + 1).drop_last() =~= providers@.take(i as int));
            assert(providers@.take(i + 1).last() == providers@[i as int]);
        }
        if same_text(providers[i].structure.as_str(), structure) {
            proof {
                lemma_weapon_of_prefix(providers@, structure@, i + 1);
            }
            return Some(i);
        }
        i = i + 1;
    }
    assert(providers@.take(i as int) =~= providers@);
    None
}

proof fn lemma_weapon_of_prefix(providers: Seq<StructureWeapon>, structure: Seq<char>, k: int)
    requires
        0 <= k <= providers.len(),
        weapon_of(providers.take(k), structure) is Some,
    ensures
        weapon_of(providers, structure) == weapon_of(providers.take(k), structure),
    decreases providers.len() - k,
{
    if k < providers.len() {
        assert(providers.take(k + 1).drop_last() =~= providers.take(k));
        lemma_weapon_of_prefix(providers, structure, k + 1);
    } else {
        assert(providers.take(k) =~= providers);
    }
}

proof fn lemma_weapon_def_prefix(defs: Seq<SuperWeaponDef>, key: Seq<char>, k: int)
    requires
        0 <= k <= defs.len(),
        weapon_def(defs.take(k), key) is Some,
    ensures
        weapon_def(defs, key) == weapon_def(defs.take(k), key),
    decreases defs.len() - k,
{
    if k < defs.len() {
        assert(defs.take(k + 1).drop_last() =~= defs.take(k));
        lemma_weapon_def_prefix(defs, key, k + 1);
    } else {
        assert(defs.take(k) =~= defs);
    }
}

fn find_weapon_def(defs: &[SuperWeaponDef], key: &str) -> (r: Option<usize>)
    ensures
        match r {
            Some(i) => i < defs@.len() && weapon_def(defs@, key@) == Some(defs@[i as int]),
            None => weapon_def(defs@, key@) is None,
        },
{
    let mut i: usize = 0;
    while i < defs.len()
        invariant
            i <= defs@.len(),
            weapon_def(defs@.take(i as int), key@) is None,
        decreases defs@.len() - i,
    {
        proof {
            assert(defs@.take(i + 1).drop_last() =~= defs@.take(i as int));
            assert(defs@.take(i + 1).last() == defs@[i as int]);
        }
        if same_text(defs[i].type_key.as_str(), key) {
            proof {
                lemma_weapon_def_prefix(defs@, key@, i + 1);
            }
            return Some(i);
        }
        i = i + 1;
    }
    assert(defs@.take(i as int) =~= defs@);
    None
}

/// Sorted keys of the super weapons that `house`'s living structures
/// provide (upper-cased).
fn provided_weapon_keys(entities: &[EntityRecord], house: &str, providers: &[StructureWeapon]) -> (keys: Vec<String>)
    ensures
        strictly_sorted(texts(keys@)),
        forall|k: Seq<char>| #[trigger] texts(keys@).contains(k) <==> provided_weapon(entities@, providers@, house@, k),
{
    let mut keys: Vec<String> = Vec::new();
    assert(texts(keys@) =~= Seq::<Seq<char>>::empty());
    let mut j: usize = 0;
    while j < entities.len()
        invariant
            j <= entities@.len(),
            strictly_sorted(texts(keys@)),
            forall|k: Seq<char>| #[trigger]
                texts(keys@).contains(k) <==> provided_weapon(entities@.take(j as int), providers@, house@, k),
        decreases entities@.len() - j,
    {
        let e = &entities[j];
        let owned = match &e.owner {
            Some(o) => same_text(o.as_str(), house),
            None => false,
        };
        let ghost t0 = entities@.take(j as int);
        let ghost t1 = entities@.take(j + 1);
        let ghost mut added: Option<Seq<char>> = None;
        match &e.identity {
            Some(i) => {
                if e.alive && owned && i.kind == EntityKind::Structure {
                    match find_weapon_of(providers, i.type_id.as_str()) {
                        Some(p) => {
                            let key = to_ascii_upper(providers[p].weapon.as_str());
                            proof {
                                lemma_upper_of_is_upper_text(key@, providers@[p as int].weapon@);
                                added = Some(key@);
                            }
                            insert_sorted_key(&mut keys, key.as_str());
                        },
                        None => {},
                    }
                }
            },
            None => {},
        }
        proof {
            assert(added matches Some(a) ==> provided_weapon(t1, providers@, house@, a)) by {
                if added is Some {
                    assert(t1[j as int] == *e);
                }
            }
            assert forall|k: Seq<char>| #[trigger] texts(keys@).contains(k) <==> provided_weapon(t1, providers@, house@, k) by {
                if provided_weapon(t1, providers@, house@, k) {
                    let m = choose|m: int|
                        0 <= m < t1.len() && living_structure_of(#[trigger] t1[m], house@) && (weapon_of(
                            providers@,
                            t1[m].identity.unwrap().type_id@,
                        ) matches Some(w) && k == upper_text(w));
                    if m < j {
                        assert(t0[m] == t1[m]);
                        assert(provided_weapon(t0, providers@, house@, k));
                    } else {
                        assert(t1[m] == *e);
                    }
                }
                if provided_weapon(t0, providers@, house@, k) {
                    let m = choose|m: int|
                        0 <= m < t0.len() && living_structure_of(#[trigger] t0[m], house@) && (weapon_of(
                            providers@,
                            t0[m].identity.unwrap().type_id@,
                        ) matches Some(w) && k == upper_text(w));
                    assert(t1[m] == t0[m]);
                }
            }
        }
        j = j + 1;
    }
    assert(entities@.take(j as int) =~= entities@);
    keys
}

/// The super-weapon bar of `house`: one entry per weapon its living
/// structures provide (keys upper-cased, sorted, each once) that the
/// definitions know, with its charge and whether it may be fired.
pub fn project_super_weapon_items(
    entities: &[EntityRecord],
    house: &str,
    providers: &[StructureWeapon],
    defs: &[SuperWeaponDef],
    rt: &SuperWeaponRuntime,
) -> (items: Vec<SuperWeaponCapabilityItem>)
    requires
        rt.wf(),
    ensures
        exists|ks: Seq<Seq<char>>|
            {
                &&& strictly_sorted(ks)
                &&& forall|k: Seq<char>| #[trigger] ks.contains(k) <==> provided_weapon(entities@, providers@, house@, k)
                &&& weapon_item_views(items@) == weapon_items(ks, defs@, rt@, house@)
            },
{
    let keys = provided_weapon_keys(entities, house, providers);
    let ghost ks = texts(keys@);
    let mut out: Vec<SuperWeaponCapabilityItem> = Vec::new();
    let mut k: usize = 0;
    while k < keys.len()
        invariant
            k <= keys@.len(),
            ks == texts(keys@),
            rt.wf(),
            weapon_item_views(out@) == weapon_items(ks.take(k as int), defs@, rt@, house@),
        decreases keys@.len() - k,
    {
        let key = keys[k].as_str();
        proof {
            assert(ks.take(k + 1).drop_last() =~= ks.take(k as int));
            assert(ks.take(k + 1).last() == key@);
        }
        match find_weapon_def(defs, key) {
            Some(d) => {
                let def = &defs[d];
                let c = rt.charge(house, key);
                let required = match c {
                    Some(c) => c.required_ticks,
                    None => required_ticks_for_sw(def.recharge_time),
                };
                let charge = match c {
                    Some(c) => c.charge_ticks,
                    None => 0,
                };
                let ready = match c {
                    Some(c) => c.is_ready(),
                    None => false,
                };
                let supported = eq_ignore_ascii_case(def.kind.as_str(), "LightningStorm");
                let (enabled, reason) = if !ready {
                    (false, Some(CommandRejectReason::SuperWeaponNotReady))
                } else if !supported {
                    (false, Some(CommandRejectReason::MissingPrerequisite))
                } else {
                    (true, None)
                };
                let item = SuperWeaponCapabilityItem {
                    type_id: key.to_owned(),
                    ui_name: def.ui_name.as_str().to_owned(),
                    sidebar_image: def.sidebar_image.as_str().to_owned(),
                    kind: def.kind.as_str().to_owned(),
                    charge_ticks: charge,
                    required_ticks: required,
                    ready,
                    enabled,
                    disabled_reason: reason,
                };
                proof {
                    assert(item@ == weapon_item(*def, key@, rt@, house@));
                }
                out.push(item);
                assert(weapon_item_views(out@) =~= weapon_items(ks.take(k as int), defs@, rt@, house@).push(item@));
            },
            None => {},
        }
        k = k + 1;
    }
    assert(ks.take(k as int) =~= ks);
    out
}

} // verus!
