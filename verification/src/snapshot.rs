//! The capabilities snapshot of a side: every entry is bound to the
//! buildings alive right now, so losing the construction yard, power plant,
//! barracks or war factory takes `enabled` off the matching entries in the
//! next snapshot.

use vstd::prelude::*;

use crate::capabilities::{
    build_items, item_views, produce_items, project_build_items, project_produce_items, project_super_weapon_items,
    provided_weapon, sort_items_by_type, sorted_by_type, text_opt, weapon_item_views, weapon_items, BarStructure,
    BarTechno, BuildBarSide, CapabilityItem, CapabilityItemView, StructureWeapon, SuperWeaponCapabilityItem,
    SuperWeaponDef,
};
use crate::capabilities::CommandRejectReason;
use crate::command_checks::TechnoClass;
use crate::entities::EntityRecord;
use crate::players::TechTreePlayer;
use crate::commands::EntityId;
use crate::key_order::{strictly_sorted, texts};
use crate::super_weapons::SuperWeaponRuntime;
use crate::text::same_text;

verus! {

/// What the snapshot reads of a side besides the definitions.
pub struct SnapshotSide<'a> {
    /// Player, living structures, funds, yard and power, and the build queue.
    pub bar: BuildBarSide<'a>,
    pub power_output: i32,
    pub power_drain: i32,
    pub has_infantry_factory: bool,
    pub has_vehicle_factory: bool,
    pub has_aircraft_factory: bool,
    pub has_radar: bool,
    /// Whether a factory of each class is idle.
    pub infantry_idle: bool,
    pub vehicle_idle: bool,
    pub aircraft_idle: bool,
    /// Which structures provide which super weapon, the weapons'
    /// definitions, and their charges.
    pub providers: &'a [StructureWeapon],
    pub weapons: &'a [SuperWeaponDef],
    pub charges: &'a SuperWeaponRuntime,
    /// For each selected entity, the building it deploys into when it is
    /// alive and can deploy.
    pub deploy_targets: &'a [Option<String>],
    /// The side's factories, in entity order.
    pub queues: &'a [QueueFacts],
}

/// What the snapshot reads of a factory of the side: its queued item with
/// the ticks left, or the finished item waiting, the ticks the item takes
/// in all, and its rally point.
pub struct QueueFacts {
    pub factory: EntityId,
    pub item: Option<(String, u32)>,
    pub ready: Option<String>,
    pub total_ticks: u32,
    pub rally_x: Option<u16>,
    pub rally_y: Option<u16>,
}

/// A production queue as the sidebar shows it.
pub struct ProduceQueueSummary {
    pub factory: EntityId,
    pub type_id: String,
    /// Ticks left (0 for a finished item).
    pub remaining_ticks: u32,
    pub total_ticks: u32,
    pub rally_x: Option<u16>,
    pub rally_y: Option<u16>,
}

/// The deploy entry of the selection.
pub struct DeployCapability {
    pub entity: EntityId,
    /// The building it deploys into.
    pub into_type: String,
    pub enabled: bool,
    pub disabled_reason: Option<CommandRejectReason>,
}

/// The summary of a factory's queue: the queued item, else the finished
/// one, else none.
pub open spec fn queue_summary(q: QueueFacts, r: ProduceQueueSummary) -> bool {
    &&& r.factory == q.factory
    &&& r.total_ticks == q.total_ticks
    &&& r.rally_x == q.rally_x
    &&& r.rally_y == q.rally_y
    &&& match q.item {
        Some((t, rem)) => r.type_id@ == t@ && r.remaining_ticks == rem,
        None => q.ready matches Some(t) && r.type_id@ == t@ && r.remaining_ticks == 0,
    }
}

/// Whether factory `q` has a queue to show.
pub open spec fn shows_queue(q: QueueFacts) -> bool {
    q.item is Some || q.ready is Some
}

/// The factories of `qs` with a queue to show, in order, and their
/// summaries.
pub open spec fn queues_of(qs: Seq<QueueFacts>, rs: Seq<ProduceQueueSummary>) -> bool {
    exists|idx: Seq<int>|
        {
            &&& idx.len() == rs.len()
            &&& forall|k: int| 0 <= k < idx.len() ==> 0 <= #[trigger] idx[k] < qs.len()
            &&& forall|k: int, l: int| 0 <= k < l < idx.len() ==> #[trigger] idx[k] < #[trigger] idx[l]
            &&& forall|k: int| 0 <= k < idx.len() ==> queue_summary(qs[#[trigger] idx[k]], rs[k])
            &&& forall|j: int| 0 <= j < qs.len() ==> (shows_queue(#[trigger] qs[j]) <==> exists|k: int| 0 <= k < idx.len() && idx[k] == j)
        }
}

/// Position of the first selected entity that can deploy, at or after `i`.
pub open spec fn first_deployable(targets: Seq<Option<String>>, i: int) -> Option<int>
    decreases targets.len() - i,
{
    if i < 0 || i >= targets.len() {
        None
    } else if targets[i] is Some {
        Some(i)
    } else {
        first_deployable(targets, i + 1)
    }
}

/// What a side may build, produce and fire at one moment.
pub struct CapabilitiesSnapshot {
    pub house: String,
    pub funds: i32,
    pub power_output: i32,
    pub power_drain: i32,
    pub has_construction_yard: bool,
    pub has_power_plant: bool,
    pub has_infantry_factory: bool,
    pub has_vehicle_factory: bool,
    pub has_aircraft_factory: bool,
    pub has_radar: bool,
    pub selected: Vec<EntityId>,
    /// The first selected entity that can deploy, if any.
    pub deploy: Option<DeployCapability>,
    /// Buildings off the defense tab.
    pub build_items: Vec<CapabilityItem>,
    /// Buildings on the defense tab.
    pub defense_items: Vec<CapabilityItem>,
    pub infantry_items: Vec<CapabilityItem>,
    pub vehicle_items: Vec<CapabilityItem>,
    pub aircraft_items: Vec<CapabilityItem>,
    pub super_weapon_items: Vec<SuperWeaponCapabilityItem>,
    pub queues: Vec<ProduceQueueSummary>,
}

/// `build` and `defense` are the entries of `all` off and on the defense
/// tab (type keys in `keys`), each sorted by type key.
pub open spec fn tabs_split(
    build: Seq<CapabilityItemView>,
    defense: Seq<CapabilityItemView>,
    all: Seq<CapabilityItemView>,
    keys: Seq<Seq<char>>,
) -> bool {
    &&& sorted_by_type(build)
    &&& sorted_by_type(defense)
    &&& build.to_multiset().add(defense.to_multiset()) == all.to_multiset()
    &&& forall|i: int| 0 <= i < build.len() ==> !keys.contains(#[trigger] build[i].type_id)
    &&& forall|i: int| 0 <= i < defense.len() ==> keys.contains(#[trigger] defense[i].type_id)
}

/// `items` are the production entries of class `class` for `side`, sorted
/// by type key.
pub open spec fn produce_bar(
    items: Seq<CapabilityItemView>,
    side: SnapshotSide,
    technos: Seq<BarTechno>,
    class: TechnoClass,
    has_factory: bool,
    idle: bool,
) -> bool {
    &&& sorted_by_type(items)
    &&& items.to_multiset() == produce_items(
        technos,
        class,
        side.bar.player,
        side.bar.living@,
        side.bar.funds,
        has_factory,
        idle,
        side.bar.entities@,
    ).to_multiset()
}

/// `s` is the snapshot of `side` over the definitions `structs` and
/// `technos` (defense-tab keys `defense_keys`) with `selected` selected.
pub open spec fn snapshot_of(
    s: CapabilitiesSnapshot,
    side: SnapshotSide,
    structs: Seq<BarStructure>,
    technos: Seq<BarTechno>,
    defense_keys: Seq<String>,
    selected: Seq<EntityId>,
) -> bool {
    let bar = side.bar;
    let house = bar.player.house@;
    &&& s.house@ == house
    &&& s.funds == bar.funds
    &&& s.power_output == side.power_output
    &&& s.power_drain == side.power_drain
    &&& s.has_construction_yard == bar.has_yard
    &&& s.has_power_plant == bar.has_power
    &&& s.has_infantry_factory == side.has_infantry_factory
    &&& s.has_vehicle_factory == side.has_vehicle_factory
    &&& s.has_aircraft_factory == side.has_aircraft_factory
    &&& s.has_radar == side.has_radar
    &&& s.selected@ == selected
    &&& match first_deployable(side.deploy_targets@, 0) {
        Some(i) => s.deploy matches Some(d) && d.entity == selected[i] && d.into_type@ == side.deploy_targets@[i]->0@
            && d.enabled && d.disabled_reason is None,
        None => s.deploy is None,
    }
    &&& queues_of(side.queues@, s.queues@)
    &&& tabs_split(
        item_views(s.build_items@),
        item_views(s.defense_items@),
        build_items(
            structs,
            bar.player,
            bar.living@,
            bar.funds,
            bar.has_yard,
            bar.has_power,
            text_opt(bar.ready),
            bar.yard_idle,
            bar.in_production@,
            bar.entities@,
        ),
        texts(defense_keys),
    )
    &&& produce_bar(
        item_views(s.infantry_items@),
        side,
        technos,
        TechnoClass::Infantry,
        side.has_infantry_factory,
        side.infantry_idle,
    )
    &&& produce_bar(
        item_views(s.vehicle_items@),
        side,
        technos,
        TechnoClass::Vehicle,
        side.has_vehicle_factory,
        side.vehicle_idle,
    )
    &&& produce_bar(
        item_views(s.aircraft_items@),
        side,
        technos,
        TechnoClass::Aircraft,
        side.has_aircraft_factory,
        side.aircraft_idle,
    )
    &&& exists|ks: Seq<Seq<char>>|
        {
            &&& strictly_sorted(ks)
            &&& forall|k: Seq<char>| #[trigger] ks.contains(k) <==> provided_weapon(bar.entities@, side.providers@, house, k)
            &&& weapon_item_views(s.super_weapon_items@) == weapon_items(ks, side.weapons@, side.charges@, house)
        }
}

/// Whether `k` is one of `keys`.
fn has_key(keys: &[String], k: &str) -> (b: bool)
    ensures
        b == texts(keys@).contains(k@),
{
    let mut i: usize = 0;
    while i < keys.len()
        invariant
            i <= keys@.len(),
            forall|j: int| 0 <= j < i ==> keys@[j]@ != k@,
        decreases keys@.len() - i,
    {
        if same_text(keys[i].as_str(), k) {
            assert(texts(keys@)[i as int] == k@);
            return true;
        }
        i = i + 1;
    }
    proof {
        if texts(keys@).contains(k@) {
            let j = choose|j: int| 0 <= j < texts(keys@).len() && texts(keys@)[j] == k@;
            assert(keys@[j]@ == k@);
        }
    }
    false
}

/// Parts `items` into the entries off and on the defense tab, each sorted.
fn split_tabs(items: Vec<CapabilityItem>, defense_keys: &[String]) -> (r: (Vec<CapabilityItem>, Vec<CapabilityItem>))
    ensures
        tabs_split(item_views(r.0@), item_views(r.1@), item_views(items@), texts(defense_keys@)),
{
    broadcast use vstd::seq_lib::group_to_multiset_ensures;

    let ghost all = item_views(items@);
    let ghost keys = texts(defense_keys@);
    let mut rest = items;
    let mut build: Vec<CapabilityItem> = Vec::new();
    let mut defense: Vec<CapabilityItem> = Vec::new();
    assert(item_views(build@) =~= Seq::<CapabilityItemView>::empty());
    assert(item_views(defense@) =~= Seq::<CapabilityItemView>::empty());
    while rest.len() > 0
        invariant
            keys == texts(defense_keys@),
            item_views(build@).to_multiset().add(item_views(defense@).to_multiset()).add(item_views(rest@).to_multiset())
                == all.to_multiset(),
            forall|i: int| 0 <= i < build@.len() ==> !keys.contains(#[trigger] build@[i].type_id@),
            forall|i: int| 0 <= i < defense@.len() ==> keys.contains(#[trigger] defense@[i].type_id@),
        decreases rest@.len(),
    {
        let ghost r0 = rest@;
        let ghost b0 = item_views(build@);
        let ghost d0 = item_views(defense@);
        let x = rest.pop().unwrap();
        let ghost xv = x@;
        proof {
            assert(r0 =~= rest@.push(x));
            assert(item_views(r0) =~= item_views(rest@).push(xv));
            vstd::seq_lib::to_multiset_build(item_views(rest@), xv);
            vstd::seq_lib::to_multiset_build(b0, xv);
            vstd::seq_lib::to_multiset_build(d0, xv);
        }
        if has_key(defense_keys, x.type_id.as_str()) {
            defense.push(x);
            assert(item_views(defense@) =~= d0.push(xv));
            assert(b0.to_multiset().add(d0.push(xv).to_multiset()).add(item_views(rest@).to_multiset()) =~= b0.to_multiset().add(
                d0.to_multiset(),
            ).add(item_views(r0).to_multiset()));
        } else {
            build.push(x);
            assert(item_views(build@) =~= b0.push(xv));
            assert(b0.push(xv).to_multiset().add(d0.to_multiset()).add(item_views(rest@).to_multiset()) =~= b0.to_multiset().add(
                d0.to_multiset(),
            ).add(item_views(r0).to_multiset()));
        }
    }
    assert(item_views(rest@) =~= Seq::<CapabilityItemView>::empty());
    let ghost bv = item_views(build@);
    let ghost dv = item_views(defense@);
    assert(bv.to_multiset().add(dv.to_multiset()) =~= all.to_multiset());
    let build = sort_items_by_type(build);
    let defense = sort_items_by_type(defense);
    proof {
        let b1 = item_views(build@);
        let d1 = item_views(defense@);
        assert forall|i: int| 0 <= i < b1.len() implies !keys.contains(#[trigger] b1[i].type_id) by {
            assert(b1.to_multiset().count(b1[i]) > 0);
            assert(bv.to_multiset().count(b1[i]) > 0);
            let j = choose|j: int| 0 <= j < bv.len() && bv[j] == b1[i];
            assert(bv[j].type_id == build@[i].type_id@);
        }
        assert forall|i: int| 0 <= i < d1.len() implies keys.contains(#[trigger] d1[i].type_id) by {
            assert(d1.to_multiset().count(d1[i]) > 0);
            assert(dv.to_multiset().count(d1[i]) > 0);
            let j = choose|j: int| 0 <= j < dv.len() && dv[j] == d1[i];
        }
    }
    (build, defense)
}

fn copy_text(t: &String) -> (c: String)
    ensures
        c@ == t@,
{
    t.as_str().to_owned()
}

/// The deploy entry of the selection (see [`first_deployable`]).
fn deploy_entry(selected: &[EntityId], targets: &[Option<String>]) -> (d: Option<DeployCapability>)
    requires
        targets@.len() == selected@.len(),
    ensures
        match first_deployable(targets@, 0) {
            Some(i) => d matches Some(c) && c.entity == selected@[i] && c.into_type@ == targets@[i]->0@ && c.enabled
                && c.disabled_reason is None,
            None => d is None,
        },
{
    let mut i: usize = 0;
    while i < targets.len()
        invariant
            i <= targets@.len(),
            targets@.len() == selected@.len(),
            first_deployable(targets@, 0) == first_deployable(targets@, i as int),
        decreases targets@.len() - i,
    {
        match &targets[i] {
            Some(t) => {
                return Some(
                    DeployCapability {
                        entity: EntityId(selected[i].0),
                        into_type: copy_text(t),
                        enabled: true,
                        disabled_reason: None,
                    },
                );
            },
            None => {},
        }
        i = i + 1;
    }
    None
}

/// The queues the side's factories show (see [`queues_of`]).
fn queue_summaries(qs: &[QueueFacts]) -> (rs: Vec<ProduceQueueSummary>)
    ensures
        queues_of(qs@, rs@),
{
    let mut rs: Vec<ProduceQueueSummary> = Vec::new();
    let ghost mut idx: Seq<int> = Seq::empty();
    let mut j: usize = 0;
    while j < qs.len()
        invariant
            j <= qs@.len(),
            idx.len() == rs@.len(),
            forall|k: int| 0 <= k < idx.len() ==> 0 <= #[trigger] idx[k] < j,
            forall|k: int, l: int| 0 <= k < l < idx.len() ==> #[trigger] idx[k] < #[trigger] idx[l],
            forall|k: int| 0 <= k < idx.len() ==> queue_summary(qs@[#[trigger] idx[k]], rs@[k]),
            forall|m: int| 0 <= m < j ==> (shows_queue(#[trigger] qs@[m]) <==> exists|k: int| 0 <= k < idx.len() && idx[k] == m),
        decreases qs@.len() - j,
    {
        let q = &qs[j];
        let summary: Option<ProduceQueueSummary> = match &q.item {
            Some((t, rem)) => Some(
                ProduceQueueSummary {
                    factory: EntityId(q.factory.0),
                    type_id: copy_text(t),
                    remaining_ticks: *rem,
                    total_ticks: q.total_ticks,
                    rally_x: q.rally_x,
                    rally_y: q.rally_y,
                },
            ),
            None => match &q.ready {
                Some(t) => Some(
                    ProduceQueueSummary {
                        factory: EntityId(q.factory.0),
                        type_id: copy_text(t),
                        remaining_ticks: 0,
                        total_ticks: q.total_ticks,
                        rally_x: q.rally_x,
                        rally_y: q.rally_y,
                    },
                ),
                None => None,
            },
        };
        let ghost idx0 = idx;
        match summary {
            Some(r) => {
                rs.push(r);
                proof {
                    idx = idx.push(j as int);
                    assert forall|m: int| 0 <= m < j + 1 implies (shows_queue(#[trigger] qs@[m]) <==> exists|k: int|
                        0 <= k < idx.len() && idx[k] == m) by {
                        if m < j {
                            if shows_queue(qs@[m]) {
                                let k = choose|k: int| 0 <= k < idx0.len() && idx0[k] == m;
                                assert(idx[k] == m);
                            } else {
                                if exists|k: int| 0 <= k < idx.len() && idx[k] == m {
                                    let k = choose|k: int| 0 <= k < idx.len() && idx[k] == m;
                                    assert(k < idx0.len());
                                }
                            }
                        } else {
                            assert(idx[idx0.len() as int] == m);
                        }
                    }
                }
            },
            None => {
                proof {
                    assert forall|m: int| 0 <= m < j + 1 implies (shows_queue(#[trigger] qs@[m]) <==> exists|k: int|
                        0 <= k < idx.len() && idx[k] == m) by {
                        if m == j {
                            if exists|k: int| 0 <= k < idx.len() && idx[k] == m {
                                let k = choose|k: int| 0 <= k < idx.len() && idx[k] == m;
                                assert(idx[k] < j);
                            }
                        }
                    }
                }
            },
        }
        j = j + 1;
    }
    rs
}

/// The capabilities of `side`: flags of its living buildings, the build bar
/// parted into its two tabs, one production bar per class, the super
/// weapons, and the selection.
pub fn snapshot_capabilities(
    side: &SnapshotSide,
    structs: &[BarStructure],
    technos: &[BarTechno],
    defense_keys: &[String],
    selected: &[EntityId],
) -> (s: CapabilitiesSnapshot)
    requires
        side.charges.wf(),
        side.deploy_targets@.len() == selected@.len(),
    ensures
        snapshot_of(s, *side, structs@, technos@, defense_keys@, selected@),
{
    let bar = &side.bar;
    let all = project_build_items(structs, bar);
    let (build_items, defense_items) = split_tabs(all, defense_keys);
    let infantry_items = project_produce_items(
        technos,
        TechnoClass::Infantry,
        bar.player,
        bar.living,
        bar.funds,
        side.has_infantry_factory,
        side.infantry_idle,
        bar.entities,
    );
    let vehicle_items = project_produce_items(
        technos,
        TechnoClass::Vehicle,
        bar.player,
        bar.living,
        bar.funds,
        side.has_vehicle_factory,
        side.vehicle_idle,
        bar.entities,
    );
    let aircraft_items = project_produce_items(
        technos,
        TechnoClass::Aircraft,
        bar.player,
        bar.living,
        bar.funds,
        side.has_aircraft_factory,
        side.aircraft_idle,
        bar.entities,
    );
    let super_weapon_items = project_super_weapon_items(
        bar.entities,
        bar.player.house,
        side.providers,
        side.weapons,
        side.charges,
    );
    let mut sel: Vec<EntityId> = Vec::new();
    let mut i: usize = 0;
    while i < selected.len()
        invariant
            i <= selected@.len(),
            sel@ == selected@.take(i as int),
        decreases selected@.len() - i,
    {
        sel.push(EntityId(selected[i].0));
        assert(sel@ =~= selected@.take(i + 1));
        i = i + 1;
    }
    assert(selected@.take(i as int) =~= selected@);
    let deploy = deploy_entry(selected, side.deploy_targets);
    let queues = queue_summaries(side.queues);
    CapabilitiesSnapshot {
        house: bar.player.house.to_owned(),
        funds: bar.funds,
        power_output: side.power_output,
        power_drain: side.power_drain,
        has_construction_yard: bar.has_yard,
        has_power_plant: bar.has_power,
        has_infantry_factory: side.has_infantry_factory,
        has_vehicle_factory: side.has_vehicle_factory,
        has_aircraft_factory: side.has_aircraft_factory,
        has_radar: side.has_radar,
        selected: sel,
        deploy,
        build_items,
        defense_items,
        infantry_items,
        vehicle_items,
        aircraft_items,
        super_weapon_items,
        queues,
    }
}

/// An entry refused for a missing building.
pub open spec fn refused_missing(c: CapabilityItemView) -> bool {
    !c.enabled && c.disabled_reason == Some(CommandRejectReason::MissingPrerequisite)
}

/// Without a construction yard every build-bar entry is refused for a
/// missing building.
proof fn lemma_build_items_without_yard(
    structs: Seq<BarStructure>,
    player: TechTreePlayer,
    living: Seq<String>,
    funds: i32,
    has_power: bool,
    ready: Option<Seq<char>>,
    yard_idle: bool,
    in_production: Seq<String>,
    es: Seq<EntityRecord>,
)
    ensures
        ({
            let items = build_items(structs, player, living, funds, false, has_power, ready, yard_idle, in_production, es);
            forall|i: int| 0 <= i < items.len() ==> refused_missing(#[trigger] items[i])
        }),
    decreases structs.len(),
{
    if structs.len() > 0 {
        lemma_build_items_without_yard(structs.drop_last(), player, living, funds, has_power, ready, yard_idle, in_production, es);
        let rest = build_items(structs.drop_last(), player, living, funds, false, has_power, ready, yard_idle, in_production, es);
        let items = build_items(structs, player, living, funds, false, has_power, ready, yard_idle, in_production, es);
        assert forall|i: int| 0 <= i < items.len() implies refused_missing(#[trigger] items[i]) by {
            if i < rest.len() {
                assert(items[i] == rest[i]);
            }
        }
    }
}

/// Without a factory of the class every production entry is refused for a
/// missing building.
proof fn lemma_produce_items_without_factory(
    technos: Seq<BarTechno>,
    class: TechnoClass,
    player: TechTreePlayer,
    living: Seq<String>,
    funds: i32,
    idle: bool,
    es: Seq<EntityRecord>,
)
    ensures
        ({
            let items = produce_items(technos, class, player, living, funds, false, idle, es);
            forall|i: int| 0 <= i < items.len() ==> refused_missing(#[trigger] items[i])
        }),
    decreases technos.len(),
{
    if technos.len() > 0 {
        lemma_produce_items_without_factory(technos.drop_last(), class, player, living, funds, idle, es);
        let rest = produce_items(technos.drop_last(), class, player, living, funds, false, idle, es);
        let items = produce_items(technos, class, player, living, funds, false, idle, es);
        assert forall|i: int| 0 <= i < items.len() implies refused_missing(#[trigger] items[i]) by {
            if i < rest.len() {
                assert(items[i] == rest[i]);
            }
        }
    }
}

/// Entries with the same multiset as entries all refused are all refused.
proof fn lemma_refused_by_multiset(a: Seq<CapabilityItemView>, b: Seq<CapabilityItemView>)
    requires
        a.to_multiset().subset_of(b.to_multiset()),
        forall|i: int| 0 <= i < b.len() ==> refused_missing(#[trigger] b[i]),
    ensures
        forall|i: int| 0 <= i < a.len() ==> refused_missing(#[trigger] a[i]),
{
    broadcast use vstd::seq_lib::group_to_multiset_ensures;

    assert forall|i: int| 0 <= i < a.len() implies refused_missing(#[trigger] a[i]) by {
        assert(a.to_multiset().count(a[i]) > 0);
        assert(b.to_multiset().count(a[i]) > 0);
        let j = choose|j: int| 0 <= j < b.len() && b[j] == a[i];
    }
}

/// A snapshot binds its entries to the living buildings: with no
/// construction yard every entry of both build tabs is refused for a missing
/// building, and with no factory of a class every production entry of that
/// class is.
pub proof fn law_snapshot_follows_living_buildings(
    s: CapabilitiesSnapshot,
    side: SnapshotSide,
    structs: Seq<BarStructure>,
    technos: Seq<BarTechno>,
    defense_keys: Seq<String>,
    selected: Seq<EntityId>,
)
    requires
        snapshot_of(s, side, structs, technos, defense_keys, selected),
    ensures
        !s.has_construction_yard ==> forall|i: int|
            0 <= i < s.build_items@.len() ==> refused_missing(#[trigger] s.build_items@[i]@),
        !s.has_construction_yard ==> forall|i: int|
            0 <= i < s.defense_items@.len() ==> refused_missing(#[trigger] s.defense_items@[i]@),
        !s.has_infantry_factory ==> forall|i: int|
            0 <= i < s.infantry_items@.len() ==> refused_missing(#[trigger] s.infantry_items@[i]@),
        !s.has_vehicle_factory ==> forall|i: int|
            0 <= i < s.vehicle_items@.len() ==> refused_missing(#[trigger] s.vehicle_items@[i]@),
        !s.has_aircraft_factory ==> forall|i: int|
            0 <= i < s.aircraft_items@.len() ==> refused_missing(#[trigger] s.aircraft_items@[i]@),
{
    let bar = side.bar;
    if !s.has_construction_yard {
        let all = build_items(
            structs,
            bar.player,
            bar.living@,
            bar.funds,
            bar.has_yard,
            bar.has_power,
            text_opt(bar.ready),
            bar.yard_idle,
            bar.in_production@,
            bar.entities@,
        );
        lemma_build_items_without_yard(
            structs,
            bar.player,
            bar.living@,
            bar.funds,
            bar.has_power,
            text_opt(bar.ready),
            bar.yard_idle,
            bar.in_production@,
            bar.entities@,
        );
        let b = item_views(s.build_items@);
        let d = item_views(s.defense_items@);
        assert(b.to_multiset().subset_of(all.to_multiset()));
        assert(d.to_multiset().subset_of(all.to_multiset()));
        lemma_refused_by_multiset(b, all);
        lemma_refused_by_multiset(d, all);
        assert forall|i: int| 0 <= i < s.build_items@.len() implies refused_missing(#[trigger] s.build_items@[i]@) by {
            assert(b[i] == s.build_items@[i]@);
        }
        assert forall|i: int| 0 <= i < s.defense_items@.len() implies refused_missing(#[trigger] s.defense_items@[i]@) by {
            assert(d[i] == s.defense_items@[i]@);
        }
    }
    if !s.has_infantry_factory {
        lemma_produce_bar_without_factory(s.infantry_items@, side, technos, TechnoClass::Infantry, side.infantry_idle);
    }
    if !s.has_vehicle_factory {
        lemma_produce_bar_without_factory(s.vehicle_items@, side, technos, TechnoClass::Vehicle, side.vehicle_idle);
    }
    if !s.has_aircraft_factory {
        lemma_produce_bar_without_factory(s.aircraft_items@, side, technos, TechnoClass::Aircraft, side.aircraft_idle);
    }
}

proof fn lemma_produce_bar_without_factory(
    items: Seq<CapabilityItem>,
    side: SnapshotSide,
    technos: Seq<BarTechno>,
    class: TechnoClass,
    idle: bool,
)
    requires
        produce_bar(item_views(items), side, technos, class, false, idle),
    ensures
        forall|i: int| 0 <= i < items.len() ==> refused_missing(#[trigger] items[i]@),
{
    let all = produce_items(technos, class, side.bar.player, side.bar.living@, side.bar.funds, false, idle, side.bar.entities@);
    lemma_produce_items_without_factory(technos, class, side.bar.player, side.bar.living@, side.bar.funds, idle, side.bar.entities@);
    let v = item_views(items);
    lemma_refused_by_multiset(v, all);
    assert forall|i: int| 0 <= i < items.len() implies refused_missing(#[trigger] items[i]@) by {
        assert(v[i] == items[i]@);
    }
}

} // verus!
