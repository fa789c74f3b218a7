//! Unit production orders against the funds and factories as they stand:
//! the facts a unit order is checked on are read from the production state
//! after the orders before it, and an accepted order pays the type's cost
//! (counted as spent), and puts the type, upper-cased, with its production
//! ticks into the factory that takes it. A second order in the same batch
//! therefore finds the factory busy or the funds spent. A cancelled order
//! is refunded; a sold building stops producing and refunds half its cost.

use vstd::prelude::*;

use crate::capabilities::CommandRejectReason;
use crate::command_apply::{apply_command, batch_fold, command_effect, BatchView, CommandState, CommandStateView};
use crate::command_checks::{note_command_id, reject_reason, BuildFacts, CommandFacts, TechnoClass};
use crate::commands::{CommandView, GameCommand, ScheduledCommand, ScheduledView};
use crate::factories::{enqueue_factory, find_unit_factory_for_enqueue, peer_of, FactoryRecord, QueueState};
use crate::text::{lemma_upper_of_is_upper_text, same_text, to_ascii_upper, upper_text};

verus! {

/// A player's money.
#[derive(Clone, Copy, Debug, PartialEq, Eq, Structural)]
pub struct FundsRecord {
    pub id: u8,
    /// House id.
    pub house: u32,
    pub funds: i32,
    pub funds_spent: i32,
}

/// What unit production reads and writes: the players' money, the
/// factories, and the item each factory has in production (same order as
/// the factories).
pub struct ProduceWorld {
    pub players: Vec<FundsRecord>,
    pub factories: Vec<FactoryRecord>,
    pub items: Vec<Option<(String, u32)>>,
    /// The finished item each factory holds, if any.
    pub readies: Vec<Option<String>>,
}

/// A production world as plain values.
pub struct ProduceView {
    pub players: Seq<FundsRecord>,
    pub factories: Seq<FactoryRecord>,
    pub items: Seq<Option<(Seq<char>, u32)>>,
    pub readies: Seq<Option<Seq<char>>>,
}

pub open spec fn ready_view(r: Option<String>) -> Option<Seq<char>> {
    match r {
        Some(k) => Some(k@),
        None => None,
    }
}

pub open spec fn item_view(i: Option<(String, u32)>) -> Option<(Seq<char>, u32)> {
    match i {
        Some((k, t)) => Some((k@, t)),
        None => None,
    }
}

impl View for ProduceWorld {
    type V = ProduceView;

    open spec fn view(&self) -> ProduceView {
        ProduceView {
            players: self.players@,
            factories: self.factories@,
            items: self.items@.map_values(|i: Option<(String, u32)>| item_view(i)),
            readies: self.readies@.map_values(|r: Option<String>| ready_view(r)),
        }
    }
}

/// What an order reads of the type it names.
#[derive(Clone, Copy, Debug, PartialEq, Eq, Structural)]
pub struct ProduceType {
    /// Class of the type, when the rules know it.
    pub class: Option<TechnoClass>,
    /// Production category of the type.
    pub category: Option<u32>,
    /// The tech tree lets the house build it.
    pub eligible: bool,
    /// The house has as many as it may.
    pub limit_reached: bool,
    pub cost: i32,
    /// Ticks its production takes.
    pub ticks: u32,
}

/// Index of the first player with `id`.
pub open spec fn funds_index(ps: Seq<FundsRecord>, id: u8, k: int) -> Option<int>
    decreases ps.len() - k,
{
    if k < 0 || k >= ps.len() {
        None
    } else if ps[k].id == id {
        Some(k)
    } else {
        funds_index(ps, id, k + 1)
    }
}

/// Whether a type is made by a unit factory (not built at a yard).
pub open spec fn unit_class(c: Option<TechnoClass>) -> bool {
    c == Some(TechnoClass::Infantry) || c == Some(TechnoClass::Vehicle) || c == Some(TechnoClass::Aircraft)
}

/// The house of player `p`, if the player exists.
pub open spec fn house_of(w: ProduceView, p: u8) -> Option<u32> {
    match funds_index(w.players, p, 0) {
        Some(i) => Some(w.players[i].house),
        None => None,
    }
}

/// The facts of a unit order of player `p` for type `t`, read from `w`:
/// the factory that takes the order is idle, the house has any factory of
/// the category, the player can pay; the rest come from `f`.
pub open spec fn live_build(f: BuildFacts, w: ProduceView, p: u8, t: ProduceType) -> BuildFacts {
    let house = house_of(w, p);
    BuildFacts {
        class: t.class,
        eligible: t.eligible,
        limit_reached: t.limit_reached,
        idle_factory: enqueue_factory(w.factories, house, t.category) matches Some(j) && !w.factories[j].queue.unwrap().busy,
        any_factory: match (house, t.category) {
            (Some(h), Some(c)) => exists|j: int| 0 <= j < w.factories.len() && #[trigger] peer_of(w.factories[j], h, c),
            _ => false,
        },
        affordable: match funds_index(w.players, p, 0) {
            Some(i) => w.players[i].funds >= t.cost,
            None => false,
        },
        ..f
    }
}

/// Factory `j` is a living building of `house` with a queue whose item in
/// production, or finished item, is `key`.
pub open spec fn holds_item(w: ProduceView, j: int, house: u32, key: Seq<char>) -> bool {
    &&& w.factories[j].alive
    &&& w.factories[j].owner == Some(house)
    &&& w.factories[j].queue is Some
    &&& (w.items[j] matches Some(i) && i.0 == key) || w.readies[j] == Some(key)
}

/// The first factory at or after `k` holding `key` for `house`.
pub open spec fn cancel_from(w: ProduceView, house: u32, key: Seq<char>, k: int) -> Option<int>
    decreases w.factories.len() - k,
{
    if k < 0 || k >= w.factories.len() {
        None
    } else if holds_item(w, k, house, key) {
        Some(k)
    } else {
        cancel_from(w, house, key, k + 1)
    }
}

/// The factory a cancel order of player `p` for `type_id` empties.
pub open spec fn cancel_target(w: ProduceView, p: u8, type_id: Seq<char>) -> Option<int> {
    match house_of(w, p) {
        Some(h) => cancel_from(w, h, upper_text(type_id), 0),
        None => None,
    }
}

/// The facts command `c` is checked on: for an order to produce a unit, the
/// live facts of `w`; otherwise `f`.
pub open spec fn live_facts(f: CommandFacts, w: ProduceView, c: CommandView, t: ProduceType) -> CommandFacts {
    match c {
        CommandView::Produce { player, .. } => if unit_class(t.class) {
            CommandFacts { build: live_build(f.build, w, player, t), ..f }
        } else {
            f
        },
        CommandView::CancelProduce { player, type_id } => CommandFacts {
            build: BuildFacts { queued: cancel_target(w, player, type_id) is Some, ..f.build },
            ..f
        },
        _ => f,
    }
}

/// Index of the first factory at or after `k` whose entity is `id`.
pub open spec fn factory_at(fs: Seq<FactoryRecord>, id: u64, k: int) -> Option<int>
    decreases fs.len() - k,
{
    if k < 0 || k >= fs.len() {
        None
    } else if fs[k].id == id {
        Some(k)
    } else {
        factory_at(fs, id, k + 1)
    }
}

/// What selling a building of cost `cost` gives back: half its cost
/// (rounded down), nothing for a cost below two.
pub open spec fn sell_refund(cost: i32) -> int {
    if cost >= 2 {
        cost / 2
    } else {
        0
    }
}

/// `w` after its player `player` sells building `building` of cost `cost`:
/// the building's factory, if it is one, is dead and holds nothing in
/// production; a positive refund goes to the player's funds and off the
/// funds spent (both saturating).
pub open spec fn sold(w: ProduceView, player: u8, building: u64, cost: i32) -> ProduceView {
    let w1 = match factory_at(w.factories, building, 0) {
        Some(j) => ProduceView {
            factories: w.factories.update(j, FactoryRecord { alive: false, ..w.factories[j] }),
            items: w.items.update(j, None),
            ..w
        },
        None => w,
    };
    let r = sell_refund(cost);
    if r > 0 && funds_index(w.players, player, 0) is Some {
        let i = funds_index(w.players, player, 0).unwrap();
        let p = w.players[i];
        ProduceView {
            players: w.players.update(
                i,
                FundsRecord {
                    funds: if p.funds + r > i32::MAX {
                        i32::MAX
                    } else {
                        (p.funds + r) as i32
                    },
                    funds_spent: if p.funds_spent - r < i32::MIN {
                        i32::MIN
                    } else {
                        (p.funds_spent - r) as i32
                    },
                    ..p
                },
            ),
            ..w1
        }
    } else {
        w1
    }
}

/// What an accepted command does to the production world: an order to
/// produce a unit charges its player and fills the factory that takes it;
/// a sale stops the building's production and refunds half its cost.
pub open spec fn produce_effect(w: ProduceView, c: CommandView, t: ProduceType) -> ProduceView {
    match c {
        CommandView::Produce { player, type_id } => if unit_class(t.class) {
            let i = funds_index(w.players, player, 0).unwrap();
            let j = enqueue_factory(w.factories, house_of(w, player), t.category).unwrap();
            let p = w.players[i];
            let q = w.factories[j].queue.unwrap();
            ProduceView {
                players: w.players.update(
                    i,
                    FundsRecord {
                        funds: (p.funds - t.cost) as i32,
                        funds_spent: if p.funds_spent + t.cost > i32::MAX {
                            i32::MAX
                        } else if p.funds_spent + t.cost < i32::MIN {
                            i32::MIN
                        } else {
                            (p.funds_spent + t.cost) as i32
                        },
                        ..p
                    },
                ),
                factories: w.factories.update(j, FactoryRecord { queue: Some(QueueState { busy: true, ..q }), ..w.factories[j] }),
                items: w.items.update(j, Some((upper_text(type_id), t.ticks))),
                readies: w.readies,
            }
        } else {
            w
        },
        CommandView::CancelProduce { player, type_id } => {
            let i = funds_index(w.players, player, 0).unwrap();
            let j = cancel_target(w, player, type_id).unwrap();
            let p = w.players[i];
            let q = w.factories[j].queue.unwrap();
            let w1 = ProduceView {
                factories: w.factories.update(j, FactoryRecord { queue: Some(QueueState { busy: false, ..q }), ..w.factories[j] }),
                items: w.items.update(j, None),
                readies: w.readies.update(j, None),
                ..w
            };
            if t.cost > 0 {
                ProduceView {
                    players: w.players.update(
                        i,
                        FundsRecord {
                            funds: if p.funds + t.cost > i32::MAX {
                                i32::MAX
                            } else {
                                (p.funds + t.cost) as i32
                            },
                            funds_spent: if p.funds_spent - t.cost < i32::MIN {
                                i32::MIN
                            } else {
                                (p.funds_spent - t.cost) as i32
                            },
                            ..p
                        },
                    ),
                    ..w1
                }
            } else {
                w1
            }
        },
        CommandView::SellBuilding { player, building } => sold(w, player, building, t.cost),
        _ => w,
    }
}

/// The state of a batch after its first `k` commands.
pub struct LiveBatch {
    pub state: CommandStateView,
    pub prod: ProduceView,
    pub seen: Seq<u64>,
    pub rejects: Seq<(int, CommandRejectReason)>,
}

/// The first `k` commands of a batch in order: a repeated id is rejected as
/// a duplicate; any other command is checked on its facts (see
/// [`live_facts`]) and, when accepted, changes the orders and the
/// production world.
pub open spec fn live_fold(
    b: LiveBatch,
    cmds: Seq<ScheduledView>,
    facts: Seq<CommandFacts>,
    types: Seq<ProduceType>,
    k: int,
) -> LiveBatch
    decreases k,
{
    if k <= 0 {
        b
    } else {
        let p = live_fold(b, cmds, facts, types, k - 1);
        let c = cmds[k - 1];
        if p.seen.contains(c.id) {
            LiveBatch { rejects: p.rejects.push((k - 1, CommandRejectReason::DuplicateCommand)), ..p }
        } else {
            let seen = p.seen.push(c.id);
            let f = live_facts(facts[k - 1], p.prod, c.body, types[k - 1]);
            match reject_reason(c.body, c.player, p.state.entities, p.state.players, f) {
                Some(r) => LiveBatch { seen, rejects: p.rejects.push((k - 1, r)), ..p },
                None => LiveBatch {
                    state: command_effect(p.state, c.body),
                    prod: produce_effect(p.prod, c.body, types[k - 1]),
                    seen,
                    rejects: p.rejects,
                },
            }
        }
    }
}

/// The production world is well formed: one item per factory.
pub open spec fn prod_wf(w: ProduceView) -> bool {
    w.items.len() == w.factories.len() && w.readies.len() == w.factories.len()
}

fn find_funds(ps: &[FundsRecord], id: u8) -> (r: Option<usize>)
    ensures
        match r {
            Some(i) => funds_index(ps@, id, 0) == Some(i as int) && i < ps@.len(),
            None => funds_index(ps@, id, 0) is None,
        },
{
    let mut k: usize = 0;
    while k < ps.len()
        invariant
            k <= ps@.len(),
            funds_index(ps@, id, 0) == funds_index(ps@, id, k as int),
        decreases ps@.len() - k,
    {
        if ps[k].id == id {
            return Some(k);
        }
        k = k + 1;
    }
    None
}

fn any_peer(fs: &[FactoryRecord], h: u32, c: u32) -> (b: bool)
    ensures
        b == exists|j: int| 0 <= j < fs@.len() && #[trigger] peer_of(fs@[j], h, c),
{
    let mut k: usize = 0;
    while k < fs.len()
        invariant
            k <= fs@.len(),
            forall|j: int| 0 <= j < k ==> !#[trigger] peer_of(fs@[j], h, c),
        decreases fs@.len() - k,
    {
        let f = fs[k];
        if f.alive && f.owner == Some(h) && f.structure && f.category == Some(c) {
            assert(peer_of(fs@[k as int], h, c));
            return true;
        }
        k = k + 1;
    }
    false
}

proof fn lemma_enqueue_in_range(fs: Seq<FactoryRecord>, house: Option<u32>, cat: Option<u32>)
    ensures
        enqueue_factory(fs, house, cat) matches Some(j) ==> 0 <= j < fs.len() && fs[j].queue is Some,
{
    if let (Some(h), Some(c)) = (house, cat) {
        lemma_last_primary(fs, h, c, false);
        lemma_last_primary(fs, h, c, true);
        lemma_first_idle(fs, h, c);
        lemma_shortest(fs, h, c);
    }
}

proof fn lemma_last_primary(fs: Seq<FactoryRecord>, h: u32, c: u32, busy: bool)
    ensures
        crate::factories::last_primary(fs, h, c, busy) matches Some(j) ==> 0 <= j < fs.len() && fs[j].queue is Some,
    decreases fs.len(),
{
    if fs.len() > 0 {
        lemma_last_primary(fs.drop_last(), h, c, busy);
    }
}

proof fn lemma_first_idle(fs: Seq<FactoryRecord>, h: u32, c: u32)
    ensures
        crate::factories::first_idle(fs, h, c) matches Some(j) ==> 0 <= j < fs.len() && fs[j].queue is Some,
    decreases fs.len(),
{
    if fs.len() > 0 {
        lemma_first_idle(fs.drop_last(), h, c);
    }
}

proof fn lemma_shortest(fs: Seq<FactoryRecord>, h: u32, c: u32)
    ensures
        crate::factories::shortest_busy(fs, h, c) matches Some(j) ==> 0 <= j < fs.len() && fs[j].queue is Some,
    decreases fs.len(),
{
    if fs.len() > 0 {
        lemma_shortest(fs.drop_last(), h, c);
    }
}

proof fn lemma_cancel_from(w: ProduceView, house: u32, key: Seq<char>, k: int)
    ensures
        cancel_from(w, house, key, k) matches Some(j) ==> k <= j < w.factories.len() && holds_item(w, j, house, key),
    decreases w.factories.len() - k,
{
    if 0 <= k < w.factories.len() && !holds_item(w, k, house, key) {
        lemma_cancel_from(w, house, key, k + 1);
    }
}

fn find_cancel(w: &ProduceWorld, house: u32, key: &str) -> (r: Option<usize>)
    requires
        prod_wf(w@),
    ensures
        match r {
            Some(j) => cancel_from(w@, house, key@, 0) == Some(j as int) && j < w@.factories.len(),
            None => cancel_from(w@, house, key@, 0) is None,
        },
{
    let ghost v = w@;
    let mut k: usize = 0;
    while k < w.factories.len()
        invariant
            v == w@,
            prod_wf(v),
            k <= v.factories.len(),
            cancel_from(v, house, key@, 0) == cancel_from(v, house, key@, k as int),
        decreases v.factories.len() - k,
    {
        let f = w.factories[k];
        assert(v.items[k as int] == item_view(w.items@[k as int]));
        assert(v.readies[k as int] == ready_view(w.readies@[k as int]));
        let in_item = match &w.items[k] {
            Some((q, _)) => same_text(q.as_str(), key),
            None => false,
        };
        let in_ready = match &w.readies[k] {
            Some(r) => same_text(r.as_str(), key),
            None => false,
        };
        if f.alive && f.owner == Some(house) && f.queue.is_some() && (in_item || in_ready) {
            assert(holds_item(v, k as int, house, key@));
            return Some(k);
        }
        k = k + 1;
    }
    None
}

/// Carries out an accepted cancel order of player `player` for `type_id`
/// (see [`produce_effect`]): the factory holding it is emptied and the type's
/// cost, when positive, goes back to the player (and off the spent funds).
pub fn apply_cancel(w: &mut ProduceWorld, player: u8, type_id: &str, t: &ProduceType)
    requires
        prod_wf(old(w)@),
        cancel_target(old(w)@, player, type_id@) is Some,
    ensures
        final(w)@ == produce_effect(old(w)@, CommandView::CancelProduce { player, type_id: type_id@ }, *t),
        prod_wf(final(w)@),
{
    let ghost w0 = w@;
    let i = find_funds(&w.players, player).unwrap();
    let key = to_ascii_upper(type_id);
    proof {
        lemma_upper_of_is_upper_text(key@, type_id@);
    }
    let j = find_cancel(w, w.players[i].house, key.as_str()).unwrap();
    proof {
        lemma_cancel_from(w@, w@.players[i as int].house, key@, 0);
    }
    let mut f = w.factories[j];
    let q = f.queue.unwrap();
    f.queue = Some(QueueState { busy: false, ..q });
    w.factories.set(j, f);
    w.items.set(j, None);
    w.readies.set(j, None);
    if t.cost > 0 {
        let mut p = w.players[i];
        let up: i64 = p.funds as i64 + t.cost as i64;
        p.funds = if up > i32::MAX as i64 {
            i32::MAX
        } else {
            up as i32
        };
        let down: i64 = p.funds_spent as i64 - t.cost as i64;
        p.funds_spent = if down < i32::MIN as i64 {
            i32::MIN
        } else {
            down as i32
        };
        w.players.set(i, p);
    }
    let ghost e = produce_effect(w0, CommandView::CancelProduce { player, type_id: type_id@ }, *t);
    assert(w@.items =~= e.items);
    assert(w@.readies =~= e.readies);
    assert(w@.factories =~= e.factories);
    assert(w@.players =~= e.players);
}

fn find_factory_of(fs: &[FactoryRecord], id: u64) -> (r: Option<usize>)
    ensures
        match r {
            Some(j) => factory_at(fs@, id, 0) == Some(j as int) && j < fs@.len(),
            None => factory_at(fs@, id, 0) is None,
        },
{
    let mut k: usize = 0;
    while k < fs.len()
        invariant
            k <= fs@.len(),
            factory_at(fs@, id, 0) == factory_at(fs@, id, k as int),
        decreases fs@.len() - k,
    {
        if fs[k].id == id {
            return Some(k);
        }
        k = k + 1;
    }
    None
}

/// Carries out an accepted sale by player `player` of building `building`
/// whose type costs `t.cost` (see [`sold`]).
pub fn apply_sell(w: &mut ProduceWorld, player: u8, building: u64, t: &ProduceType)
    requires
        prod_wf(old(w)@),
    ensures
        final(w)@ == produce_effect(old(w)@, CommandView::SellBuilding { player, building }, *t),
        prod_wf(final(w)@),
{
    let ghost w0 = w@;
    match find_factory_of(&w.factories, building) {
        Some(j) => {
            let mut f = w.factories[j];
            f.alive = false;
            w.factories.set(j, f);
            w.items.set(j, None);
        },
        None => {},
    }
    let refund: i32 = if t.cost >= 2 {
        t.cost / 2
    } else {
        0
    };
    if refund > 0 {
        if let Some(i) = find_funds(&w.players, player) {
            let mut p = w.players[i];
            let up: i64 = p.funds as i64 + refund as i64;
            p.funds = if up > i32::MAX as i64 {
                i32::MAX
            } else {
                up as i32
            };
            let down: i64 = p.funds_spent as i64 - refund as i64;
            p.funds_spent = if down < i32::MIN as i64 {
                i32::MIN
            } else {
                down as i32
            };
            w.players.set(i, p);
        }
    }
    let ghost e = produce_effect(w0, CommandView::SellBuilding { player, building }, *t);
    assert(w@.items =~= e.items);
    assert(w@.readies =~= e.readies);
    assert(w@.factories =~= e.factories);
    assert(w@.players =~= e.players);
}

/// The facts command `cmd` is checked on (see [`live_facts`]).
pub fn command_facts(w: &ProduceWorld, f: &CommandFacts, cmd: &ScheduledCommand, t: &ProduceType) -> (r: CommandFacts)
    requires
        prod_wf(w@),
    ensures
        r == live_facts(*f, w@, cmd.body@, *t),
{
    match &cmd.body {
        GameCommand::Produce { player, .. } => {
            let unit = match t.class {
                Some(TechnoClass::Infantry) => true,
                Some(TechnoClass::Vehicle) => true,
                Some(TechnoClass::Aircraft) => true,
                _ => false,
            };
            if !unit {
                return *f;
            }
            let pi = find_funds(&w.players, player.0);
            let house = match pi {
                Some(i) => Some(w.players[i].house),
                None => None,
            };
            proof {
                lemma_enqueue_in_range(w.factories@, house, t.category);
            }
            let idle = match find_unit_factory_for_enqueue(&w.factories, house, t.category) {
                Some(j) => !w.factories[j].queue.unwrap().busy,
                None => false,
            };
            let any = match (house, t.category) {
                (Some(h), Some(c)) => any_peer(&w.factories, h, c),
                _ => false,
            };
            let affordable = match pi {
                Some(i) => w.players[i].funds >= t.cost,
                None => false,
            };
            CommandFacts {
                build: BuildFacts {
                    class: t.class,
                    eligible: t.eligible,
                    limit_reached: t.limit_reached,
                    idle_factory: idle,
                    any_factory: any,
                    affordable,
                    ..f.build
                },
                ..*f
            }
        },
        GameCommand::CancelProduce { player, type_id } => {
            let target = match find_funds(&w.players, player.0) {
                Some(i) => {
                    let key = to_ascii_upper(type_id.as_str());
                    proof {
                        lemma_upper_of_is_upper_text(key@, type_id@);
                    }
                    find_cancel(w, w.players[i].house, key.as_str())
                },
                None => None,
            };
            CommandFacts { build: BuildFacts { queued: target.is_some(), ..f.build }, ..*f }
        },
        _ => *f,
    }
}

/// Carries out an accepted order of player `player` to produce type
/// `type_id` (see [`produce_effect`]): the player pays the cost, counted as
/// spent, and the factory that takes the order holds the type, upper-cased,
/// with its ticks.
pub fn apply_produce(w: &mut ProduceWorld, player: u8, type_id: &str, t: &ProduceType)
    requires
        prod_wf(old(w)@),
        unit_class(t.class),
        t.cost >= 0,
        ({
            let f = live_build(
                BuildFacts {
                    class: None,
                    construction_yard: false,
                    has_living_yard: false,
                    eligible: false,
                    limit_reached: false,
                    needs_power_plant: false,
                    has_living_power: false,
                    ready_at_yard: false,
                    footprint_free: false,
                    idle_factory: false,
                    any_factory: false,
                    affordable: false,
                    queued: false,
                },
                old(w)@,
                player,
                *t,
            );
            f.idle_factory && f.affordable
        }),
    ensures
        final(w)@ == produce_effect(old(w)@, CommandView::Produce { player, type_id: type_id@ }, *t),
        prod_wf(final(w)@),
{
    let i = find_funds(&w.players, player).unwrap();
    let house = Some(w.players[i].house);
    proof {
        lemma_enqueue_in_range(w.factories@, house, t.category);
    }
    let j = find_unit_factory_for_enqueue(&w.factories, house, t.category).unwrap();
    let ghost w0 = w@;
    let mut p = w.players[i];
    p.funds = p.funds - t.cost;
    let sum: i64 = p.funds_spent as i64 + t.cost as i64;
    p.funds_spent = if sum > i32::MAX as i64 {
        i32::MAX
    } else {
        sum as i32
    };
    w.players.set(i, p);
    let mut f = w.factories[j];
    let q = f.queue.unwrap();
    f.queue = Some(QueueState { busy: true, ..q });
    w.factories.set(j, f);
    let key = to_ascii_upper(type_id);
    proof {
        lemma_upper_of_is_upper_text(key@, type_id@);
    }
    let ghost items0 = w.items@;
    w.items.set(j, Some((key, t.ticks)));
    assert(w@.items =~= w0.items.update(j as int, Some((upper_text(type_id@), t.ticks))));
    assert(w@.players =~= produce_effect(w0, CommandView::Produce { player, type_id: type_id@ }, *t).players);
    assert(w@.factories =~= produce_effect(w0, CommandView::Produce { player, type_id: type_id@ }, *t).factories);
}

/// An accepted order to produce a unit had an idle factory and the funds.
proof fn lemma_accepted_produce(c: CommandView, sender: u8, state: CommandStateView, f: CommandFacts)
    requires
        reject_reason(c, sender, state.entities, state.players, f) is None,
        c is Produce,
    ensures
        f.build.idle_factory && f.build.affordable,
{
}

/// An accepted cancel order found what it cancels.
proof fn lemma_accepted_cancel(c: CommandView, sender: u8, state: CommandStateView, f: CommandFacts)
    requires
        reject_reason(c, sender, state.entities, state.players, f) is None,
        c is CancelProduce,
    ensures
        f.build.queued,
{
}

/// Carries out a batch of commands (see [`live_fold`]): `facts[k]` and
/// `types[k]` are what command `k` reads besides the state (for an order to
/// produce a unit the facts are read from `prod` as it stands); `seen` holds
/// the ids carried out before, `rejects` gets the rejected commands with
/// their index.
pub fn apply_commands_live(
    state: &mut CommandState,
    prod: &mut ProduceWorld,
    cmds: &[ScheduledCommand],
    facts: &[CommandFacts],
    types: &[ProduceType],
    seen: &mut Vec<u64>,
    rejects: &mut Vec<(usize, CommandRejectReason)>,
)
    requires
        old(state)@.wf(),
        prod_wf(old(prod)@),
        facts@.len() == cmds@.len(),
        types@.len() == cmds@.len(),
        forall|k: int| 0 <= k < types@.len() ==> (#[trigger] types@[k]).cost >= 0,
    ensures
        ({
            let b = live_fold(
                LiveBatch {
                    state: old(state)@,
                    prod: old(prod)@,
                    seen: old(seen)@,
                    rejects: old(rejects)@.map_values(|r: (usize, CommandRejectReason)| (r.0 as int, r.1)),
                },
                cmds@.map_values(|c: ScheduledCommand| c@),
                facts@,
                types@,
                cmds@.len() as int,
            );
            &&& final(state)@ == b.state
            &&& final(prod)@ == b.prod
            &&& final(seen)@ == b.seen
            &&& final(rejects)@.map_values(|r: (usize, CommandRejectReason)| (r.0 as int, r.1)) == b.rejects
        }),
{
    let ghost b0 = LiveBatch {
        state: state@,
        prod: prod@,
        seen: seen@,
        rejects: rejects@.map_values(|r: (usize, CommandRejectReason)| (r.0 as int, r.1)),
    };
    let ghost cv = cmds@.map_values(|c: ScheduledCommand| c@);
    let mut k: usize = 0;
    while k < cmds.len()
        invariant
            k <= cmds@.len(),
            facts@.len() == cmds@.len(),
            types@.len() == cmds@.len(),
            forall|j: int| 0 <= j < types@.len() ==> (#[trigger] types@[j]).cost >= 0,
            cv == cmds@.map_values(|c: ScheduledCommand| c@),
            state@.wf(),
            prod_wf(prod@),
            ({
                let b = live_fold(b0, cv, facts@, types@, k as int);
                &&& state@ == b.state
                &&& prod@ == b.prod
                &&& seen@ == b.seen
                &&& rejects@.map_values(|r: (usize, CommandRejectReason)| (r.0 as int, r.1)) == b.rejects
            }),
        decreases cmds@.len() - k,
    {
        let c = &cmds[k];
        assert(cv[k as int] == c@);
        let ghost r0 = rejects@;
        if !note_command_id(seen, c.id) {
            rejects.push((k, CommandRejectReason::DuplicateCommand));
            assert(rejects@.map_values(|r: (usize, CommandRejectReason)| (r.0 as int, r.1)) =~= r0.map_values(
                |r: (usize, CommandRejectReason)| (r.0 as int, r.1),
            ).push((k as int, CommandRejectReason::DuplicateCommand)));
        } else {
            let f = command_facts(prod, &facts[k], c, &types[k]);
            let ghost s0 = state@;
            match apply_command(state, c, &f) {
                Some(r) => {
                    rejects.push((k, r));
                    assert(rejects@.map_values(|r: (usize, CommandRejectReason)| (r.0 as int, r.1)) =~= r0.map_values(
                        |r: (usize, CommandRejectReason)| (r.0 as int, r.1),
                    ).push((k as int, r)));
                },
                None => {
                    if let GameCommand::Produce { player, type_id } = &c.body {
                        let t = &types[k];
                        let unit = match t.class {
                            Some(TechnoClass::Infantry) => true,
                            Some(TechnoClass::Vehicle) => true,
                            Some(TechnoClass::Aircraft) => true,
                            _ => false,
                        };
                        if unit {
                            proof {
                                lemma_accepted_produce(c.body@, c.player.0, s0, f);
                            }
                            apply_produce(prod, player.0, type_id.as_str(), t);
                        }
                    } else if let GameCommand::CancelProduce { player, type_id } = &c.body {
                        proof {
                            lemma_accepted_cancel(c.body@, c.player.0, s0, f);
                        }
                        apply_cancel(prod, player.0, type_id.as_str(), &types[k]);
                    } else if let GameCommand::SellBuilding { player, building } = &c.body {
                        apply_sell(prod, player.0, building.0, &types[k]);
                    }
                },
            }
        }
        k = k + 1;
    }
}

/// The rejects a batch of `k` already-seen commands records: each one, by
/// index, as a duplicate.
pub open spec fn all_duplicates(k: int) -> Seq<(int, CommandRejectReason)>
    decreases k,
{
    if k <= 0 {
        Seq::empty()
    } else {
        all_duplicates(k - 1).push((k - 1, CommandRejectReason::DuplicateCommand))
    }
}

/// A batch run again, every id of it seen already, changes nothing: the
/// orders, the production world and the seen ids stay as they were, and
/// every command is recorded as a duplicate, in order.
pub proof fn law_repeated_batch_changes_nothing(
    b: LiveBatch,
    cmds: Seq<ScheduledView>,
    facts: Seq<CommandFacts>,
    types: Seq<ProduceType>,
    k: int,
)
    requires
        0 <= k <= cmds.len(),
        forall|j: int| 0 <= j < cmds.len() ==> b.seen.contains(#[trigger] cmds[j].id),
    ensures
        live_fold(b, cmds, facts, types, k).state == b.state,
        live_fold(b, cmds, facts, types, k).prod == b.prod,
        live_fold(b, cmds, facts, types, k).seen == b.seen,
        live_fold(b, cmds, facts, types, k).rejects == b.rejects + all_duplicates(k),
    decreases k,
{
    if k > 0 {
        law_repeated_batch_changes_nothing(b, cmds, facts, types, k - 1);
        assert(b.seen.contains(cmds[k - 1].id));
        assert(b.rejects + all_duplicates(k) =~= (b.rejects + all_duplicates(k - 1)).push((k - 1, CommandRejectReason::DuplicateCommand)));
    } else {
        assert(b.rejects + all_duplicates(0) =~= b.rejects);
    }
}

/// The same for a batch checked on given facts (see [`batch_fold`]).
pub proof fn law_repeated_fixed_batch_changes_nothing(
    b: BatchView,
    cmds: Seq<ScheduledView>,
    facts: Seq<CommandFacts>,
    k: int,
)
    requires
        0 <= k <= cmds.len(),
        forall|j: int| 0 <= j < cmds.len() ==> b.seen.contains(#[trigger] cmds[j].id),
    ensures
        batch_fold(b, cmds, facts, k).state == b.state,
        batch_fold(b, cmds, facts, k).seen == b.seen,
        batch_fold(b, cmds, facts, k).rejects == b.rejects + all_duplicates(k),
    decreases k,
{
    if k > 0 {
        law_repeated_fixed_batch_changes_nothing(b, cmds, facts, k - 1);
        assert(b.seen.contains(cmds[k - 1].id));
        assert(b.rejects + all_duplicates(k) =~= (b.rejects + all_duplicates(k - 1)).push((k - 1, CommandRejectReason::DuplicateCommand)));
    } else {
        assert(b.rejects + all_duplicates(0) =~= b.rejects);
    }
}

} // verus!
