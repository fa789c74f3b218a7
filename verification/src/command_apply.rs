//! Carrying out the commands of a tick: each command is checked (see
//! `command_checks`), a rejected one leaves its reason in the reject list,
//! and an accepted one changes the orders of the unit it names, or is handed
//! on as a world request (building, production, selling, firing).

use vstd::prelude::*;

use crate::capabilities::CommandRejectReason;
use crate::command_checks::{
    command_reject_reason, entity_index, find_entity, lemma_entity_index_bound, note_command_id, reject_reason,
    CommandEntity, CommandFacts, CommandIdentity, CommandPlayer,
};
use crate::commands::{CommandView, EntityId, GameCommand, PlayerId, ScheduledCommand, ScheduledView};
use crate::entities::EntityKind;
use crate::navigation::{nearest_adjacent_to_footprint, nearest_in_scan, ring_scan_len};

verus! {

/// A unit's standing mission.
#[derive(Clone, Copy, Debug, PartialEq, Eq, Structural)]
pub enum Mission {
    Guard,
    Harvest,
    /// Another mission the map gave it.
    Other,
}

/// The orders an entity carries.
#[derive(Clone, Debug)]
pub struct UnitOrders {
    pub mission: Option<Mission>,
    pub destination: Option<(u16, u16)>,
    /// Further cells to visit after the destination.
    pub waypoints: Vec<(u16, u16)>,
    pub target: Option<u64>,
    pub infiltrate: Option<u64>,
    pub capture: Option<u64>,
    /// Rally point of a factory.
    pub rally: Option<(u16, u16)>,
    /// Under repair with the wrench.
    pub repairing: bool,
    /// Its path is to be planned anew.
    pub repath: bool,
}

/// Orders as plain values.
pub struct OrdersView {
    pub mission: Option<Mission>,
    pub destination: Option<(u16, u16)>,
    pub waypoints: Seq<(u16, u16)>,
    pub target: Option<u64>,
    pub infiltrate: Option<u64>,
    pub capture: Option<u64>,
    pub rally: Option<(u16, u16)>,
    pub repairing: bool,
    pub repath: bool,
}

impl View for UnitOrders {
    type V = OrdersView;

    open spec fn view(&self) -> OrdersView {
        OrdersView {
            mission: self.mission,
            destination: self.destination,
            waypoints: self.waypoints@,
            target: self.target,
            infiltrate: self.infiltrate,
            capture: self.capture,
            rally: self.rally,
            repairing: self.repairing,
            repath: self.repath,
        }
    }
}

/// Where an entity stands (meaningful where it has a position) and, for a
/// building, the size of its footprint.
#[derive(Clone, Copy, Debug, PartialEq, Eq, Structural)]
pub struct Place {
    pub x: u16,
    pub y: u16,
    pub width: u16,
    pub height: u16,
}

/// What the commands act on: the entities and seats the checks read, each
/// entity's place and orders (same order as the entities), and the accepted
/// commands whose world part the caller carries out.
pub struct CommandState {
    pub entities: Vec<CommandEntity>,
    pub players: Vec<CommandPlayer>,
    pub places: Vec<Place>,
    pub orders: Vec<UnitOrders>,
    pub requests: Vec<GameCommand>,
}

/// A command state as plain values.
pub struct CommandStateView {
    pub entities: Seq<CommandEntity>,
    pub players: Seq<CommandPlayer>,
    pub places: Seq<Place>,
    pub orders: Seq<OrdersView>,
    pub requests: Seq<CommandView>,
}

impl View for CommandState {
    type V = CommandStateView;

    open spec fn view(&self) -> CommandStateView {
        CommandStateView {
            entities: self.entities@,
            players: self.players@,
            places: self.places@,
            orders: self.orders@.map_values(|o: UnitOrders| o@),
            requests: self.requests@.map_values(|c: GameCommand| c@),
        }
    }
}

impl CommandStateView {
    /// One place and one order record per entity.
    pub open spec fn wf(self) -> bool {
        &&& self.orders.len() == self.entities.len()
        &&& self.places.len() == self.entities.len()
    }
}

/// `o` sent to `dest` with further `waypoints`, its mission and targets
/// dropped, to be pathed anew.
pub open spec fn sent_to(o: OrdersView, dest: (u16, u16), waypoints: Seq<(u16, u16)>) -> OrdersView {
    OrdersView {
        mission: None,
        destination: Some(dest),
        waypoints,
        target: None,
        infiltrate: None,
        capture: None,
        repath: true,
        ..o
    }
}

/// The cell a unit is sent to when it goes for `building`: the cell next to
/// the building's footprint nearest to the unit (or to the building's own
/// cell where the unit has no position).
pub open spec fn approach_to(s: CommandStateView, unit: u64, building: u64) -> (u16, u16) {
    let u = entity_index(s.entities, unit).unwrap();
    let b = s.places[entity_index(s.entities, building).unwrap()];
    let from = if s.entities[u].has_position {
        (s.places[u].x, s.places[u].y)
    } else {
        (b.x, b.y)
    };
    nearest_in_scan(from.0, from.1, b.x, b.y, b.width, b.height, ring_scan_len(b.width, b.height)).0
}

/// The cell an attacker, agent or engineer is sent to: the target's cell,
/// or the approach to the building.
pub open spec fn approach_cell(s: CommandStateView, cmd: CommandView) -> (u16, u16) {
    match cmd {
        CommandView::Attack { target, .. } => {
            let p = s.places[entity_index(s.entities, target).unwrap()];
            (p.x, p.y)
        },
        CommandView::Infiltrate { agent, building } => approach_to(s, agent, building),
        CommandView::CaptureBuilding { engineer, building } => approach_to(s, engineer, building),
        _ => (0, 0),
    }
}

/// The state after accepted command `cmd`.
pub open spec fn command_effect(s: CommandStateView, cmd: CommandView) -> CommandStateView {
    let approach = approach_cell(s, cmd);
    let es = s.entities;
    let os = s.orders;
    match cmd {
        CommandView::MoveTo { entity, x, y } => {
            let i = entity_index(es, entity).unwrap();
            CommandStateView { orders: os.update(i, sent_to(os[i], (x, y), Seq::empty())), ..s }
        },
        CommandView::MovePath { entity, points } => {
            let i = entity_index(es, entity).unwrap();
            CommandStateView { orders: os.update(i, sent_to(os[i], points[0], points.drop_first())), ..s }
        },
        CommandView::Attack { attacker, target } => {
            let i = entity_index(es, attacker).unwrap();
            CommandStateView {
                orders: os.update(i, OrdersView { target: Some(target), ..sent_to(os[i], approach, Seq::empty()) }),
                ..s
            }
        },
        CommandView::Infiltrate { agent, building } => {
            let i = entity_index(es, agent).unwrap();
            CommandStateView {
                orders: os.update(i, OrdersView { infiltrate: Some(building), ..sent_to(os[i], approach, Seq::empty()) }),
                ..s
            }
        },
        CommandView::CaptureBuilding { engineer, building } => {
            let i = entity_index(es, engineer).unwrap();
            CommandStateView {
                orders: os.update(i, OrdersView { capture: Some(building), ..sent_to(os[i], approach, Seq::empty()) }),
                ..s
            }
        },
        CommandView::Guard { entity } => {
            let i = entity_index(es, entity).unwrap();
            CommandStateView {
                orders: os.update(
                    i,
                    OrdersView {
                        mission: Some(Mission::Guard),
                        destination: None,
                        waypoints: Seq::empty(),
                        target: None,
                        infiltrate: None,
                        capture: None,
                        ..os[i]
                    },
                ),
                ..s
            }
        },
        CommandView::SetRallyPoint { factory, x, y } => {
            let i = entity_index(es, factory).unwrap();
            CommandStateView { orders: os.update(i, OrdersView { rally: Some((x, y)), ..os[i] }), ..s }
        },
        CommandView::RepairBuilding { building, .. } => {
            let i = entity_index(es, building).unwrap();
            CommandStateView { orders: os.update(i, OrdersView { repairing: !os[i].repairing, ..os[i] }), ..s }
        },
        CommandView::Deploy { entity } => {
            let i = entity_index(es, entity).unwrap();
            let e = es[i];
            CommandStateView {
                entities: es.update(
                    i,
                    CommandEntity {
                        identity: Some(CommandIdentity { kind: EntityKind::Structure, ..e.identity.unwrap() }),
                        ..e
                    },
                ),
                orders: os.update(
                    i,
                    OrdersView {
                        mission: None,
                        destination: None,
                        waypoints: Seq::empty(),
                        target: None,
                        ..os[i]
                    },
                ),
                requests: s.requests.push(cmd),
                ..s
            }
        },
        CommandView::SellBuilding { building, .. } => {
            let i = entity_index(es, building).unwrap();
            CommandStateView {
                entities: es.update(i, CommandEntity { alive: false, ..es[i] }),
                requests: s.requests.push(cmd),
                ..s
            }
        },
        _ => CommandStateView { requests: s.requests.push(cmd), ..s },
    }
}

/// A copy of `p`'s cells.
fn copy_points(p: &Vec<(u16, u16)>) -> (r: Vec<(u16, u16)>)
    ensures
        r@ == p@,
{
    let mut r: Vec<(u16, u16)> = Vec::new();
    let mut i: usize = 0;
    while i < p.len()
        invariant
            i <= p@.len(),
            r@ == p@.take(i as int),
        decreases p@.len() - i,
    {
        r.push(p[i]);
        assert(r@ =~= p@.take(i + 1));
        i = i + 1;
    }
    assert(p@.take(i as int) =~= p@);
    r
}

/// A copy of orders `o`.
fn copy_orders(o: &UnitOrders) -> (r: UnitOrders)
    ensures
        r@ == o@,
{
    UnitOrders {
        mission: o.mission,
        destination: o.destination,
        waypoints: copy_points(&o.waypoints),
        target: o.target,
        infiltrate: o.infiltrate,
        capture: o.capture,
        rally: o.rally,
        repairing: o.repairing,
        repath: o.repath,
    }
}

/// A copy of command `c`.
pub fn copy_command(c: &GameCommand) -> (r: GameCommand)
    ensures
        r@ == c@,
{
    match c {
        GameCommand::MoveTo { entity, x, y } => GameCommand::MoveTo { entity: EntityId(entity.0), x: *x, y: *y },
        GameCommand::Attack { attacker, target } => GameCommand::Attack {
            attacker: EntityId(attacker.0),
            target: EntityId(target.0),
        },
        GameCommand::Deploy { entity } => GameCommand::Deploy { entity: EntityId(entity.0) },
        GameCommand::PlaceBuilding { player, type_id, x, y } => GameCommand::PlaceBuilding {
            player: PlayerId(player.0),
            type_id: type_id.as_str().to_owned(),
            x: *x,
            y: *y,
        },
        GameCommand::Produce { player, type_id } => GameCommand::Produce {
            player: PlayerId(player.0),
            type_id: type_id.as_str().to_owned(),
        },
        GameCommand::SetRallyPoint { factory, x, y } => GameCommand::SetRallyPoint {
            factory: EntityId(factory.0),
            x: *x,
            y: *y,
        },
        GameCommand::Infiltrate { agent, building } => GameCommand::Infiltrate {
            agent: EntityId(agent.0),
            building: EntityId(building.0),
        },
        GameCommand::CancelProduce { player, type_id } => GameCommand::CancelProduce {
            player: PlayerId(player.0),
            type_id: type_id.as_str().to_owned(),
        },
        GameCommand::CaptureBuilding { engineer, building } => GameCommand::CaptureBuilding {
            engineer: EntityId(engineer.0),
            building: EntityId(building.0),
        },
        GameCommand::Guard { entity } => GameCommand::Guard { entity: EntityId(entity.0) },
        GameCommand::SellBuilding { player, building } => GameCommand::SellBuilding {
            player: PlayerId(player.0),
            building: EntityId(building.0),
        },
        GameCommand::RepairBuilding { player, building } => GameCommand::RepairBuilding {
            player: PlayerId(player.0),
            building: EntityId(building.0),
        },
        GameCommand::MovePath { entity, points } => GameCommand::MovePath {
            entity: EntityId(entity.0),
            points: copy_points(points),
        },
        GameCommand::FireSuperWeapon { player, type_id, x, y } => GameCommand::FireSuperWeapon {
            player: PlayerId(player.0),
            type_id: type_id.as_str().to_owned(),
            x: *x,
            y: *y,
        },
    }
}

impl CommandState {
    /// Replaces the orders of entity `i` by `o`.
    fn set_orders(&mut self, i: usize, o: UnitOrders)
        requires
            i < old(self).orders@.len(),
        ensures
            final(self)@ == (CommandStateView { orders: old(self)@.orders.update(i as int, o@), ..old(self)@ }),
    {
        let ghost before = self.orders@;
        self.orders.set(i, o);
        assert(self.orders@.map_values(|o: UnitOrders| o@) =~= before.map_values(|o: UnitOrders| o@).update(
            i as int,
            o@,
        ));
    }

    /// Records an accepted command for the caller.
    fn push_request(&mut self, c: &GameCommand)
        ensures
            final(self)@ == (CommandStateView { requests: old(self)@.requests.push(c@), ..old(self)@ }),
    {
        let ghost before = self.requests@;
        let r = copy_command(c);
        self.requests.push(r);
        assert(self.requests@.map_values(|c: GameCommand| c@) =~= before.map_values(|c: GameCommand| c@).push(c@));
    }
}

impl CommandState {
    /// Sends unit `i` to `dest` with further `waypoints` and the given
    /// targets.
    fn send(
        &mut self,
        i: usize,
        dest: (u16, u16),
        waypoints: Vec<(u16, u16)>,
        target: Option<u64>,
        infiltrate: Option<u64>,
        capture: Option<u64>,
    )
        requires
            i < old(self).orders@.len(),
        ensures
            final(self)@ == (CommandStateView {
                orders: old(self)@.orders.update(
                    i as int,
                    OrdersView { target, infiltrate, capture, ..sent_to(old(self)@.orders[i as int], dest, waypoints@) },
                ),
                ..old(self)@
            }),
    {
        let ghost s0 = self@;
        let mut o = copy_orders(&self.orders[i]);
        o.mission = None;
        o.destination = Some(dest);
        o.waypoints = waypoints;
        o.target = target;
        o.infiltrate = infiltrate;
        o.capture = capture;
        o.repath = true;
        self.set_orders(i, o);
        assert(self@.orders =~= s0.orders.update(
            i as int,
            OrdersView { target, infiltrate, capture, ..sent_to(s0.orders[i as int], dest, waypoints@) },
        ));
    }

    /// Puts unit `i` on guard where it stands.
    fn guard(&mut self, i: usize)
        requires
            i < old(self).orders@.len(),
        ensures
            final(self)@ == (CommandStateView {
                orders: old(self)@.orders.update(
                    i as int,
                    OrdersView {
                        mission: Some(Mission::Guard),
                        destination: None,
                        waypoints: Seq::empty(),
                        target: None,
                        infiltrate: None,
                        capture: None,
                        ..old(self)@.orders[i as int]
                    },
                ),
                ..old(self)@
            }),
    {
        let mut o = copy_orders(&self.orders[i]);
        o.mission = Some(Mission::Guard);
        o.destination = None;
        o.waypoints = Vec::new();
        o.target = None;
        o.infiltrate = None;
        o.capture = None;
        self.set_orders(i, o);
    }

    /// Sets the rally point of factory `i`.
    fn rally(&mut self, i: usize, x: u16, y: u16)
        requires
            i < old(self).orders@.len(),
        ensures
            final(self)@ == (CommandStateView {
                orders: old(self)@.orders.update(i as int, OrdersView { rally: Some((x, y)), ..old(self)@.orders[i as int] }),
                ..old(self)@
            }),
    {
        let mut o = copy_orders(&self.orders[i]);
        o.rally = Some((x, y));
        self.set_orders(i, o);
    }

    /// Switches the repair of building `i`.
    fn toggle_repair(&mut self, i: usize)
        requires
            i < old(self).orders@.len(),
        ensures
            final(self)@ == (CommandStateView {
                orders: old(self)@.orders.update(
                    i as int,
                    OrdersView { repairing: !old(self)@.orders[i as int].repairing, ..old(self)@.orders[i as int] },
                ),
                ..old(self)@
            }),
    {
        let mut o = copy_orders(&self.orders[i]);
        o.repairing = !o.repairing;
        self.set_orders(i, o);
    }

    /// Deploys unit `i` into a structure; `c` goes to the caller.
    fn deploy(&mut self, i: usize, c: &GameCommand)
        requires
            i < old(self).orders@.len(),
            i < old(self).entities@.len(),
            old(self).entities@[i as int].identity is Some,
        ensures
            ({
                let s = old(self)@;
                let e = s.entities[i as int];
                final(self)@ == (CommandStateView {
                    entities: s.entities.update(
                        i as int,
                        CommandEntity {
                            identity: Some(CommandIdentity { kind: EntityKind::Structure, ..e.identity.unwrap() }),
                            ..e
                        },
                    ),
                    orders: s.orders.update(
                        i as int,
                        OrdersView { mission: None, destination: None, waypoints: Seq::empty(), target: None, ..s.orders[i as int] },
                    ),
                    requests: s.requests.push(c@),
                    ..s
                })
            }),
    {
        let ghost s0 = self@;
        let mut o = copy_orders(&self.orders[i]);
        o.mission = None;
        o.destination = None;
        o.waypoints = Vec::new();
        o.target = None;
        self.set_orders(i, o);
        let ghost s1 = self@;
        let mut e = self.entities.remove(i);
        let id = e.identity.unwrap();
        e.identity = Some(CommandIdentity { kind: EntityKind::Structure, ..id });
        self.entities.insert(i, e);
        assert(self@.entities =~= s0.entities.update(
            i as int,
            CommandEntity {
                identity: Some(CommandIdentity { kind: EntityKind::Structure, ..s0.entities[i as int].identity.unwrap() }),
                ..s0.entities[i as int]
            },
        ));
        self.push_request(c);
    }

    /// Sells building `i`; `c` goes to the caller.
    fn sell(&mut self, i: usize, c: &GameCommand)
        requires
            i < old(self).entities@.len(),
        ensures
            final(self)@ == (CommandStateView {
                entities: old(self)@.entities.update(i as int, CommandEntity { alive: false, ..old(self)@.entities[i as int] }),
                requests: old(self)@.requests.push(c@),
                ..old(self)@
            }),
    {
        let ghost s0 = self@;
        let mut e = self.entities.remove(i);
        e.alive = false;
        self.entities.insert(i, e);
        assert(self@.entities =~= s0.entities.update(i as int, CommandEntity { alive: false, ..s0.entities[i as int] }));
        self.push_request(c);
    }
}

fn rest_points(points: &Vec<(u16, u16)>) -> (rest: Vec<(u16, u16)>)
    requires
        points@.len() > 0,
    ensures
        rest@ == points@.drop_first(),
{
    let mut rest: Vec<(u16, u16)> = Vec::new();
    let mut k: usize = 1;
    while k < points.len()
        invariant
            1 <= k <= points@.len(),
            rest@ == points@.subrange(1, k as int),
        decreases points@.len() - k,
    {
        rest.push(points[k]);
        assert(rest@ =~= points@.subrange(1, k + 1));
        k = k + 1;
    }
    assert(rest@ =~= points@.drop_first());
    rest
}

/// The cell `unit` is sent to when it goes for `building` (see
/// [`approach_to`]).
fn approach(state: &CommandState, unit: EntityId, building: EntityId) -> (c: (u16, u16))
    requires
        state@.wf(),
        entity_index(state@.entities, unit.0) is Some,
        entity_index(state@.entities, building.0) is Some,
    ensures
        c == approach_to(state@, unit.0, building.0),
{
    let u = find_entity(&state.entities, unit).unwrap();
    let b = state.places[find_entity(&state.entities, building).unwrap()];
    let from = if state.entities[u].has_position {
        (state.places[u].x, state.places[u].y)
    } else {
        (b.x, b.y)
    };
    nearest_adjacent_to_footprint(from.0, from.1, b.x, b.y, b.width, b.height)
}

/// Carries out command `body`, which passed its checks.
fn apply_accepted(state: &mut CommandState, body: &GameCommand)
    requires
        old(state)@.wf(),
        match body@ {
            CommandView::MoveTo { entity, .. } => entity_index(old(state)@.entities, entity) is Some,
            CommandView::Guard { entity } => entity_index(old(state)@.entities, entity) is Some,
            CommandView::MovePath { entity, points } => entity_index(old(state)@.entities, entity) is Some && points.len() > 0,
            CommandView::Attack { attacker, target } => entity_index(old(state)@.entities, attacker) is Some
                && entity_index(old(state)@.entities, target) is Some,
            CommandView::Infiltrate { agent, building } => entity_index(old(state)@.entities, agent) is Some
                && entity_index(old(state)@.entities, building) is Some,
            CommandView::CaptureBuilding { engineer, building } => entity_index(old(state)@.entities, engineer) is Some
                && entity_index(old(state)@.entities, building) is Some,
            CommandView::SetRallyPoint { factory, .. } => entity_index(old(state)@.entities, factory) is Some,
            CommandView::RepairBuilding { building, .. } => entity_index(old(state)@.entities, building) is Some,
            CommandView::SellBuilding { building, .. } => entity_index(old(state)@.entities, building) is Some,
            CommandView::Deploy { entity } => entity_index(old(state)@.entities, entity) matches Some(i)
                && old(state)@.entities[i].identity is Some,
            _ => true,
        },
    ensures
        final(state)@ == command_effect(old(state)@, body@),
        final(state)@.wf(),
{
    let ghost s0 = state@;
    match body {
        GameCommand::MoveTo { entity, x, y } => {
            let i = find_entity(&state.entities, *entity).unwrap();
            state.send(i, (*x, *y), Vec::new(), None, None, None);
            assert(state@.orders =~= s0.orders.update(i as int, sent_to(s0.orders[i as int], (*x, *y), Seq::empty())));
        },
        GameCommand::MovePath { entity, points } => {
            let i = find_entity(&state.entities, *entity).unwrap();
            let rest = rest_points(points);
            state.send(i, points[0], rest, None, None, None);
            assert(state@.orders =~= s0.orders.update(
                i as int,
                sent_to(s0.orders[i as int], points@[0], points@.drop_first()),
            ));
        },
        GameCommand::Attack { attacker, target } => {
            let i = find_entity(&state.entities, *attacker).unwrap();
            let t = find_entity(&state.entities, *target).unwrap();
            let p = state.places[t];
            state.send(i, (p.x, p.y), Vec::new(), Some(target.0), None, None);
        },
        GameCommand::Infiltrate { agent, building } => {
            let i = find_entity(&state.entities, *agent).unwrap();
            let c = approach(state, *agent, *building);
            state.send(i, c, Vec::new(), None, Some(building.0), None);
        },
        GameCommand::CaptureBuilding { engineer, building } => {
            let i = find_entity(&state.entities, *engineer).unwrap();
            let c = approach(state, *engineer, *building);
            state.send(i, c, Vec::new(), None, None, Some(building.0));
        },
        GameCommand::Guard { entity } => {
            let i = find_entity(&state.entities, *entity).unwrap();
            state.guard(i);
        },
        GameCommand::SetRallyPoint { factory, x, y } => {
            let i = find_entity(&state.entities, *factory).unwrap();
            state.rally(i, *x, *y);
        },
        GameCommand::RepairBuilding { building, .. } => {
            let i = find_entity(&state.entities, *building).unwrap();
            state.toggle_repair(i);
        },
        GameCommand::Deploy { entity } => {
            let i = find_entity(&state.entities, *entity).unwrap();
            state.deploy(i, body);
        },
        GameCommand::SellBuilding { building, .. } => {
            let i = find_entity(&state.entities, *building).unwrap();
            state.sell(i, body);
        },
        _ => {
            state.push_request(body);
        },
    }
}

/// Carries out scheduled command `cmd`: when it fails a check, the reason
/// comes back and the state is unchanged; otherwise its effect is applied.
pub fn apply_command(state: &mut CommandState, cmd: &ScheduledCommand, f: &CommandFacts) -> (r: Option<CommandRejectReason>)
    requires
        old(state)@.wf(),
    ensures
        r == reject_reason(cmd.body@, cmd.player.0, old(state)@.entities, old(state)@.players, *f),
        r is None ==> final(state)@ == command_effect(old(state)@, cmd.body@),
        r is Some ==> final(state)@ == old(state)@,
        final(state)@.wf(),
{
    let r = command_reject_reason(cmd, &state.entities, &state.players, f);
    if r.is_some() {
        return r;
    }
    proof {
        lemma_accepted_names_entity(cmd.body@, cmd.player.0, state@.entities, state@.players, *f);
    }
    apply_accepted(state, &cmd.body);
    r
}

/// An accepted command that names an entity names one that exists, with an
/// identity where it deploys.
proof fn lemma_accepted_names_entity(
    cmd: CommandView,
    sender: u8,
    es: Seq<CommandEntity>,
    players: Seq<CommandPlayer>,
    f: CommandFacts,
)
    requires
        reject_reason(cmd, sender, es, players, f) is None,
    ensures
        match cmd {
            CommandView::MoveTo { entity, .. } => entity_index(es, entity) is Some,
            CommandView::Guard { entity } => entity_index(es, entity) is Some,
            CommandView::MovePath { entity, points } => entity_index(es, entity) is Some && points.len() > 0,
            CommandView::Attack { attacker, target } => entity_index(es, attacker) is Some
                && entity_index(es, target) is Some,
            CommandView::Infiltrate { agent, building } => entity_index(es, agent) is Some
                && entity_index(es, building) is Some,
            CommandView::CaptureBuilding { engineer, building } => entity_index(es, engineer) is Some
                && entity_index(es, building) is Some,
            CommandView::SetRallyPoint { factory, .. } => entity_index(es, factory) is Some,
            CommandView::RepairBuilding { building, .. } => entity_index(es, building) is Some,
            CommandView::SellBuilding { building, .. } => entity_index(es, building) is Some,
            CommandView::Deploy { entity } => entity_index(es, entity) matches Some(i) && es[i].identity is Some,
            _ => true,
        },
{
}

/// Orders, rejects and seen ids after the first `k` commands of a batch.
pub struct BatchView {
    pub state: CommandStateView,
    pub seen: Seq<u64>,
    pub rejects: Seq<(int, CommandRejectReason)>,
}

/// The first `k` commands of a batch in order: a command whose id was seen
/// before is rejected as a duplicate; any other is noted and carried out
/// with its facts `facts[k]` (see [`apply_command`]), its reject, if any,
/// recorded with its index.
pub open spec fn batch_fold(
    b: BatchView,
    cmds: Seq<ScheduledView>,
    facts: Seq<CommandFacts>,
    k: int,
) -> BatchView
    decreases k,
{
    if k <= 0 {
        b
    } else {
        let p = batch_fold(b, cmds, facts, k - 1);
        let c = cmds[k - 1];
        if p.seen.contains(c.id) {
            BatchView { rejects: p.rejects.push((k - 1, CommandRejectReason::DuplicateCommand)), ..p }
        } else {
            let seen = p.seen.push(c.id);
            match reject_reason(c.body, c.player, p.state.entities, p.state.players, facts[k - 1]) {
                Some(r) => BatchView { seen, rejects: p.rejects.push((k - 1, r)), ..p },
                None => BatchView {
                    state: command_effect(p.state, c.body),
                    seen,
                    rejects: p.rejects,
                },
            }
        }
    }
}

/// Carries out a batch of commands (see [`batch_fold`]); `seen` holds the
/// ids of the commands already carried out, `rejects` gets the rejected
/// ones with their index in the batch.
pub fn apply_commands(
    state: &mut CommandState,
    cmds: &[ScheduledCommand],
    facts: &[CommandFacts],
    seen: &mut Vec<u64>,
    rejects: &mut Vec<(usize, CommandRejectReason)>,
)
    requires
        old(state)@.wf(),
        facts@.len() == cmds@.len(),
    ensures
        ({
            let b = batch_fold(
                BatchView {
                    state: old(state)@,
                    seen: old(seen)@,
                    rejects: old(rejects)@.map_values(|r: (usize, CommandRejectReason)| (r.0 as int, r.1)),
                },
                cmds@.map_values(|c: ScheduledCommand| c@),
                facts@,
                cmds@.len() as int,
            );
            &&& final(state)@ == b.state
            &&& final(seen)@ == b.seen
            &&& final(rejects)@.map_values(|r: (usize, CommandRejectReason)| (r.0 as int, r.1)) == b.rejects
        }),
{
    let ghost b0 = BatchView {
        state: state@,
        seen: seen@,
        rejects: rejects@.map_values(|r: (usize, CommandRejectReason)| (r.0 as int, r.1)),
    };
    let ghost cv = cmds@.map_values(|c: ScheduledCommand| c@);
    let mut k: usize = 0;
    while k < cmds.len()
        invariant
            k <= cmds@.len(),
            facts@.len() == cmds@.len(),
                cv == cmds@.map_values(|c: ScheduledCommand| c@),
            state@.wf(),
            ({
                let b = batch_fold(b0, cv, facts@, k as int);
                &&& state@ == b.state
                &&& seen@ == b.seen
                &&& rejects@.map_values(|r: (usize, CommandRejectReason)| (r.0 as int, r.1)) == b.rejects
            }),
        decreases cmds@.len() - k,
    {
        let c = &cmds[k];
        assert(cv[k as int] == c@);
        let ghost r0 = rejects@;
        if !note_command_id(seen, c.id) {
            rejects.push((k, CommandRejectReason::DuplicateCommand));
            assert(rejects@.map_values(|r: (usize, CommandRejectReason)| (r.0 as int, r.1)) =~= r0.map_values(
                |r: (usize, CommandRejectReason)| (r.0 as int, r.1),
            ).push((k as int, CommandRejectReason::DuplicateCommand)));
        } else {
            match apply_command(state, c, &facts[k]) {
                Some(r) => {
                    rejects.push((k, r));
                    assert(rejects@.map_values(|r: (usize, CommandRejectReason)| (r.0 as int, r.1)) =~= r0.map_values(
                        |r: (usize, CommandRejectReason)| (r.0 as int, r.1),
                    ).push((k as int, r)));
                },
                None => {},
            }
        }
        k = k + 1;
    }
}

} // verus!
