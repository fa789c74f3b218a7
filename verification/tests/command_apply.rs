//! Carrying out a tick's commands: orders, requests and recorded rejects.

use ra_engine::command_apply::{apply_command, apply_commands, CommandState, Mission, Place, UnitOrders};
use ra_engine::command_checks::{BuildFacts, CommandEntity, CommandFacts, CommandIdentity, CommandPlayer, TechnoClass};
use ra_engine::commands::{CommandId, EntityId, GameCommand, PlayerId, ScheduledCommand, Tick};
use ra_engine::entities::EntityKind;
use ra_engine::CommandRejectReason as R;

fn ident(kind: EntityKind) -> CommandIdentity {
    CommandIdentity { kind, agent: false, engineer: false, capturable: false, production_factory: false, deploys: false }
}

fn ent(id: u64, alive: bool, owner: &str, identity: Option<CommandIdentity>) -> CommandEntity {
    CommandEntity { id: EntityId(id), alive, owner: Some(owner.to_string()), identity, has_position: true, in_store: true }
}

fn blank() -> UnitOrders {
    UnitOrders {
        mission: Some(Mission::Harvest),
        destination: None,
        waypoints: Vec::new(),
        target: None,
        infiltrate: None,
        capture: None,
        rally: None,
        repairing: false,
        repath: false,
    }
}

fn place(x: u16, y: u16, width: u16, height: u16) -> Place {
    Place { x, y, width, height }
}

fn state() -> CommandState {
    let mut spy = ident(EntityKind::Infantry);
    spy.agent = true;
    let mut engineer = ident(EntityKind::Infantry);
    engineer.engineer = true;
    let mut factory = ident(EntityKind::Structure);
    factory.production_factory = true;
    factory.capturable = true;
    let mut mcv = ident(EntityKind::Unit);
    mcv.deploys = true;
    let entities = vec![
        ent(1, true, "Russia", Some(ident(EntityKind::Unit))),
        ent(2, false, "Russia", Some(ident(EntityKind::Unit))),
        ent(3, true, "Americans", Some(ident(EntityKind::Unit))),
        ent(5, true, "Russia", Some(spy)),
        ent(6, true, "Russia", Some(engineer)),
        ent(7, true, "Americans", Some(factory)),
        ent(8, true, "Russia", Some(mcv)),
        ent(9, true, "Russia", Some(factory)),
    ];
    let places = vec![
        place(1, 1, 1, 1),
        place(2, 2, 1, 1),
        place(20, 21, 1, 1),
        place(0, 0, 1, 1),
        place(30, 30, 1, 1),
        place(10, 10, 2, 2),
        place(5, 5, 1, 1),
        place(40, 40, 3, 3),
    ];
    let orders = entities.iter().map(|_| blank()).collect();
    CommandState {
        entities,
        players: vec![
            CommandPlayer { id: PlayerId(0), house: "Russia".to_string() },
            CommandPlayer { id: PlayerId(1), house: "Americans".to_string() },
        ],
        places,
        orders,
        requests: Vec::new(),
    }
}

fn ok_build() -> BuildFacts {
    BuildFacts {
        class: Some(TechnoClass::Building),
        construction_yard: false,
        has_living_yard: true,
        eligible: true,
        limit_reached: false,
        needs_power_plant: false,
        has_living_power: true,
        ready_at_yard: true,
        footprint_free: true,
        idle_factory: true,
        any_factory: true,
        affordable: true,
        queued: true,
    }
}

fn facts() -> CommandFacts {
    CommandFacts { build: ok_build(), map_width: 64, map_height: 64, fire: Ok(()) }
}

fn sched(id: u64, player: u8, body: GameCommand) -> ScheduledCommand {
    ScheduledCommand { id: CommandId(id), player: PlayerId(player), tick: Tick(0), body }
}

#[test]
fn move_sends_the_unit_and_drops_its_mission() {
    let mut s = state();
    let r = apply_command(&mut s, &sched(1, 0, GameCommand::MoveTo { entity: EntityId(1), x: 3, y: 4 }), &facts());
    assert_eq!(r, None);
    let o = &s.orders[0];
    assert_eq!(o.destination, Some((3, 4)));
    assert_eq!(o.mission, None);
    assert!(o.repath);
    assert!(o.waypoints.is_empty());
    assert!(s.requests.is_empty());
}

#[test]
fn move_path_heads_for_the_first_point_then_the_rest() {
    let mut s = state();
    let body = GameCommand::MovePath { entity: EntityId(1), points: vec![(4, 4), (5, 6), (7, 7)] };
    assert_eq!(apply_command(&mut s, &sched(1, 0, body), &facts()), None);
    assert_eq!(s.orders[0].destination, Some((4, 4)));
    assert_eq!(s.orders[0].waypoints, vec![(5, 6), (7, 7)]);
}

#[test]
fn attack_heads_for_the_target_cell() {
    let mut s = state();
    let r = apply_command(&mut s, &sched(1, 0, GameCommand::Attack { attacker: EntityId(1), target: EntityId(3) }), &facts());
    assert_eq!(r, None);
    assert_eq!(s.orders[0].destination, Some((20, 21)));
    assert_eq!(s.orders[0].target, Some(3));
}

#[test]
fn infiltrate_heads_for_the_nearest_cell_beside_the_building() {
    let mut s = state();
    let r = apply_command(&mut s, &sched(1, 0, GameCommand::Infiltrate { agent: EntityId(5), building: EntityId(7) }), &facts());
    assert_eq!(r, None);
    assert_eq!(s.orders[3].destination, Some((10, 9)));
    assert_eq!(s.orders[3].infiltrate, Some(7));
}

#[test]
fn capture_heads_for_the_nearest_cell_beside_the_building() {
    let mut s = state();
    let r =
        apply_command(&mut s, &sched(1, 0, GameCommand::CaptureBuilding { engineer: EntityId(6), building: EntityId(7) }), &facts());
    assert_eq!(r, None);
    assert_eq!(s.orders[4].destination, Some((12, 11)));
    assert_eq!(s.orders[4].capture, Some(7));
}

#[test]
fn a_rejected_command_changes_nothing() {
    let mut s = state();
    let r = apply_command(&mut s, &sched(1, 0, GameCommand::MoveTo { entity: EntityId(2), x: 3, y: 4 }), &facts());
    assert_eq!(r, Some(R::EntityDead));
    assert_eq!(s.orders[1].destination, None);
    let r = apply_command(&mut s, &sched(2, 0, GameCommand::MoveTo { entity: EntityId(3), x: 3, y: 4 }), &facts());
    assert_eq!(r, Some(R::WrongOwner));
    assert_eq!(s.orders[2].destination, None);
    assert!(s.requests.is_empty());
}

#[test]
fn guard_rally_and_repair_change_the_orders() {
    let mut s = state();
    assert_eq!(apply_command(&mut s, &sched(1, 0, GameCommand::Guard { entity: EntityId(1) }), &facts()), None);
    assert_eq!(s.orders[0].mission, Some(Mission::Guard));
    assert_eq!(
        apply_command(&mut s, &sched(2, 0, GameCommand::SetRallyPoint { factory: EntityId(9), x: 7, y: 8 }), &facts()),
        None
    );
    assert_eq!(s.orders[7].rally, Some((7, 8)));
    let repair = GameCommand::RepairBuilding { player: PlayerId(0), building: EntityId(9) };
    assert_eq!(apply_command(&mut s, &sched(3, 0, repair.clone()), &facts()), None);
    assert!(s.orders[7].repairing);
    assert_eq!(apply_command(&mut s, &sched(4, 0, repair), &facts()), None);
    assert!(!s.orders[7].repairing);
}

#[test]
fn deploy_and_sell_are_handed_on() {
    let mut s = state();
    assert_eq!(apply_command(&mut s, &sched(1, 0, GameCommand::Deploy { entity: EntityId(8) }), &facts()), None);
    assert_eq!(s.entities[6].identity.unwrap().kind, EntityKind::Structure);
    assert_eq!(s.requests.len(), 1);
    let sell = GameCommand::SellBuilding { player: PlayerId(0), building: EntityId(9) };
    assert_eq!(apply_command(&mut s, &sched(2, 0, sell), &facts()), None);
    assert!(!s.entities[7].alive);
    assert_eq!(s.requests.len(), 2);
}

#[test]
fn production_goes_to_the_caller() {
    let mut s = state();
    let body = GameCommand::Produce { player: PlayerId(0), type_id: "POWR".to_string() };
    assert_eq!(apply_command(&mut s, &sched(1, 0, body.clone()), &facts()), None);
    assert_eq!(s.requests, vec![body]);
}

#[test]
fn a_batch_records_rejects_and_duplicates_by_index() {
    let mut s = state();
    let cmds = vec![
        sched(1, 0, GameCommand::MoveTo { entity: EntityId(1), x: 3, y: 4 }),
        sched(1, 0, GameCommand::MoveTo { entity: EntityId(1), x: 9, y: 9 }),
        sched(2, 0, GameCommand::MoveTo { entity: EntityId(2), x: 9, y: 9 }),
        sched(3, 0, GameCommand::MoveTo { entity: EntityId(77), x: 9, y: 9 }),
    ];
    let f = vec![facts(); 4];
    let mut seen = Vec::new();
    let mut rejects = Vec::new();
    apply_commands(&mut s, &cmds, &f, &mut seen, &mut rejects);
    assert_eq!(s.orders[0].destination, Some((3, 4)));
    assert_eq!(seen, vec![1, 2, 3]);
    assert_eq!(rejects, vec![(1, R::DuplicateCommand), (2, R::EntityDead), (3, R::EntityNotFound)]);
}
