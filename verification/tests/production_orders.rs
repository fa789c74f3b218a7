//! Unit production orders checked against the funds and factories as they stand.

use ra_engine::command_apply::{CommandState, Place, UnitOrders};
use ra_engine::command_checks::{BuildFacts, CommandEntity, CommandFacts, CommandIdentity, CommandPlayer, TechnoClass};
use ra_engine::commands::{CommandId, EntityId, GameCommand, PlayerId, ScheduledCommand, Tick};
use ra_engine::entities::EntityKind;
use ra_engine::factories::{FactoryRecord, QueueState};
use ra_engine::production_orders::{apply_commands_live, FundsRecord, ProduceType, ProduceWorld};
use ra_engine::CommandRejectReason as R;

fn facts() -> CommandFacts {
    CommandFacts {
        build: BuildFacts {
            class: None,
            construction_yard: false,
            has_living_yard: true,
            eligible: false,
            limit_reached: false,
            needs_power_plant: false,
            has_living_power: true,
            ready_at_yard: false,
            footprint_free: false,
            idle_factory: false,
            any_factory: false,
            affordable: false,
            queued: false,
        },
        map_width: 64,
        map_height: 64,
        fire: Ok(()),
    }
}

fn tank() -> ProduceType {
    ProduceType { class: Some(TechnoClass::Vehicle), category: Some(2), eligible: true, limit_reached: false, cost: 900, ticks: 60 }
}

fn world(funds: i32) -> ProduceWorld {
    ProduceWorld {
        players: vec![FundsRecord { id: 0, house: 1, funds, funds_spent: 100 }],
        factories: vec![FactoryRecord {
            id: 50,
            alive: true,
            owner: Some(1),
            structure: true,
            category: Some(2),
            queue: Some(QueueState { is_primary: false, busy: false, can_enqueue: true, unit_len: 0 }),
        }],
        items: vec![None],
        readies: vec![None],
    }
}

fn state() -> CommandState {
    CommandState {
        entities: Vec::new(),
        players: vec![CommandPlayer { id: PlayerId(0), house: "Russia".to_string() }],
        places: Vec::new(),
        orders: Vec::new(),
        requests: Vec::new(),
    }
}

fn produce(id: u64) -> ScheduledCommand {
    ScheduledCommand {
        id: CommandId(id),
        player: PlayerId(0),
        tick: Tick(0),
        body: GameCommand::Produce { player: PlayerId(0), type_id: "htnk".to_string() },
    }
}

#[test]
fn a_second_order_finds_the_factory_busy() {
    let mut s = state();
    let mut w = world(5000);
    let cmds = vec![produce(1), produce(2)];
    let mut seen = Vec::new();
    let mut rejects = Vec::new();
    apply_commands_live(&mut s, &mut w, &cmds, &vec![facts(); 2], &vec![tank(); 2], &mut seen, &mut rejects);
    assert_eq!(rejects, vec![(1, R::QueueFull)]);
    assert_eq!(w.players[0].funds, 4100);
    assert_eq!(w.players[0].funds_spent, 1000);
    assert_eq!(w.items[0], Some(("HTNK".to_string(), 60)));
    assert!(w.factories[0].queue.unwrap().busy);
    assert_eq!(s.requests.len(), 1);
}

#[test]
fn an_order_without_the_funds_is_refused() {
    let mut s = state();
    let mut w = world(500);
    let mut seen = Vec::new();
    let mut rejects = Vec::new();
    apply_commands_live(&mut s, &mut w, &[produce(1)], &[facts()], &[tank()], &mut seen, &mut rejects);
    assert_eq!(rejects, vec![(0, R::InsufficientFunds)]);
    assert_eq!(w.players[0].funds, 500);
    assert_eq!(w.items[0], None);
}

#[test]
fn a_repeated_batch_is_all_duplicates() {
    let mut s = state();
    let mut w = world(5000);
    let cmds = vec![produce(1), produce(2)];
    let mut seen = Vec::new();
    let mut rejects = Vec::new();
    apply_commands_live(&mut s, &mut w, &cmds, &vec![facts(); 2], &vec![tank(); 2], &mut seen, &mut rejects);
    let funds = w.players[0].funds;
    let mut again = Vec::new();
    apply_commands_live(&mut s, &mut w, &cmds, &vec![facts(); 2], &vec![tank(); 2], &mut seen, &mut again);
    assert_eq!(again, vec![(0, R::DuplicateCommand), (1, R::DuplicateCommand)]);
    assert_eq!(w.players[0].funds, funds);
}

fn cancel(id: u64) -> ScheduledCommand {
    ScheduledCommand {
        id: CommandId(id),
        player: PlayerId(0),
        tick: Tick(0),
        body: GameCommand::CancelProduce { player: PlayerId(0), type_id: "Htnk".to_string() },
    }
}

#[test]
fn cancelling_refunds_and_frees_the_factory() {
    let mut s = state();
    let mut w = world(5000);
    let cmds = vec![produce(1), cancel(2), cancel(3), produce(4)];
    let mut seen = Vec::new();
    let mut rejects = Vec::new();
    apply_commands_live(&mut s, &mut w, &cmds, &vec![facts(); 4], &vec![tank(); 4], &mut seen, &mut rejects);
    // The first cancel refunds; the second finds nothing; the factory takes the last order again.
    assert_eq!(rejects, vec![(2, R::InvalidTarget)]);
    assert_eq!(w.players[0].funds, 4100);
    assert_eq!(w.players[0].funds_spent, 1000);
    assert_eq!(w.items[0], Some(("HTNK".to_string(), 60)));
}

fn with_factory_building() -> CommandState {
    let mut s = state();
    s.entities.push(CommandEntity {
        id: EntityId(50),
        alive: true,
        owner: Some("Russia".to_string()),
        identity: Some(CommandIdentity {
            kind: EntityKind::Structure,
            agent: false,
            engineer: false,
            capturable: false,
            production_factory: true,
            deploys: false,
        }),
        has_position: true,
        in_store: true,
    });
    s.places.push(Place { x: 4, y: 4, width: 3, height: 3 });
    s.orders.push(UnitOrders {
        mission: None,
        destination: None,
        waypoints: Vec::new(),
        target: None,
        infiltrate: None,
        capture: None,
        rally: None,
        repairing: false,
        repath: false,
    });
    s
}

fn sell(id: u64) -> ScheduledCommand {
    ScheduledCommand {
        id: CommandId(id),
        player: PlayerId(0),
        tick: Tick(0),
        body: GameCommand::SellBuilding { player: PlayerId(0), building: EntityId(50) },
    }
}

#[test]
fn selling_refunds_half_and_stops_the_factory() {
    let mut s = with_factory_building();
    let mut w = world(5000);
    let weap = ProduceType { class: Some(TechnoClass::Building), category: None, eligible: true, limit_reached: false, cost: 2001, ticks: 0 };
    let cmds = vec![produce(1), sell(2), produce(3)];
    let mut seen = Vec::new();
    let mut rejects = Vec::new();
    apply_commands_live(&mut s, &mut w, &cmds, &vec![facts(); 3], &[tank(), weap, tank()], &mut seen, &mut rejects);
    // The factory is sold: its item is gone and the last order finds no factory.
    assert_eq!(rejects, vec![(2, R::MissingPrerequisite)]);
    assert_eq!(w.players[0].funds, 5000 - 900 + 1000);
    assert_eq!(w.players[0].funds_spent, 100 + 900 - 1000);
    assert_eq!(w.items[0], None);
    assert!(!w.factories[0].alive);
    assert!(!s.entities[0].alive);
}
