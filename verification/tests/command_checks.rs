//! Checks made before a command acts, and duplicate command ids.

use ra_engine::command_checks::{
    command_reject_reason, note_command_id, BuildFacts, CommandEntity, CommandFacts, CommandIdentity, CommandPlayer,
    TechnoClass,
};
use ra_engine::commands::{CommandId, EntityId, GameCommand, PlayerId, ScheduledCommand, Tick};
use ra_engine::entities::EntityKind;
use ra_engine::powers::FireSuperWeaponError;
use ra_engine::CommandRejectReason as R;

fn ident(kind: EntityKind) -> CommandIdentity {
    CommandIdentity { kind, agent: false, engineer: false, capturable: false, production_factory: false, deploys: false }
}

fn ent(id: u64, alive: bool, owner: &str, identity: Option<CommandIdentity>) -> CommandEntity {
    CommandEntity { id: EntityId(id), alive, owner: Some(owner.to_string()), identity, has_position: true, in_store: true }
}

fn players() -> Vec<CommandPlayer> {
    vec![CommandPlayer { id: PlayerId(0), house: "Russia".to_string() }, CommandPlayer { id: PlayerId(1), house: "Americans".to_string() }]
}

fn ok_build() -> BuildFacts {
    BuildFacts {
        class: Some(TechnoClass::Building),
        construction_yard: false,
        has_living_yard: true,
        eligible: true,
        limit_reached: false,
        needs_power_plant: false,
        has_living_power: true,
        ready_at_yard: true,
        footprint_free: true,
        idle_factory: true,
        any_factory: true,
        affordable: true,
        queued: true,
    }
}

fn facts(build: BuildFacts) -> CommandFacts {
    CommandFacts { build, map_width: 64, map_height: 64, fire: Ok(()) }
}

fn sched(player: u8, body: GameCommand) -> ScheduledCommand {
    ScheduledCommand { id: CommandId(1), player: PlayerId(player), tick: Tick(0), body }
}

fn world() -> Vec<CommandEntity> {
    let mut spy = ident(EntityKind::Infantry);
    spy.agent = true;
    let mut engineer = ident(EntityKind::Infantry);
    engineer.engineer = true;
    let mut factory = ident(EntityKind::Structure);
    factory.production_factory = true;
    factory.capturable = true;
    let mut mcv = ident(EntityKind::Unit);
    mcv.deploys = true;
    vec![
        ent(1, true, "Russia", Some(ident(EntityKind::Unit))),
        ent(2, false, "Russia", Some(ident(EntityKind::Unit))),
        ent(3, true, "Americans", Some(ident(EntityKind::Unit))),
        ent(4, true, "Russia", Some(ident(EntityKind::Structure))),
        ent(5, true, "Russia", Some(spy)),
        ent(6, true, "Russia", Some(engineer)),
        ent(7, true, "Americans", Some(factory)),
        ent(8, true, "Russia", Some(mcv)),
        ent(9, true, "Russia", Some(factory)),
    ]
}

fn check(player: u8, body: GameCommand, f: &CommandFacts) -> Option<R> {
    command_reject_reason(&sched(player, body), &world(), &players(), f)
}

#[test]
fn unit_orders_need_a_living_mobile_own_unit() {
    let f = facts(ok_build());
    let mv = |e: u64| GameCommand::MoveTo { entity: EntityId(e), x: 3, y: 4 };
    assert_eq!(check(0, mv(1), &f), None);
    assert_eq!(check(0, mv(99), &f), Some(R::EntityNotFound));
    assert_eq!(check(0, mv(2), &f), Some(R::EntityDead));
    assert_eq!(check(0, mv(3), &f), Some(R::WrongOwner));
    assert_eq!(check(0, mv(4), &f), Some(R::NotMobile));
    assert_eq!(check(7, mv(1), &f), Some(R::WrongOwner));
    assert_eq!(check(0, GameCommand::Guard { entity: EntityId(1) }, &f), None);
    assert_eq!(check(0, GameCommand::MovePath { entity: EntityId(1), points: Vec::new() }, &f), Some(R::InvalidTarget));
    assert_eq!(check(0, GameCommand::MovePath { entity: EntityId(1), points: vec![(1, 1)] }, &f), None);
}

#[test]
fn attack_checks() {
    let f = facts(ok_build());
    let atk = |a: u64, t: u64| GameCommand::Attack { attacker: EntityId(a), target: EntityId(t) };
    assert_eq!(check(0, atk(1, 3), &f), None);
    assert_eq!(check(0, atk(1, 1), &f), Some(R::InvalidTarget));
    assert_eq!(check(0, atk(1, 2), &f), Some(R::InvalidTarget));
    assert_eq!(check(0, atk(1, 42), &f), Some(R::EntityNotFound));
    assert_eq!(check(0, atk(4, 3), &f), Some(R::NotMobile));
    assert_eq!(check(0, atk(3, 1), &f), Some(R::WrongOwner));
}

#[test]
fn deploy_and_rally() {
    let f = facts(ok_build());
    assert_eq!(check(0, GameCommand::Deploy { entity: EntityId(8) }, &f), None);
    assert_eq!(check(0, GameCommand::Deploy { entity: EntityId(1) }, &f), Some(R::CannotDeploy));
    let rally = |e: u64, x: u16| GameCommand::SetRallyPoint { factory: EntityId(e), x, y: 5 };
    assert_eq!(check(0, rally(9, 5), &f), None);
    assert_eq!(check(0, rally(9, 64), &f), Some(R::InvalidPlacement));
    assert_eq!(check(0, rally(4, 5), &f), Some(R::InvalidTarget));
}

#[test]
fn infiltrate_and_capture() {
    let f = facts(ok_build());
    let inf = |a: u64, b: u64| GameCommand::Infiltrate { agent: EntityId(a), building: EntityId(b) };
    let cap = |a: u64, b: u64| GameCommand::CaptureBuilding { engineer: EntityId(a), building: EntityId(b) };
    assert_eq!(check(0, inf(5, 7), &f), None);
    assert_eq!(check(0, inf(1, 7), &f), Some(R::InvalidTarget));
    assert_eq!(check(0, inf(5, 4), &f), Some(R::InvalidTarget));
    assert_eq!(check(0, inf(5, 3), &f), Some(R::InvalidTarget));
    assert_eq!(check(0, cap(6, 7), &f), None);
    assert_eq!(check(0, cap(5, 7), &f), Some(R::InvalidTarget));
    assert_eq!(check(0, cap(6, 6), &f), Some(R::InvalidTarget));
}

#[test]
fn placing_and_producing() {
    let place = GameCommand::PlaceBuilding { player: PlayerId(0), type_id: "GAPOWR".to_string(), x: 1, y: 1 };
    let produce = GameCommand::Produce { player: PlayerId(0), type_id: "E1".to_string() };
    assert_eq!(check(0, place.clone(), &facts(ok_build())), None);
    assert_eq!(check(1, place.clone(), &facts(ok_build())), Some(R::WrongOwner));
    let mut b = ok_build();
    b.ready_at_yard = false;
    assert_eq!(check(0, place.clone(), &facts(b)), Some(R::MissingPrerequisite));
    let mut b = ok_build();
    b.needs_power_plant = true;
    b.has_living_power = false;
    assert_eq!(check(0, place.clone(), &facts(b)), Some(R::InsufficientPower));
    let mut b = ok_build();
    b.class = Some(TechnoClass::Infantry);
    assert_eq!(check(0, place, &facts(b)), Some(R::InvalidPlacement));
    assert_eq!(check(0, produce.clone(), &facts(b)), None);
    let mut b = ok_build();
    b.class = Some(TechnoClass::Vehicle);
    b.idle_factory = false;
    assert_eq!(check(0, produce.clone(), &facts(b)), Some(R::QueueFull));
    b.any_factory = false;
    assert_eq!(check(0, produce.clone(), &facts(b)), Some(R::MissingPrerequisite));
    let mut b = ok_build();
    b.affordable = false;
    assert_eq!(check(0, produce.clone(), &facts(b)), Some(R::InsufficientFunds));
    let mut b = ok_build();
    b.class = None;
    assert_eq!(check(0, produce, &facts(b)), Some(R::InvalidPlacement));
}

#[test]
fn cancel_sell_repair_and_fire() {
    let f = facts(ok_build());
    let mut b = ok_build();
    b.queued = false;
    let cancel = GameCommand::CancelProduce { player: PlayerId(0), type_id: "E1".to_string() };
    assert_eq!(check(0, cancel.clone(), &f), None);
    assert_eq!(check(0, cancel, &facts(b)), Some(R::InvalidTarget));
    assert_eq!(check(0, GameCommand::SellBuilding { player: PlayerId(0), building: EntityId(4) }, &f), None);
    assert_eq!(check(0, GameCommand::SellBuilding { player: PlayerId(0), building: EntityId(1) }, &f), Some(R::InvalidTarget));
    assert_eq!(check(0, GameCommand::RepairBuilding { player: PlayerId(0), building: EntityId(7) }, &f), Some(R::WrongOwner));
    assert_eq!(check(2, GameCommand::SellBuilding { player: PlayerId(2), building: EntityId(4) }, &f), Some(R::EntityNotFound));
    let fire = GameCommand::FireSuperWeapon { player: PlayerId(0), type_id: "NUKE".to_string(), x: 1, y: 1 };
    assert_eq!(check(0, fire.clone(), &f), None);
    let mut nf = facts(ok_build());
    nf.fire = Err(FireSuperWeaponError::NotReady);
    assert_eq!(check(0, fire.clone(), &nf), Some(R::SuperWeaponNotReady));
    nf.fire = Err(FireSuperWeaponError::NoProvider);
    assert_eq!(check(0, fire.clone(), &nf), Some(R::MissingPrerequisite));
    nf.fire = Err(FireSuperWeaponError::UnsupportedKind);
    assert_eq!(check(0, fire, &nf), Some(R::InvalidTarget));
}

#[test]
fn command_ids_are_taken_once() {
    let mut seen = Vec::new();
    assert!(note_command_id(&mut seen, CommandId(5)));
    assert!(note_command_id(&mut seen, CommandId(6)));
    assert!(!note_command_id(&mut seen, CommandId(5)));
    assert_eq!(seen, vec![5, 6]);
}
