//! The checks a command passes before it acts on the battle: the reason a
//! command is rejected, in the order the checks are made, or none.

use vstd::prelude::*;

use crate::capabilities::CommandRejectReason;
use crate::commands::{CommandId, CommandView, EntityId, GameCommand, PlayerId, ScheduledCommand};
use crate::entities::{is_mobile, mobile, EntityKind};
use crate::powers::FireSuperWeaponError;

verus! {

/// What the checks read of an entity's type (from the definitions).
#[derive(Clone, Copy, Debug)]
pub struct CommandIdentity {
    pub kind: EntityKind,
    /// Its type can infiltrate buildings.
    pub agent: bool,
    /// Its type can capture buildings.
    pub engineer: bool,
    /// Its type can be captured.
    pub capturable: bool,
    /// Its type is a factory with a rally point.
    pub production_factory: bool,
    /// Its type deploys into a building.
    pub deploys: bool,
}

/// What the checks read of an entity.
#[derive(Clone, Debug)]
pub struct CommandEntity {
    pub id: EntityId,
    /// Has health and is not dead.
    pub alive: bool,
    /// Owning house, if any.
    pub owner: Option<String>,
    /// Kind and type traits, if it has an identity.
    pub identity: Option<CommandIdentity>,
    /// Has a map position.
    pub has_position: bool,
    /// Is present in the component store.
    pub in_store: bool,
}

/// A player seat and its house.
#[derive(Clone, Debug)]
pub struct CommandPlayer {
    pub id: PlayerId,
    pub house: String,
}

/// Class of a producible type.
#[derive(Clone, Copy, Debug, PartialEq, Eq, Structural)]
pub enum TechnoClass {
    Infantry,
    Vehicle,
    Aircraft,
    Building,
}

/// What the checks of a build or production command read of its type and
/// of the player's house.
#[derive(Clone, Copy, Debug)]
pub struct BuildFacts {
    /// The class of the type, when the definitions know it.
    pub class: Option<TechnoClass>,
    /// The type is a construction yard.
    pub construction_yard: bool,
    /// The house has a living construction yard.
    pub has_living_yard: bool,
    /// The tech tree lets the house build the type.
    pub eligible: bool,
    /// The house already has as many of the type as it may.
    pub limit_reached: bool,
    /// The type needs a power plant.
    pub needs_power_plant: bool,
    /// The house has a living power plant.
    pub has_living_power: bool,
    /// A living yard of the house holds the type ready to place.
    pub ready_at_yard: bool,
    /// The type's foundation fits at the target cell.
    pub footprint_free: bool,
    /// The house has an idle factory for the type.
    pub idle_factory: bool,
    /// The house has a factory for the type (idle or busy).
    pub any_factory: bool,
    /// The player can pay the type's cost.
    pub affordable: bool,
    /// A living building of the house has the type queued or ready.
    pub queued: bool,
}

/// What the checks read of the battle besides entities and players.
#[derive(Clone, Copy, Debug)]
pub struct CommandFacts {
    /// Facts about the type a build, production or cancel command names.
    pub build: BuildFacts,
    /// Map size in cells (a rally point must lie inside).
    pub map_width: u16,
    pub map_height: u16,
    /// Outcome of trying to fire the super weapon a command names.
    pub fire: Result<(), FireSuperWeaponError>,
}

/// Index of the first entity with id `id`.
pub open spec fn entity_index(es: Seq<CommandEntity>, id: u64) -> Option<int>
    decreases es.len(),
{
    if es.len() == 0 {
        None
    } else {
        match entity_index(es.drop_last(), id) {
            Some(i) => Some(i),
            None => if es.last().id.0 == id {
                Some(es.len() - 1)
            } else {
                None
            },
        }
    }
}

/// House of the first player in seat `player`.
pub open spec fn player_house(players: Seq<CommandPlayer>, player: u8) -> Option<Seq<char>>
    decreases players.len(),
{
    if players.len() == 0 {
        None
    } else {
        match player_house(players.drop_last(), player) {
            Some(h) => Some(h),
            None => if players.last().id.0 == player {
                Some(players.last().house@)
            } else {
                None
            },
        }
    }
}

/// The player in seat `player` owns entity `e` (same house name).
pub open spec fn owns(players: Seq<CommandPlayer>, player: u8, e: CommandEntity) -> bool {
    &&& player_house(players, player) matches Some(h)
    &&& e.owner matches Some(o) && o@ == h
}

/// The entity moves.
pub open spec fn is_mobile_entity(e: CommandEntity) -> bool {
    e.identity matches Some(i) && mobile(i.kind)
}

/// The entity is a building.
pub open spec fn is_structure(e: CommandEntity) -> bool {
    e.identity matches Some(i) && i.kind == EntityKind::Structure
}

/// Checks of an order to one unit: it exists, is alive, is the sender's
/// and moves.
pub open spec fn unit_order(es: Seq<CommandEntity>, players: Seq<CommandPlayer>, sender: u8, entity: u64) -> Option<
    CommandRejectReason,
> {
    match entity_index(es, entity) {
        None => Some(CommandRejectReason::EntityNotFound),
        Some(i) => if !es[i].alive {
            Some(CommandRejectReason::EntityDead)
        } else if !owns(players, sender, es[i]) {
            Some(CommandRejectReason::WrongOwner)
        } else if !is_mobile_entity(es[i]) {
            Some(CommandRejectReason::NotMobile)
        } else {
            None
        },
    }
}

/// Checks of a unit sent into a building (infiltration when `capture` is
/// false, capture when true).
pub open spec fn building_order(
    es: Seq<CommandEntity>,
    players: Seq<CommandPlayer>,
    sender: u8,
    unit: u64,
    building: u64,
    capture: bool,
) -> Option<CommandRejectReason> {
    match (entity_index(es, unit), entity_index(es, building)) {
        (None, _) => Some(CommandRejectReason::EntityNotFound),
        (Some(_), None) => Some(CommandRejectReason::EntityNotFound),
        (Some(u), Some(b)) => {
            let e = es[u];
            let t = es[b];
            if unit == building {
                Some(CommandRejectReason::InvalidTarget)
            } else if !e.alive {
                Some(CommandRejectReason::EntityDead)
            } else if !owns(players, sender, e) {
                Some(CommandRejectReason::WrongOwner)
            } else if !(e.identity matches Some(i) && (if capture {
                i.engineer
            } else {
                i.agent
            })) {
                Some(CommandRejectReason::InvalidTarget)
            } else if !is_mobile_entity(e) {
                Some(CommandRejectReason::NotMobile)
            } else if !t.alive || !is_structure(t) {
                Some(CommandRejectReason::InvalidTarget)
            } else if capture && !(t.identity matches Some(i) && i.capturable) {
                Some(CommandRejectReason::InvalidTarget)
            } else if !(e.owner matches Some(a) && t.owner matches Some(o) && a@ != o@) {
                Some(CommandRejectReason::InvalidTarget)
            } else if !t.has_position {
                Some(CommandRejectReason::InvalidTarget)
            } else {
                None
            }
        },
    }
}

/// Checks of an order to one of the sender's buildings by seat `player`
/// (`sell`: selling, which looks the player up and needs a position;
/// otherwise repairing, which needs the building in the store).
pub open spec fn structure_order(
    es: Seq<CommandEntity>,
    players: Seq<CommandPlayer>,
    sender: u8,
    player: u8,
    building: u64,
    sell: bool,
) -> Option<CommandRejectReason> {
    if player != sender {
        Some(CommandRejectReason::WrongOwner)
    } else if sell && player_house(players, player) is None {
        Some(CommandRejectReason::EntityNotFound)
    } else {
        match entity_index(es, building) {
            None => Some(CommandRejectReason::EntityNotFound),
            Some(b) => {
                let t = es[b];
                if !t.alive {
                    Some(CommandRejectReason::EntityDead)
                } else if !owns(players, sender, t) {
                    Some(CommandRejectReason::WrongOwner)
                } else if !is_structure(t) {
                    Some(CommandRejectReason::InvalidTarget)
                } else if sell && !t.has_position {
                    Some(CommandRejectReason::InvalidTarget)
                } else if !sell && !t.in_store {
                    Some(CommandRejectReason::EntityNotFound)
                } else {
                    None
                }
            },
        }
    }
}

/// Reason a super-weapon outcome turns into.
pub open spec fn fire_reason(r: Result<(), FireSuperWeaponError>) -> Option<CommandRejectReason> {
    match r {
        Ok(()) => None,
        Err(FireSuperWeaponError::NotReady) => Some(CommandRejectReason::SuperWeaponNotReady),
        Err(FireSuperWeaponError::UnknownType) => Some(CommandRejectReason::MissingPrerequisite),
        Err(FireSuperWeaponError::NoProvider) => Some(CommandRejectReason::MissingPrerequisite),
        Err(FireSuperWeaponError::UnsupportedKind) => Some(CommandRejectReason::InvalidTarget),
    }
}

/// The reason command `cmd` sent from seat `sender` is rejected (none: it
/// is carried out).
pub open spec fn reject_reason(
    cmd: CommandView,
    sender: u8,
    es: Seq<CommandEntity>,
    players: Seq<CommandPlayer>,
    f: CommandFacts,
) -> Option<CommandRejectReason> {
    let b = f.build;
    match cmd {
        CommandView::MoveTo { entity, .. } => unit_order(es, players, sender, entity),
        CommandView::Guard { entity } => unit_order(es, players, sender, entity),
        CommandView::MovePath { entity, points } => match unit_order(es, players, sender, entity) {
            Some(r) => Some(r),
            None => if points.len() == 0 {
                Some(CommandRejectReason::InvalidTarget)
            } else {
                None
            },
        },
        CommandView::Attack { attacker, target } => match (entity_index(es, attacker), entity_index(es, target)) {
            (None, _) => Some(CommandRejectReason::EntityNotFound),
            (Some(_), None) => Some(CommandRejectReason::EntityNotFound),
            (Some(a), Some(t)) => if attacker == target {
                Some(CommandRejectReason::InvalidTarget)
            } else if !es[a].alive {
                Some(CommandRejectReason::EntityDead)
            } else if !owns(players, sender, es[a]) {
                Some(CommandRejectReason::WrongOwner)
            } else if !es[t].alive {
                Some(CommandRejectReason::InvalidTarget)
            } else if !is_mobile_entity(es[a]) {
                Some(CommandRejectReason::NotMobile)
            } else if !es[t].has_position {
                Some(CommandRejectReason::InvalidTarget)
            } else {
                None
            },
        },
        CommandView::Deploy { entity } => match entity_index(es, entity) {
            None => Some(CommandRejectReason::EntityNotFound),
            Some(i) => if !es[i].alive {
                Some(CommandRejectReason::EntityDead)
            } else if !owns(players, sender, es[i]) {
                Some(CommandRejectReason::WrongOwner)
            } else if !(es[i].identity matches Some(id) && id.deploys) {
                Some(CommandRejectReason::CannotDeploy)
            } else {
                None
            },
        },
        CommandView::PlaceBuilding { player, .. } => if player != sender {
            Some(CommandRejectReason::WrongOwner)
        } else if player_house(players, player) is None {
            Some(CommandRejectReason::EntityNotFound)
        } else if b.class != Some(TechnoClass::Building) || b.construction_yard {
            Some(CommandRejectReason::InvalidPlacement)
        } else if !b.has_living_yard || !b.eligible {
            Some(CommandRejectReason::MissingPrerequisite)
        } else if b.limit_reached {
            Some(CommandRejectReason::QueueFull)
        } else if b.needs_power_plant && !b.has_living_power {
            Some(CommandRejectReason::InsufficientPower)
        } else if !b.ready_at_yard {
            Some(CommandRejectReason::MissingPrerequisite)
        } else if !b.footprint_free {
            Some(CommandRejectReason::InvalidPlacement)
        } else {
            None
        },
        CommandView::Produce { player, .. } => if player != sender {
            Some(CommandRejectReason::WrongOwner)
        } else if player_house(players, player) is None {
            Some(CommandRejectReason::EntityNotFound)
        } else if b.class is None || (b.class == Some(TechnoClass::Building) && b.construction_yard) {
            Some(CommandRejectReason::InvalidPlacement)
        } else if !b.eligible {
            Some(CommandRejectReason::MissingPrerequisite)
        } else if b.class == Some(TechnoClass::Building) && b.needs_power_plant && !b.has_living_power {
            Some(CommandRejectReason::InsufficientPower)
        } else if b.limit_reached {
            Some(CommandRejectReason::QueueFull)
        } else if !b.idle_factory {
            if b.any_factory {
                Some(CommandRejectReason::QueueFull)
            } else {
                Some(CommandRejectReason::MissingPrerequisite)
            }
        } else if !b.affordable {
            Some(CommandRejectReason::InsufficientFunds)
        } else {
            None
        },
        CommandView::CancelProduce { player, .. } => if player != sender {
            Some(CommandRejectReason::WrongOwner)
        } else if player_house(players, player) is None {
            Some(CommandRejectReason::EntityNotFound)
        } else if !b.queued {
            Some(CommandRejectReason::InvalidTarget)
        } else {
            None
        },
        CommandView::SetRallyPoint { factory, x, y } => match entity_index(es, factory) {
            None => Some(CommandRejectReason::EntityNotFound),
            Some(i) => if !es[i].alive {
                Some(CommandRejectReason::EntityDead)
            } else if !owns(players, sender, es[i]) {
                Some(CommandRejectReason::WrongOwner)
            } else if !(es[i].identity matches Some(id) && id.production_factory) {
                Some(CommandRejectReason::InvalidTarget)
            } else if !(x < f.map_width && y < f.map_height) {
                Some(CommandRejectReason::InvalidPlacement)
            } else {
                None
            },
        },
        CommandView::Infiltrate { agent, building } => building_order(es, players, sender, agent, building, false),
        CommandView::CaptureBuilding { engineer, building } => building_order(es, players, sender, engineer, building, true),
        CommandView::SellBuilding { player, building } => structure_order(es, players, sender, player, building, true),
        CommandView::RepairBuilding { player, building } => structure_order(es, players, sender, player, building, false),
        CommandView::FireSuperWeapon { player, .. } => if player != sender {
            Some(CommandRejectReason::WrongOwner)
        } else if player_house(players, player) is None {
            Some(CommandRejectReason::EntityNotFound)
        } else {
            fire_reason(f.fire)
        },
    }
}


proof fn lemma_entity_index_prefix(es: Seq<CommandEntity>, id: u64, k: int)
    requires
        0 <= k <= es.len(),
        entity_index(es.take(k), id) is Some,
    ensures
        entity_index(es, id) == entity_index(es.take(k), id),
    decreases es.len() - k,
{
    if k < es.len() {
        assert(es.take(k + 1).drop_last() =~= es.take(k));
        lemma_entity_index_prefix(es, id, k + 1);
    } else {
        assert(es.take(k) =~= es);
    }
}

pub(crate) proof fn lemma_entity_index_bound(es: Seq<CommandEntity>, id: u64)
    ensures
        entity_index(es, id) matches Some(i) ==> 0 <= i < es.len() && es[i].id.0 == id,
    decreases es.len(),
{
    if es.len() > 0 {
        lemma_entity_index_bound(es.drop_last(), id);
    }
}

/// Index of the first entity with id `id`.
pub(crate) fn find_entity(es: &[CommandEntity], id: EntityId) -> (r: Option<usize>)
    ensures
        match r {
            Some(i) => i < es@.len() && entity_index(es@, id.0) == Some(i as int),
            None => entity_index(es@, id.0) is None,
        },
{
    let mut i: usize = 0;
    while i < es.len()
        invariant
            i <= es@.len(),
            entity_index(es@.take(i as int), id.0) is None,
        decreases es@.len() - i,
    {
        proof {
            assert(es@.take(i + 1).drop_last() =~= es@.take(i as int));
        }
        if es[i].id.0 == id.0 {
            proof {
                lemma_entity_index_prefix(es@, id.0, i + 1);
            }
            return Some(i);
        }
        i = i + 1;
    }
    assert(es@.take(i as int) =~= es@);
    None
}

proof fn lemma_player_house_prefix(players: Seq<CommandPlayer>, player: u8, k: int)
    requires
        0 <= k <= players.len(),
        player_house(players.take(k), player) is Some,
    ensures
        player_house(players, player) == player_house(players.take(k), player),
    decreases players.len() - k,
{
    if k < players.len() {
        assert(players.take(k + 1).drop_last() =~= players.take(k));
        lemma_player_house_prefix(players, player, k + 1);
    } else {
        assert(players.take(k) =~= players);
    }
}

/// Index of the first player in seat `player`.
fn find_player(players: &[CommandPlayer], player: PlayerId) -> (r: Option<usize>)
    ensures
        match r {
            Some(i) => i < players@.len() && player_house(players@, player.0) == Some(players@[i as int].house@),
            None => player_house(players@, player.0) is None,
        },
{
    let mut i: usize = 0;
    while i < players.len()
        invariant
            i <= players@.len(),
            player_house(players@.take(i as int), player.0) is None,
        decreases players@.len() - i,
    {
        proof {
            assert(players@.take(i + 1).drop_last() =~= players@.take(i as int));
            assert(players@.take(i + 1).last() == players@[i as int]);
        }
        if players[i].id.0 == player.0 {
            proof {
                lemma_player_house_prefix(players@, player.0, i + 1);
            }
            return Some(i);
        }
        i = i + 1;
    }
    assert(players@.take(i as int) =~= players@);
    None
}

/// Whether the player in seat `player` owns entity `e`.
fn owns_entity(players: &[CommandPlayer], player: PlayerId, e: &CommandEntity) -> (r: bool)
    ensures
        r == owns(players@, player.0, *e),
{
    match find_player(players, player) {
        Some(p) => match &e.owner {
            Some(o) => crate::text::same_text(o.as_str(), players[p].house.as_str()),
            None => false,
        },
        None => false,
    }
}

fn is_mobile_exec(e: &CommandEntity) -> (r: bool)
    ensures
        r == is_mobile_entity(*e),
{
    match e.identity {
        Some(i) => is_mobile(i.kind),
        None => false,
    }
}

fn is_structure_exec(e: &CommandEntity) -> (r: bool)
    ensures
        r == is_structure(*e),
{
    match e.identity {
        Some(i) => i.kind == EntityKind::Structure,
        None => false,
    }
}

fn unit_order_check(es: &[CommandEntity], players: &[CommandPlayer], sender: PlayerId, entity: EntityId) -> (r: Option<
    CommandRejectReason,
>)
    ensures
        r == unit_order(es@, players@, sender.0, entity.0),
{
    let i = match find_entity(es, entity) {
        Some(i) => i,
        None => {
            return Some(CommandRejectReason::EntityNotFound);
        },
    };
    let e = &es[i];
    if !e.alive {
        Some(CommandRejectReason::EntityDead)
    } else if !owns_entity(players, sender, e) {
        Some(CommandRejectReason::WrongOwner)
    } else if !is_mobile_exec(e) {
        Some(CommandRejectReason::NotMobile)
    } else {
        None
    }
}

fn building_order_check(
    es: &[CommandEntity],
    players: &[CommandPlayer],
    sender: PlayerId,
    unit: EntityId,
    building: EntityId,
    capture: bool,
) -> (r: Option<CommandRejectReason>)
    ensures
        r == building_order(es@, players@, sender.0, unit.0, building.0, capture),
{
    let u = match find_entity(es, unit) {
        Some(i) => i,
        None => {
            return Some(CommandRejectReason::EntityNotFound);
        },
    };
    let b = match find_entity(es, building) {
        Some(i) => i,
        None => {
            return Some(CommandRejectReason::EntityNotFound);
        },
    };
    let e = &es[u];
    let t = &es[b];
    if unit.0 == building.0 {
        return Some(CommandRejectReason::InvalidTarget);
    }
    if !e.alive {
        return Some(CommandRejectReason::EntityDead);
    }
    if !owns_entity(players, sender, e) {
        return Some(CommandRejectReason::WrongOwner);
    }
    let skilled = match e.identity {
        Some(i) => if capture {
            i.engineer
        } else {
            i.agent
        },
        None => false,
    };
    if !skilled {
        return Some(CommandRejectReason::InvalidTarget);
    }
    if !is_mobile_exec(e) {
        return Some(CommandRejectReason::NotMobile);
    }
    if !t.alive || !is_structure_exec(t) {
        return Some(CommandRejectReason::InvalidTarget);
    }
    if capture {
        let capturable = match t.identity {
            Some(i) => i.capturable,
            None => false,
        };
        if !capturable {
            return Some(CommandRejectReason::InvalidTarget);
        }
    }
    let rivals = match (&e.owner, &t.owner) {
        (Some(a), Some(o)) => !crate::text::same_text(a.as_str(), o.as_str()),
        _ => false,
    };
    if !rivals {
        return Some(CommandRejectReason::InvalidTarget);
    }
    if !t.has_position {
        return Some(CommandRejectReason::InvalidTarget);
    }
    None
}

fn structure_order_check(
    es: &[CommandEntity],
    players: &[CommandPlayer],
    sender: PlayerId,
    player: PlayerId,
    building: EntityId,
    sell: bool,
) -> (r: Option<CommandRejectReason>)
    ensures
        r == structure_order(es@, players@, sender.0, player.0, building.0, sell),
{
    if player.0 != sender.0 {
        return Some(CommandRejectReason::WrongOwner);
    }
    if sell && find_player(players, player).is_none() {
        return Some(CommandRejectReason::EntityNotFound);
    }
    let b = match find_entity(es, building) {
        Some(i) => i,
        None => {
            return Some(CommandRejectReason::EntityNotFound);
        },
    };
    let t = &es[b];
    if !t.alive {
        Some(CommandRejectReason::EntityDead)
    } else if !owns_entity(players, sender, t) {
        Some(CommandRejectReason::WrongOwner)
    } else if !is_structure_exec(t) {
        Some(CommandRejectReason::InvalidTarget)
    } else if sell && !t.has_position {
        Some(CommandRejectReason::InvalidTarget)
    } else if !sell && !t.in_store {
        Some(CommandRejectReason::EntityNotFound)
    } else {
        None
    }
}

/// The reason scheduled command `cmd` is rejected, by the checks made before
/// it acts, in order; `None` when it passes them all.
pub fn command_reject_reason(
    cmd: &ScheduledCommand,
    es: &[CommandEntity],
    players: &[CommandPlayer],
    f: &CommandFacts,
) -> (r: Option<CommandRejectReason>)
    ensures
        r == reject_reason(cmd.body@, cmd.player.0, es@, players@, *f),
{
    let sender = cmd.player;
    let b = f.build;
    match &cmd.body {
        GameCommand::MoveTo { entity, .. } => unit_order_check(es, players, sender, *entity),
        GameCommand::Guard { entity } => unit_order_check(es, players, sender, *entity),
        GameCommand::MovePath { entity, points } => match unit_order_check(es, players, sender, *entity) {
            Some(r) => Some(r),
            None => if points.len() == 0 {
                Some(CommandRejectReason::InvalidTarget)
            } else {
                None
            },
        },
        GameCommand::Attack { attacker, target } => {
            let a = match find_entity(es, *attacker) {
                Some(i) => i,
                None => {
                    return Some(CommandRejectReason::EntityNotFound);
                },
            };
            let t = match find_entity(es, *target) {
                Some(i) => i,
                None => {
                    return Some(CommandRejectReason::EntityNotFound);
                },
            };
            if attacker.0 == target.0 {
                Some(CommandRejectReason::InvalidTarget)
            } else if !es[a].alive {
                Some(CommandRejectReason::EntityDead)
            } else if !owns_entity(players, sender, &es[a]) {
                Some(CommandRejectReason::WrongOwner)
            } else if !es[t].alive {
                Some(CommandRejectReason::InvalidTarget)
            } else if !is_mobile_exec(&es[a]) {
                Some(CommandRejectReason::NotMobile)
            } else if !es[t].has_position {
                Some(CommandRejectReason::InvalidTarget)
            } else {
                None
            }
        },
        GameCommand::Deploy { entity } => {
            let i = match find_entity(es, *entity) {
                Some(i) => i,
                None => {
                    return Some(CommandRejectReason::EntityNotFound);
                },
            };
            let deploys = match es[i].identity {
                Some(id) => id.deploys,
                None => false,
            };
            if !es[i].alive {
                Some(CommandRejectReason::EntityDead)
            } else if !owns_entity(players, sender, &es[i]) {
                Some(CommandRejectReason::WrongOwner)
            } else if !deploys {
                Some(CommandRejectReason::CannotDeploy)
            } else {
                None
            }
        },
        GameCommand::PlaceBuilding { player, .. } => {
            let building_class = match b.class {
                Some(TechnoClass::Building) => true,
                _ => false,
            };
            if player.0 != sender.0 {
                Some(CommandRejectReason::WrongOwner)
            } else if find_player(players, *player).is_none() {
                Some(CommandRejectReason::EntityNotFound)
            } else if !building_class || b.construction_yard {
                Some(CommandRejectReason::InvalidPlacement)
            } else if !b.has_living_yard || !b.eligible {
                Some(CommandRejectReason::MissingPrerequisite)
            } else if b.limit_reached {
                Some(CommandRejectReason::QueueFull)
            } else if b.needs_power_plant && !b.has_living_power {
                Some(CommandRejectReason::InsufficientPower)
            } else if !b.ready_at_yard {
                Some(CommandRejectReason::MissingPrerequisite)
            } else if !b.footprint_free {
                Some(CommandRejectReason::InvalidPlacement)
            } else {
                None
            }
        },
        GameCommand::Produce { player, .. } => {
            let building_class = match b.class {
                Some(TechnoClass::Building) => true,
                _ => false,
            };
            if player.0 != sender.0 {
                Some(CommandRejectReason::WrongOwner)
            } else if find_player(players, *player).is_none() {
                Some(CommandRejectReason::EntityNotFound)
            } else if b.class.is_none() || (building_class && b.construction_yard) {
                Some(CommandRejectReason::InvalidPlacement)
            } else if !b.eligible {
                Some(CommandRejectReason::MissingPrerequisite)
            } else if building_class && b.needs_power_plant && !b.has_living_power {
                Some(CommandRejectReason::InsufficientPower)
            } else if b.limit_reached {
                Some(CommandRejectReason::QueueFull)
            } else if !b.idle_factory {
                if b.any_factory {
                    Some(CommandRejectReason::QueueFull)
                } else {
                    Some(CommandRejectReason::MissingPrerequisite)
                }
            } else if !b.affordable {
                Some(CommandRejectReason::InsufficientFunds)
            } else {
                None
            }
        },
        GameCommand::CancelProduce { player, .. } => {
            if player.0 != sender.0 {
                Some(CommandRejectReason::WrongOwner)
            } else if find_player(players, *player).is_none() {
                Some(CommandRejectReason::EntityNotFound)
            } else if !b.queued {
                Some(CommandRejectReason::InvalidTarget)
            } else {
                None
            }
        },
        GameCommand::SetRallyPoint { factory, x, y } => {
            let i = match find_entity(es, *factory) {
                Some(i) => i,
                None => {
                    return Some(CommandRejectReason::EntityNotFound);
                },
            };
            let is_factory = match es[i].identity {
                Some(id) => id.production_factory,
                None => false,
            };
            if !es[i].alive {
                Some(CommandRejectReason::EntityDead)
            } else if !owns_entity(players, sender, &es[i]) {
                Some(CommandRejectReason::WrongOwner)
            } else if !is_factory {
                Some(CommandRejectReason::InvalidTarget)
            } else if !(*x < f.map_width && *y < f.map_height) {
                Some(CommandRejectReason::InvalidPlacement)
            } else {
                None
            }
        },
        GameCommand::Infiltrate { agent, building } => building_order_check(es, players, sender, *agent, *building, false),
        GameCommand::CaptureBuilding { engineer, building } => building_order_check(
            es,
            players,
            sender,
            *engineer,
            *building,
            true,
        ),
        GameCommand::SellBuilding { player, building } => structure_order_check(es, players, sender, *player, *building, true),
        GameCommand::RepairBuilding { player, building } => structure_order_check(
            es,
            players,
            sender,
            *player,
            *building,
            false,
        ),
        GameCommand::FireSuperWeapon { player, .. } => {
            if player.0 != sender.0 {
                Some(CommandRejectReason::WrongOwner)
            } else if find_player(players, *player).is_none() {
                Some(CommandRejectReason::EntityNotFound)
            } else {
                match f.fire {
                    Ok(()) => None,
                    Err(FireSuperWeaponError::NotReady) => Some(CommandRejectReason::SuperWeaponNotReady),
                    Err(FireSuperWeaponError::UnknownType) => Some(CommandRejectReason::MissingPrerequisite),
                    Err(FireSuperWeaponError::NoProvider) => Some(CommandRejectReason::MissingPrerequisite),
                    Err(FireSuperWeaponError::UnsupportedKind) => Some(CommandRejectReason::InvalidTarget),
                }
            }
        },
    }
}

/// Records command id `id` among those already seen; false when it was seen
/// before (the command is then a duplicate).
pub fn note_command_id(seen: &mut Vec<u64>, id: CommandId) -> (fresh: bool)
    ensures
        fresh == !old(seen)@.contains(id.0),
        final(seen)@ == if fresh {
            old(seen)@.push(id.0)
        } else {
            old(seen)@
        },
{
    let mut i: usize = 0;
    while i < seen.len()
        invariant
            i <= seen@.len(),
            forall|k: int| 0 <= k < i ==> seen@[k] != id.0,
        decreases seen@.len() - i,
    {
        if seen[i] == id.0 {
            assert(seen@[i as int] == id.0);
            return false;
        }
        i = i + 1;
    }
    seen.push(id.0);
    true
}


/// The entity a command acts through, if it names one.
pub open spec fn acting_entity(cmd: CommandView) -> Option<u64> {
    match cmd {
        CommandView::MoveTo { entity, .. } => Some(entity),
        CommandView::Guard { entity } => Some(entity),
        CommandView::MovePath { entity, .. } => Some(entity),
        CommandView::Deploy { entity } => Some(entity),
        CommandView::Attack { attacker, .. } => Some(attacker),
        CommandView::SetRallyPoint { factory, .. } => Some(factory),
        CommandView::Infiltrate { agent, .. } => Some(agent),
        CommandView::CaptureBuilding { engineer, .. } => Some(engineer),
        CommandView::SellBuilding { building, .. } => Some(building),
        CommandView::RepairBuilding { building, .. } => Some(building),
        _ => None,
    }
}

/// The seat a command acts for, if it names one.
pub open spec fn acting_player(cmd: CommandView) -> Option<u8> {
    match cmd {
        CommandView::PlaceBuilding { player, .. } => Some(player),
        CommandView::Produce { player, .. } => Some(player),
        CommandView::CancelProduce { player, .. } => Some(player),
        CommandView::SellBuilding { player, .. } => Some(player),
        CommandView::RepairBuilding { player, .. } => Some(player),
        CommandView::FireSuperWeapon { player, .. } => Some(player),
        _ => None,
    }
}

/// A player commands only what is theirs: a command that passes its checks
/// acts through a living entity of the sender's house, and for the sender's
/// own seat only.
pub proof fn law_accepted_commands_act_for_sender(
    cmd: CommandView,
    sender: u8,
    es: Seq<CommandEntity>,
    players: Seq<CommandPlayer>,
    f: CommandFacts,
)
    requires
        reject_reason(cmd, sender, es, players, f) is None,
    ensures
        acting_entity(cmd) matches Some(id) ==> (entity_index(es, id) matches Some(i) && es[i].alive && owns(
            players,
            sender,
            es[i],
        )),
        acting_player(cmd) matches Some(p) ==> p == sender,
{
}

/// A command id is carried out at most once: once noted, the same id is
/// seen again.
pub proof fn law_command_id_noted_once(seen: Seq<u64>, id: u64)
    ensures
        ({
            let after = if !seen.contains(id) {
                seen.push(id)
            } else {
                seen
            };
            after.contains(id)
        }),
{
    if !seen.contains(id) {
        assert(seen.push(id)[seen.len() as int] == id);
    }
}

/// A building is placed only by its own seat, for a known house, when it
/// is a building other than a yard, the house has a living yard and may
/// build it, is under its limit, has power if it needs it, holds it
/// finished at a yard, and its foundation fits where it is placed; and
/// then it is placed.
pub proof fn law_placement_accepted_exactly_when_allowed(
    player: u8,
    type_id: Seq<char>,
    x: u16,
    y: u16,
    sender: u8,
    es: Seq<CommandEntity>,
    players: Seq<CommandPlayer>,
    f: CommandFacts,
)
    ensures
        reject_reason(CommandView::PlaceBuilding { player, type_id, x, y }, sender, es, players, f) is None <==> {
            let b = f.build;
            &&& player == sender
            &&& player_house(players, player) is Some
            &&& b.class == Some(TechnoClass::Building) && !b.construction_yard
            &&& b.has_living_yard && b.eligible && !b.limit_reached
            &&& b.needs_power_plant ==> b.has_living_power
            &&& b.ready_at_yard
            &&& b.footprint_free
        },
{
}

/// An order to produce is accepted only from its own seat, for a known
/// house, of a known type other than a yard, that the house may build,
/// with power for a building that needs it, under the limit, with an idle
/// factory and the funds; and then it is accepted.
pub proof fn law_production_accepted_exactly_when_allowed(
    player: u8,
    type_id: Seq<char>,
    sender: u8,
    es: Seq<CommandEntity>,
    players: Seq<CommandPlayer>,
    f: CommandFacts,
)
    ensures
        reject_reason(CommandView::Produce { player, type_id }, sender, es, players, f) is None <==> {
            let b = f.build;
            &&& player == sender
            &&& player_house(players, player) is Some
            &&& b.class is Some && !(b.class == Some(TechnoClass::Building) && b.construction_yard)
            &&& b.eligible && !b.limit_reached
            &&& b.class == Some(TechnoClass::Building) && b.needs_power_plant ==> b.has_living_power
            &&& b.idle_factory && b.affordable
        },
        reject_reason(CommandView::CancelProduce { player, type_id }, sender, es, players, f) is None <==> {
            &&& player == sender
            &&& player_house(players, player) is Some
            &&& f.build.queued
        },
{
}

/// An order to a unit is accepted only when the unit exists, is alive, is
/// the sender's and moves; and then it is accepted.
pub proof fn law_unit_orders_accepted_exactly_when_allowed(
    entity: u64,
    x: u16,
    y: u16,
    sender: u8,
    es: Seq<CommandEntity>,
    players: Seq<CommandPlayer>,
    f: CommandFacts,
)
    ensures
        reject_reason(CommandView::MoveTo { entity, x, y }, sender, es, players, f) is None <==> (entity_index(
            es,
            entity,
        ) matches Some(i) && es[i].alive && owns(players, sender, es[i]) && is_mobile_entity(es[i])),
        reject_reason(CommandView::Guard { entity }, sender, es, players, f) is None <==> (entity_index(
            es,
            entity,
        ) matches Some(i) && es[i].alive && owns(players, sender, es[i]) && is_mobile_entity(es[i])),
{
}

/// A building is sold or repaired only by its owner's own seat, when it
/// exists, is alive and is a building.
pub proof fn law_structure_orders_need_a_living_own_building(
    player: u8,
    building: u64,
    sender: u8,
    es: Seq<CommandEntity>,
    players: Seq<CommandPlayer>,
    f: CommandFacts,
)
    ensures
        reject_reason(CommandView::SellBuilding { player, building }, sender, es, players, f) is None ==> (player
            == sender && (entity_index(es, building) matches Some(i) && es[i].alive && owns(players, sender, es[i])
            && is_structure(es[i]) && es[i].has_position)),
        reject_reason(CommandView::RepairBuilding { player, building }, sender, es, players, f) is None ==> (player
            == sender && (entity_index(es, building) matches Some(i) && es[i].alive && owns(players, sender, es[i])
            && is_structure(es[i]))),
{
}

/// A unit is sent into a building only when it is the sender's living
/// agent (engineer for a capture) that moves, and the building is another
/// house's living, placed building (capturable for a capture).
pub proof fn law_building_orders_need_a_foreign_building(
    unit: u64,
    building: u64,
    sender: u8,
    es: Seq<CommandEntity>,
    players: Seq<CommandPlayer>,
    f: CommandFacts,
)
    ensures
        reject_reason(CommandView::Infiltrate { agent: unit, building }, sender, es, players, f) is None ==> (
        entity_index(es, unit) matches Some(u) && entity_index(es, building) matches Some(b) && unit != building
            && es[u].alive && owns(players, sender, es[u]) && es[u].identity.unwrap().agent && is_mobile_entity(es[u])
            && es[b].alive && is_structure(es[b]) && es[b].has_position && es[u].owner.unwrap()@
            != es[b].owner.unwrap()@),
        reject_reason(CommandView::CaptureBuilding { engineer: unit, building }, sender, es, players, f) is None ==> (
        entity_index(es, unit) matches Some(u) && entity_index(es, building) matches Some(b) && unit != building
            && es[u].alive && owns(players, sender, es[u]) && es[u].identity.unwrap().engineer && is_mobile_entity(es[u])
            && es[b].alive && is_structure(es[b]) && es[b].identity.unwrap().capturable && es[b].has_position
            && es[u].owner.unwrap()@ != es[b].owner.unwrap()@),
{
}

/// An attack is ordered only for the sender's living, mobile unit on
/// another living entity with a cell; a unit deploys only when it is the
/// sender's, alive and of a deploying type; a rally point is set only on
/// the sender's living factory and inside the map; a path is followed only
/// when it has a cell; and each is then accepted.
pub proof fn law_other_orders_accepted_exactly_when_allowed(
    a: u64,
    b: u64,
    x: u16,
    y: u16,
    points: Seq<(u16, u16)>,
    sender: u8,
    es: Seq<CommandEntity>,
    players: Seq<CommandPlayer>,
    f: CommandFacts,
)
    ensures
        reject_reason(CommandView::Attack { attacker: a, target: b }, sender, es, players, f) is None <==> (a != b
            && (entity_index(es, a) matches Some(i) && es[i].alive && owns(players, sender, es[i]) && is_mobile_entity(
            es[i],
        )) && (entity_index(es, b) matches Some(j) && es[j].alive && es[j].has_position)),
        reject_reason(CommandView::Deploy { entity: a }, sender, es, players, f) is None <==> (entity_index(es, a) matches Some(
            i,
        ) && es[i].alive && owns(players, sender, es[i]) && (es[i].identity matches Some(id) && id.deploys)),
        reject_reason(CommandView::SetRallyPoint { factory: a, x, y }, sender, es, players, f) is None <==> (entity_index(
            es,
            a,
        ) matches Some(i) && es[i].alive && owns(players, sender, es[i]) && (es[i].identity matches Some(id)
            && id.production_factory) && x < f.map_width && y < f.map_height),
        reject_reason(CommandView::MovePath { entity: a, points }, sender, es, players, f) is None <==> (
        points.len() > 0 && (entity_index(es, a) matches Some(i) && es[i].alive && owns(players, sender, es[i])
            && is_mobile_entity(es[i]))),
{
}

/// A super weapon is fired only from its own seat, for a known house, and
/// when firing succeeds; a refused fire is rejected for its reason.
pub proof fn law_fire_accepted_exactly_when_it_fires(
    player: u8,
    type_id: Seq<char>,
    x: u16,
    y: u16,
    sender: u8,
    es: Seq<CommandEntity>,
    players: Seq<CommandPlayer>,
    f: CommandFacts,
)
    ensures
        reject_reason(CommandView::FireSuperWeapon { player, type_id, x, y }, sender, es, players, f) is None <==> (
        player == sender && player_house(players, player) is Some && f.fire is Ok),
        (player == sender && player_house(players, player) is Some && f.fire == Err::<(), FireSuperWeaponError>(
            FireSuperWeaponError::NotReady,
        )) ==> reject_reason(CommandView::FireSuperWeapon { player, type_id, x, y }, sender, es, players, f) == Some(
            CommandRejectReason::SuperWeaponNotReady,
        ),
        player != sender ==> reject_reason(CommandView::FireSuperWeapon { player, type_id, x, y }, sender, es, players, f)
            == Some(CommandRejectReason::WrongOwner),
{
}

/// The reason a build order that is otherwise in order is refused: a
/// placement whose foundation does not fit is an invalid placement; an
/// order to produce without an idle factory finds the queue full when the
/// house has a busy one, and lacks a prerequisite when it has none; one
/// that cannot be paid lacks the funds.
pub proof fn law_reasons_for_refused_build_orders(
    player: u8,
    type_id: Seq<char>,
    x: u16,
    y: u16,
    es: Seq<CommandEntity>,
    players: Seq<CommandPlayer>,
    f: CommandFacts,
)
    requires
        player_house(players, player) is Some,
        f.build.eligible && !f.build.limit_reached && !f.build.construction_yard,
        f.build.needs_power_plant ==> f.build.has_living_power,
    ensures
        (f.build.class == Some(TechnoClass::Building) && f.build.has_living_yard && f.build.ready_at_yard
            && !f.build.footprint_free) ==> reject_reason(CommandView::PlaceBuilding { player, type_id, x, y }, player, es, players, f)
            == Some(CommandRejectReason::InvalidPlacement),
        (f.build.class is Some && !f.build.idle_factory) ==> reject_reason(CommandView::Produce { player, type_id }, player, es, players, f)
            == Some(if f.build.any_factory { CommandRejectReason::QueueFull } else { CommandRejectReason::MissingPrerequisite }),
        (f.build.class is Some && f.build.idle_factory && !f.build.affordable) ==> reject_reason(
            CommandView::Produce { player, type_id },
            player,
            es,
            players,
            f,
        ) == Some(CommandRejectReason::InsufficientFunds),
{
}

/// Why an order to a unit is refused: a unit that is not there is not
/// found; a dead one is dead; a living one of another house is not the
/// sender's; the sender's own that cannot move is not mobile.
pub proof fn law_reasons_for_refused_unit_orders(
    entity: u64,
    x: u16,
    y: u16,
    sender: u8,
    es: Seq<CommandEntity>,
    players: Seq<CommandPlayer>,
    f: CommandFacts,
)
    ensures
        ({
            let r = reject_reason(CommandView::MoveTo { entity, x, y }, sender, es, players, f);
            match entity_index(es, entity) {
                None => r == Some(CommandRejectReason::EntityNotFound),
                Some(i) => {
                    &&& !es[i].alive ==> r == Some(CommandRejectReason::EntityDead)
                    &&& es[i].alive && !owns(players, sender, es[i]) ==> r == Some(CommandRejectReason::WrongOwner)
                    &&& es[i].alive && owns(players, sender, es[i]) && !is_mobile_entity(es[i]) ==> r == Some(
                        CommandRejectReason::NotMobile,
                    )
                },
            }
        }),
{
}

/// Build and fire orders sent for another seat are refused as not the
/// sender's, and those of a seat without a house as not found.
pub proof fn law_orders_for_another_seat_are_refused(
    player: u8,
    type_id: Seq<char>,
    x: u16,
    y: u16,
    sender: u8,
    es: Seq<CommandEntity>,
    players: Seq<CommandPlayer>,
    f: CommandFacts,
)
    ensures
        player != sender ==> reject_reason(CommandView::PlaceBuilding { player, type_id, x, y }, sender, es, players, f)
            == Some(CommandRejectReason::WrongOwner),
        player != sender ==> reject_reason(CommandView::Produce { player, type_id }, sender, es, players, f) == Some(
            CommandRejectReason::WrongOwner,
        ),
        player != sender ==> reject_reason(CommandView::CancelProduce { player, type_id }, sender, es, players, f)
            == Some(CommandRejectReason::WrongOwner),
        player_house(players, sender) is None ==> reject_reason(
            CommandView::PlaceBuilding { player: sender, type_id, x, y },
            sender,
            es,
            players,
            f,
        ) == Some(CommandRejectReason::EntityNotFound),
        player_house(players, sender) is None ==> reject_reason(
            CommandView::Produce { player: sender, type_id },
            sender,
            es,
            players,
            f,
        ) == Some(CommandRejectReason::EntityNotFound),
{
}

} // verus!
