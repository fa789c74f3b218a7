//! Command payloads, the scheduling envelope and the per-tick input frame.

use vstd::prelude::*;

verus! {

/// Handle of a simulated entity as it appears in commands.
#[derive(Clone, Copy, Debug, PartialEq, Eq, Hash, Structural)]
pub struct EntityId(pub u64);

/// Seat of a player in the match.
#[derive(Clone, Copy, Debug, PartialEq, Eq, Hash, Structural)]
pub struct PlayerId(pub u8);

/// Unique id of a scheduled command (duplicates are rejected downstream).
#[derive(Clone, Copy, Debug, PartialEq, Eq, Hash, Structural)]
pub struct CommandId(pub u64);

/// Logic tick a command is scheduled for.
#[derive(Clone, Copy, Debug, PartialEq, Eq, Hash, Structural)]
pub struct Tick(pub u64);

/// Executable command payload.
#[derive(Clone, Debug, PartialEq, Eq)]
pub enum GameCommand {
    /// Move a unit to a cell.
    MoveTo { entity: EntityId, x: u16, y: u16 },
    /// Attack a target.
    Attack { attacker: EntityId, target: EntityId },
    /// Deploy a unit (e.g. an MCV into a construction yard).
    Deploy { entity: EntityId },
    /// Place a finished building at a cell.
    PlaceBuilding { player: PlayerId, type_id: String, x: u16, y: u16 },
    /// Queue production of a type.
    Produce { player: PlayerId, type_id: String },
    /// Set a factory's rally point.
    SetRallyPoint { factory: EntityId, x: u16, y: u16 },
    /// Send an infiltrator into a building.
    Infiltrate { agent: EntityId, building: EntityId },
    /// Cancel queued production of a type.
    CancelProduce { player: PlayerId, type_id: String },
    /// Send an engineer to capture a building.
    CaptureBuilding { engineer: EntityId, building: EntityId },
    /// Hold position and guard.
    Guard { entity: EntityId },
    /// Sell a building.
    SellBuilding { player: PlayerId, building: EntityId },
    /// Toggle repair on a building.
    RepairBuilding { player: PlayerId, building: EntityId },
    /// Move a unit along explicit waypoints.
    MovePath { entity: EntityId, points: Vec<(u16, u16)> },
    /// Fire a super weapon at a cell.
    FireSuperWeapon { player: PlayerId, type_id: String, x: u16, y: u16 },
}

/// Mathematical value of a [`GameCommand`]: ids as integers, type ids as
/// character sequences, waypoints as a sequence.
pub enum CommandView {
    MoveTo { entity: u64, x: u16, y: u16 },
    Attack { attacker: u64, target: u64 },
    Deploy { entity: u64 },
    PlaceBuilding { player: u8, type_id: Seq<char>, x: u16, y: u16 },
    Produce { player: u8, type_id: Seq<char> },
    SetRallyPoint { factory: u64, x: u16, y: u16 },
    Infiltrate { agent: u64, building: u64 },
    CancelProduce { player: u8, type_id: Seq<char> },
    CaptureBuilding { engineer: u64, building: u64 },
    Guard { entity: u64 },
    SellBuilding { player: u8, building: u64 },
    RepairBuilding { player: u8, building: u64 },
    MovePath { entity: u64, points: Seq<(u16, u16)> },
    FireSuperWeapon { player: u8, type_id: Seq<char>, x: u16, y: u16 },
}

impl View for GameCommand {
    type V = CommandView;

    open spec fn view(&self) -> CommandView {
        match self {
            GameCommand::MoveTo { entity, x, y } => CommandView::MoveTo { entity: entity.0, x: *x, y: *y },
            GameCommand::Attack { attacker, target } => CommandView::Attack {
                attacker: attacker.0,
                target: target.0,
            },
            GameCommand::Deploy { entity } => CommandView::Deploy { entity: entity.0 },
            GameCommand::PlaceBuilding { player, type_id, x, y } => CommandView::PlaceBuilding {
                player: player.0,
                type_id: type_id@,
                x: *x,
                y: *y,
            },
            GameCommand::Produce { player, type_id } => CommandView::Produce {
                player: player.0,
                type_id: type_id@,
            },
            GameCommand::SetRallyPoint { factory, x, y } => CommandView::SetRallyPoint {
                factory: factory.0,
                x: *x,
                y: *y,
            },
            GameCommand::Infiltrate { agent, building } => CommandView::Infiltrate {
                agent: agent.0,
                building: building.0,
            },
            GameCommand::CancelProduce { player, type_id } => CommandView::CancelProduce {
                player: player.0,
                type_id: type_id@,
            },
            GameCommand::CaptureBuilding { engineer, building } => CommandView::CaptureBuilding {
                engineer: engineer.0,
                building: building.0,
            },
            GameCommand::Guard { entity } => CommandView::Guard { entity: entity.0 },
            GameCommand::SellBuilding { player, building } => CommandView::SellBuilding {
                player: player.0,
                building: building.0,
            },
            GameCommand::RepairBuilding { player, building } => CommandView::RepairBuilding {
                player: player.0,
                building: building.0,
            },
            GameCommand::MovePath { entity, points } => CommandView::MovePath {
                entity: entity.0,
                points: points@,
            },
            GameCommand::FireSuperWeapon { player, type_id, x, y } => CommandView::FireSuperWeapon {
                player: player.0,
                type_id: type_id@,
                x: *x,
                y: *y,
            },
        }
    }
}

/// Views of a list of commands, in order.
pub open spec fn command_views(cmds: Seq<GameCommand>) -> Seq<CommandView> {
    cmds.map_values(|c: GameCommand| c@)
}

/// A command payload with its scheduling envelope.
#[derive(Clone, Debug, PartialEq, Eq)]
pub struct ScheduledCommand {
    pub id: CommandId,
    pub player: PlayerId,
    pub tick: Tick,
    pub body: GameCommand,
}

/// Mathematical value of a [`ScheduledCommand`].
pub struct ScheduledView {
    pub id: u64,
    pub player: u8,
    pub tick: u64,
    pub body: CommandView,
}

impl View for ScheduledCommand {
    type V = ScheduledView;

    open spec fn view(&self) -> ScheduledView {
        ScheduledView { id: self.id.0, player: self.player.0, tick: self.tick.0, body: self.body@ }
    }
}

impl ScheduledCommand {
    /// Wraps a payload in its envelope.
    pub fn new(id: CommandId, player: PlayerId, tick: Tick, body: GameCommand) -> (cmd: Self)
        ensures
            cmd.id == id,
            cmd.player == player,
            cmd.tick == tick,
            cmd.body == body,
    {
        ScheduledCommand { id, player, tick, body }
    }
}

/// Everything consumed in one simulation tick. Lockstep needs a frame for
/// every tick; a tick without input has an empty command list.
#[derive(Clone, Debug, PartialEq, Eq, Default)]
pub struct InputFrame {
    /// Logic tick of this frame.
    pub tick: u64,
    /// Scheduled commands consumed this tick (possibly none).
    pub commands: Vec<ScheduledCommand>,
}

impl InputFrame {
    /// A frame for `tick` that holds no command.
    pub fn empty(tick: u64) -> (frame: Self)
        ensures
            frame.tick == tick,
            frame.commands@.len() == 0,
    {
        InputFrame { tick, commands: Vec::new() }
    }

    /// Whether the frame holds no command.
    pub fn is_empty(&self) -> (empty: bool)
        ensures
            empty == (self.commands@.len() == 0),
    {
        self.commands.len() == 0
    }
}

} // verus!
