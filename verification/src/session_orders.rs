//! What the session does with the player's clicks and with the peers'
//! digests: orders on a selection become one command per selected entity
//! that still exists, none once the match is decided; a remote digest is
//! in sync only at the same tick with the same hash, and a different hash at
//! the same tick pauses the match.

use vstd::prelude::*;

use crate::commands::types::command_views;
use crate::commands::{CommandView, EntityId, GameCommand};

verus! {

/// An order the player gives to a selection.
#[derive(Clone, Copy, Debug, PartialEq, Eq, Structural)]
pub enum UnitOrder {
    Move { x: u16, y: u16 },
    Attack { target: u64 },
    Infiltrate { building: u64 },
    Capture { building: u64 },
    Deploy,
    Guard,
    Rally { x: u16, y: u16 },
}

/// `id` is among the entities of the world.
pub open spec fn present(ps: Seq<EntityId>, id: u64) -> bool {
    exists|i: int| 0 <= i < ps.len() && #[trigger] ps[i].0 == id
}

/// The command that entity `id` gets from order `o` (an entity never
/// targets itself).
pub open spec fn unit_command(o: UnitOrder, id: u64) -> Option<CommandView> {
    match o {
        UnitOrder::Move { x, y } => Some(CommandView::MoveTo { entity: id, x, y }),
        UnitOrder::Attack { target } => if id == target {
            None
        } else {
            Some(CommandView::Attack { attacker: id, target })
        },
        UnitOrder::Infiltrate { building } => if id == building {
            None
        } else {
            Some(CommandView::Infiltrate { agent: id, building })
        },
        UnitOrder::Capture { building } => if id == building {
            None
        } else {
            Some(CommandView::CaptureBuilding { engineer: id, building })
        },
        UnitOrder::Deploy => Some(CommandView::Deploy { entity: id }),
        UnitOrder::Guard => Some(CommandView::Guard { entity: id }),
        UnitOrder::Rally { x, y } => Some(CommandView::SetRallyPoint { factory: id, x, y }),
    }
}

/// The entity an order aims at, which must exist for the order to go out.
pub open spec fn order_target(o: UnitOrder) -> Option<u64> {
    match o {
        UnitOrder::Attack { target } => Some(target),
        UnitOrder::Infiltrate { building } => Some(building),
        UnitOrder::Capture { building } => Some(building),
        _ => None,
    }
}

/// The commands for the first `n` selected entities that exist, in
/// selection order.
pub open spec fn selected_commands(o: UnitOrder, sel: Seq<EntityId>, ps: Seq<EntityId>, n: int) -> Seq<CommandView>
    decreases n,
{
    if n <= 0 {
        Seq::empty()
    } else {
        let rest = selected_commands(o, sel, ps, n - 1);
        let id = sel[n - 1].0;
        if present(ps, id) && unit_command(o, id) is Some {
            rest.push(unit_command(o, id)->0)
        } else {
            rest
        }
    }
}

/// The commands order `o` on selection `sel` gives: none once the match is
/// decided or when the entity it aims at is gone.
pub open spec fn order_commands_for(o: UnitOrder, sel: Seq<EntityId>, ps: Seq<EntityId>, decided: bool) -> Seq<CommandView> {
    if decided || (order_target(o) matches Some(t) && !present(ps, t)) {
        Seq::empty()
    } else {
        selected_commands(o, sel, ps, sel.len() as int)
    }
}

/// Whether entity `id` is among `ps`.
fn is_present(ps: &[EntityId], id: u64) -> (b: bool)
    ensures
        b == present(ps@, id),
{
    let mut i: usize = 0;
    while i < ps.len()
        invariant
            i <= ps@.len(),
            forall|j: int| 0 <= j < i ==> ps@[j].0 != id,
        decreases ps@.len() - i,
    {
        if ps[i].0 == id {
            return true;
        }
        i = i + 1;
    }
    false
}

fn command_for(o: UnitOrder, id: u64) -> (c: Option<GameCommand>)
    ensures
        match c {
            Some(c) => unit_command(o, id) == Some(c@),
            None => unit_command(o, id) is None,
        },
{
    match o {
        UnitOrder::Move { x, y } => Some(GameCommand::MoveTo { entity: EntityId(id), x, y }),
        UnitOrder::Attack { target } => if id == target {
            None
        } else {
            Some(GameCommand::Attack { attacker: EntityId(id), target: EntityId(target) })
        },
        UnitOrder::Infiltrate { building } => if id == building {
            None
        } else {
            Some(GameCommand::Infiltrate { agent: EntityId(id), building: EntityId(building) })
        },
        UnitOrder::Capture { building } => if id == building {
            None
        } else {
            Some(GameCommand::CaptureBuilding { engineer: EntityId(id), building: EntityId(building) })
        },
        UnitOrder::Deploy => Some(GameCommand::Deploy { entity: EntityId(id) }),
        UnitOrder::Guard => Some(GameCommand::Guard { entity: EntityId(id) }),
        UnitOrder::Rally { x, y } => Some(GameCommand::SetRallyPoint { factory: EntityId(id), x, y }),
    }
}

/// The commands that order `o` on the selection gives (see
/// [`order_commands_for`]); `present` lists the entities of the world and
/// `decided` tells whether the match has an outcome.
pub fn selection_order(o: UnitOrder, selected: &[EntityId], present_ids: &[EntityId], decided: bool) -> (cmds: Vec<GameCommand>)
    ensures
        command_views(cmds@) == order_commands_for(o, selected@, present_ids@, decided),
{
    let mut cmds: Vec<GameCommand> = Vec::new();
    assert(command_views(cmds@) =~= Seq::<CommandView>::empty());
    if decided {
        return cmds;
    }
    let aim: Option<u64> = match o {
        UnitOrder::Attack { target } => Some(target),
        UnitOrder::Infiltrate { building } => Some(building),
        UnitOrder::Capture { building } => Some(building),
        _ => None,
    };
    if let Some(t) = aim {
        if !is_present(present_ids, t) {
            return cmds;
        }
    }
    let mut i: usize = 0;
    while i < selected.len()
        invariant
            i <= selected@.len(),
            command_views(cmds@) == selected_commands(o, selected@, present_ids@, i as int),
        decreases selected@.len() - i,
    {
        let id = selected[i].0;
        if is_present(present_ids, id) {
            match command_for(o, id) {
                Some(c) => {
                    let ghost before = command_views(cmds@);
                    let ghost cv = c@;
                    cmds.push(c);
                    assert(command_views(cmds@) =~= before.push(cv));
                },
                None => {},
            }
        }
        i = i + 1;
    }
    cmds
}

/// Tick and hash of a battle's state, as peers exchange them.
#[derive(Clone, Copy, Debug, PartialEq, Eq, Structural)]
pub struct StateDigest {
    pub tick: u64,
    pub hash: u64,
}

/// Checks a peer's digest against the local one: in sync only at the same
/// tick with the same hash; a digest of another tick is not a sync and
/// changes nothing; a different hash at the same tick pauses the match.
pub fn apply_remote_digest(paused: &mut bool, local: StateDigest, remote: StateDigest) -> (synced: bool)
    ensures
        synced == (remote.tick == local.tick && remote.hash == local.hash),
        *final(paused) == (*old(paused) || (remote.tick == local.tick && remote.hash != local.hash)),
{
    if remote.tick != local.tick {
        return false;
    }
    if remote.hash == local.hash {
        return true;
    }
    *paused = true;
    false
}

} // verus!
