//! The unit commands that scripted-team orders give: a move to the order's
//! waypoint, an attack on the nearest hostile near it, or a deploy, for each
//! living member whose house has a player seat.

use vstd::prelude::*;

use crate::commands::{CommandView, EntityId, GameCommand};
use crate::script_teams::{ScriptOrder, SCRIPT_ACTION_ATTACK_WAYPOINT, SCRIPT_ACTION_DEPLOY, SCRIPT_ACTION_MOVE_TO_WAYPOINT};

verus! {

/// What an order's command reads of one member.
#[derive(Clone, Copy, Debug, PartialEq, Eq, Structural)]
pub struct MemberFacts {
    /// Has health and is not dead.
    pub alive: bool,
    /// Seat of the player of its owning house, if it has an owner with a seat.
    pub player: Option<u8>,
    /// Nearest hostile near the order's waypoint, for its house.
    pub hostile_near: Option<u64>,
}

/// The command one member gets from an order of `action` whose waypoint is
/// `wp` (if the map has it), with the seat that gives it.
pub open spec fn member_command(action: i32, id: u64, m: MemberFacts, wp: Option<(u16, u16)>) -> Option<(u8, CommandView)> {
    if !m.alive || m.player is None {
        None
    } else if action == SCRIPT_ACTION_ATTACK_WAYPOINT {
        if wp is Some && m.hostile_near is Some {
            Some((m.player->0, CommandView::Attack { attacker: id, target: m.hostile_near->0 }))
        } else {
            None
        }
    } else if action == SCRIPT_ACTION_MOVE_TO_WAYPOINT {
        match wp {
            Some(c) => Some((m.player->0, CommandView::MoveTo { entity: id, x: c.0, y: c.1 })),
            None => None,
        }
    } else if action == SCRIPT_ACTION_DEPLOY {
        Some((m.player->0, CommandView::Deploy { entity: id }))
    } else {
        None
    }
}

/// The commands of the first `n` members of a team, in member order.
pub open spec fn team_commands(action: i32, ids: Seq<u64>, ms: Seq<MemberFacts>, wp: Option<(u16, u16)>, n: int) -> Seq<(u8, CommandView)>
    decreases n,
{
    if n <= 0 {
        Seq::empty()
    } else {
        let rest = team_commands(action, ids, ms, wp, n - 1);
        match member_command(action, ids[n - 1], ms[n - 1], wp) {
            Some(c) => rest.push(c),
            None => rest,
        }
    }
}

/// The commands of the orders of `kind` among the first `n` orders, in
/// order.
pub open spec fn kind_commands(
    kind: i32,
    orders: Seq<ScriptOrder>,
    facts: Seq<Vec<MemberFacts>>,
    wps: Seq<Option<(u16, u16)>>,
    n: int,
) -> Seq<(u8, CommandView)>
    decreases n,
{
    if n <= 0 {
        Seq::empty()
    } else {
        let rest = kind_commands(kind, orders, facts, wps, n - 1);
        let o = orders[n - 1];
        if o.action == kind {
            rest + team_commands(kind, o.members@, facts[n - 1]@, wps[n - 1], o.members@.len() as int)
        } else {
            rest
        }
    }
}

/// The commands of a tick's orders: all moves first, then all attacks,
/// then all deploys, each group in order of the orders.
pub open spec fn order_commands(
    orders: Seq<ScriptOrder>,
    facts: Seq<Vec<MemberFacts>>,
    wps: Seq<Option<(u16, u16)>>,
) -> Seq<(u8, CommandView)> {
    let n = orders.len() as int;
    kind_commands(SCRIPT_ACTION_MOVE_TO_WAYPOINT, orders, facts, wps, n) + kind_commands(
        SCRIPT_ACTION_ATTACK_WAYPOINT,
        orders,
        facts,
        wps,
        n,
    ) + kind_commands(SCRIPT_ACTION_DEPLOY, orders, facts, wps, n)
}

/// Commands with their seats, as plain values.
pub open spec fn seat_commands(cs: Seq<(u8, GameCommand)>) -> Seq<(u8, CommandView)> {
    cs.map_values(|c: (u8, GameCommand)| (c.0, c.1@))
}

fn push_team_commands(
    out: &mut Vec<(u8, GameCommand)>,
    action: i32,
    ids: &Vec<u64>,
    ms: &Vec<MemberFacts>,
    wp: Option<(u16, u16)>,
)
    requires
        ms@.len() == ids@.len(),
    ensures
        seat_commands(final(out)@) == seat_commands(old(out)@) + team_commands(action, ids@, ms@, wp, ids@.len() as int),
{
    let ghost start = seat_commands(out@);
    let mut i: usize = 0;
    assert(start + team_commands(action, ids@, ms@, wp, 0) =~= start);
    while i < ids.len()
        invariant
            i <= ids@.len(),
            ms@.len() == ids@.len(),
            seat_commands(out@) == start + team_commands(action, ids@, ms@, wp, i as int),
        decreases ids@.len() - i,
    {
        let id = ids[i];
        let m = ms[i];
        let ghost before = seat_commands(out@);
        let mut c: Option<(u8, GameCommand)> = None;
        if m.alive && m.player.is_some() {
            let p = m.player.unwrap();
            if action == SCRIPT_ACTION_ATTACK_WAYPOINT {
                if wp.is_some() && m.hostile_near.is_some() {
                    c = Some((p, GameCommand::Attack { attacker: EntityId(id), target: EntityId(m.hostile_near.unwrap()) }));
                }
            } else if action == SCRIPT_ACTION_MOVE_TO_WAYPOINT {
                if let Some((x, y)) = wp {
                    c = Some((p, GameCommand::MoveTo { entity: EntityId(id), x, y }));
                }
            } else if action == SCRIPT_ACTION_DEPLOY {
                c = Some((p, GameCommand::Deploy { entity: EntityId(id) }));
            }
        }
        match c {
            Some(cmd) => {
                let ghost v = (cmd.0, cmd.1@);
                out.push(cmd);
                assert(seat_commands(out@) =~= before.push(v));
            },
            None => {},
        }
        i = i + 1;
    }
}

fn push_kind_commands(
    out: &mut Vec<(u8, GameCommand)>,
    kind: i32,
    orders: &[ScriptOrder],
    facts: &[Vec<MemberFacts>],
    wps: &[Option<(u16, u16)>],
)
    requires
        facts@.len() == orders@.len(),
        wps@.len() == orders@.len(),
        forall|i: int| 0 <= i < orders@.len() ==> (#[trigger] facts@[i])@.len() == orders@[i].members@.len(),
    ensures
        seat_commands(final(out)@) == seat_commands(old(out)@) + kind_commands(
            kind,
            orders@,
            facts@,
            wps@,
            orders@.len() as int,
        ),
{
    let ghost start = seat_commands(out@);
    let mut i: usize = 0;
    assert(start + kind_commands(kind, orders@, facts@, wps@, 0) =~= start);
    while i < orders.len()
        invariant
            i <= orders@.len(),
            facts@.len() == orders@.len(),
            wps@.len() == orders@.len(),
            forall|j: int| 0 <= j < orders@.len() ==> (#[trigger] facts@[j])@.len() == orders@[j].members@.len(),
            seat_commands(out@) == start + kind_commands(kind, orders@, facts@, wps@, i as int),
        decreases orders@.len() - i,
    {
        let o = &orders[i];
        if o.action == kind {
            let ghost before = seat_commands(out@);
            assert(facts@[i as int]@.len() == o.members@.len());
            push_team_commands(out, kind, &o.members, &facts[i], wps[i]);
            assert(seat_commands(out@) =~= start + kind_commands(kind, orders@, facts@, wps@, i + 1));
        }
        i = i + 1;
    }
}

/// The commands that a tick's scripted-team orders give (see
/// [`order_commands`]); `facts[i]` holds what the commands read of the
/// members of `orders[i]`, member by member, and `wps[i]` the waypoint its
/// argument names, if the map has it.
pub fn script_order_commands(
    orders: &[ScriptOrder],
    facts: &[Vec<MemberFacts>],
    wps: &[Option<(u16, u16)>],
) -> (cmds: Vec<(u8, GameCommand)>)
    requires
        facts@.len() == orders@.len(),
        wps@.len() == orders@.len(),
        forall|i: int| 0 <= i < orders@.len() ==> (#[trigger] facts@[i])@.len() == orders@[i].members@.len(),
    ensures
        seat_commands(cmds@) == order_commands(orders@, facts@, wps@),
{
    let mut out: Vec<(u8, GameCommand)> = Vec::new();
    assert(seat_commands(out@) =~= Seq::<(u8, CommandView)>::empty());
    push_kind_commands(&mut out, SCRIPT_ACTION_MOVE_TO_WAYPOINT, orders, facts, wps);
    push_kind_commands(&mut out, SCRIPT_ACTION_ATTACK_WAYPOINT, orders, facts, wps);
    push_kind_commands(&mut out, SCRIPT_ACTION_DEPLOY, orders, facts, wps);
    assert(seat_commands(out@) =~= order_commands(orders@, facts@, wps@));
    out
}

} // verus!
