//! The follow mission: a follower keeps its destination on its target's
//! current cell until the target is gone.

use vstd::prelude::*;

verus! {

/// What the follow step reads of a follower and its target.
#[derive(Clone, Copy, Debug)]
pub struct FollowFacts {
    /// Its mission is Follow.
    pub following: bool,
    /// Has health and is not dead.
    pub alive: bool,
    /// Its follow target, if any.
    pub target: Option<u64>,
    /// The target is alive (has health and is not dead).
    pub target_alive: bool,
    /// The target's cell, when it has a position.
    pub target_cell: Option<(u16, u16)>,
    /// The follower's cell, when it has a position.
    pub cell: Option<(u16, u16)>,
    /// Its destination, when it has movement orders.
    pub destination: Option<(Option<u16>, Option<u16>)>,
    /// It has a path or waypoints left.
    pub has_route: bool,
}

/// What becomes of a follower this tick.
#[derive(Clone, Copy, Debug, PartialEq, Eq, Structural)]
pub enum FollowAction {
    /// Not following, dead, or nothing to change.
    Nothing,
    /// No target to follow: the mission ends.
    EndMission,
    /// The target is gone: following ends and the follower stops.
    StopFollowing,
    /// On the target's cell with orders left: the orders are dropped.
    HoldHere,
    /// The destination moves to the target's cell and the path is planned
    /// anew.
    Chase { x: u16, y: u16 },
}

/// The follow step for `f`.
pub open spec fn follow_action_of(f: FollowFacts) -> FollowAction {
    if !f.following || !f.alive {
        FollowAction::Nothing
    } else if f.target is None {
        FollowAction::EndMission
    } else if f.target_cell is None || !f.target_alive {
        FollowAction::StopFollowing
    } else if f.cell is None {
        FollowAction::Nothing
    } else {
        let t = f.target_cell.unwrap();
        if f.cell == Some(t) {
            let orders = f.has_route || match f.destination {
                Some((dx, dy)) => dx is Some || dy is Some,
                None => false,
            };
            if orders {
                FollowAction::HoldHere
            } else {
                FollowAction::Nothing
            }
        } else if f.destination == Some((Some(t.0), Some(t.1))) {
            FollowAction::Nothing
        } else {
            FollowAction::Chase { x: t.0, y: t.1 }
        }
    }
}

/// What the follow mission does to follower `f` this tick (see
/// [`follow_action_of`]).
pub fn follow_action(f: &FollowFacts) -> (a: FollowAction)
    ensures
        a == follow_action_of(*f),
{
    if !f.following || !f.alive {
        return FollowAction::Nothing;
    }
    if f.target.is_none() {
        return FollowAction::EndMission;
    }
    let t = match f.target_cell {
        Some(t) => t,
        None => {
            return FollowAction::StopFollowing;
        },
    };
    if !f.target_alive {
        return FollowAction::StopFollowing;
    }
    let c = match f.cell {
        Some(c) => c,
        None => {
            return FollowAction::Nothing;
        },
    };
    if c.0 == t.0 && c.1 == t.1 {
        let orders = f.has_route || match f.destination {
            Some((dx, dy)) => dx.is_some() || dy.is_some(),
            None => false,
        };
        return if orders {
            FollowAction::HoldHere
        } else {
            FollowAction::Nothing
        };
    }
    let on_target = match f.destination {
        Some((Some(dx), Some(dy))) => dx == t.0 && dy == t.1,
        _ => false,
    };
    if on_target {
        FollowAction::Nothing
    } else {
        FollowAction::Chase { x: t.0, y: t.1 }
    }
}

} // verus!
