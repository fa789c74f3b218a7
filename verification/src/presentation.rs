//! What the render snapshot shows of units and players.

use vstd::prelude::*;

verus! {

/// Animation state shown for a unit or building.
#[derive(Clone, Copy, Debug, PartialEq, Eq, Structural)]
pub enum AnimState {
    Idle,
    Move,
    Attack,
    /// Hit flash.
    TakeDamage,
    Die,
    /// A factory producing.
    Produce,
}

/// What the animation choice reads of an entity's components.
#[derive(Clone, Copy, Debug)]
pub struct AnimSignals {
    /// Dead, or without health.
    pub dead: bool,
    /// Hit flash running.
    pub hit_flash: bool,
    /// Muzzle flash running.
    pub fire_flash: bool,
    /// Its production queue holds an item.
    pub producing: bool,
    /// It has an attack target.
    pub has_target: bool,
    /// It has a destination or a path to walk.
    pub moving: bool,
}

/// Animation state by priority: death, hit flash, muzzle flash, production,
/// attack target, movement, else idle.
pub open spec fn anim_state_of(s: AnimSignals) -> AnimState {
    if s.dead {
        AnimState::Die
    } else if s.hit_flash {
        AnimState::TakeDamage
    } else if s.fire_flash {
        AnimState::Attack
    } else if s.producing {
        AnimState::Produce
    } else if s.has_target {
        AnimState::Attack
    } else if s.moving {
        AnimState::Move
    } else {
        AnimState::Idle
    }
}

/// Animation state of an entity.
pub fn derive_anim_state(s: AnimSignals) -> (a: AnimState)
    ensures
        a == anim_state_of(s),
{
    if s.dead {
        return AnimState::Die;
    }
    if s.hit_flash {
        return AnimState::TakeDamage;
    }
    if s.fire_flash {
        return AnimState::Attack;
    }
    if s.producing {
        return AnimState::Produce;
    }
    if s.has_target {
        return AnimState::Attack;
    }
    if s.moving {
        return AnimState::Move;
    }
    AnimState::Idle
}

/// A player's economy as the snapshot shows it.
#[derive(Clone, Debug, PartialEq, Eq)]
pub struct SnapshotPlayer {
    /// House name.
    pub house: String,
    /// Current funds.
    pub funds: i32,
    /// Power produced.
    pub power_output: i32,
    /// Power consumed.
    pub power_drain: i32,
    /// Whether the side is short of power.
    pub low_power: bool,
}

} // verus!
