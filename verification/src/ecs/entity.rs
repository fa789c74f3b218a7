//! Entity handles and per-slot metadata.

use vstd::prelude::*;

verus! {

/// Key of one component kind inside a world (each kind has its own store).
pub type ComponentKind = u32;

/// Entity handle: a slot index plus the slot's generation at spawn time.
/// A handle stays valid until its slot is freed; the generation then moves on,
/// so a stale handle never matches a later occupant of the same slot.
#[derive(Debug, Clone, Copy, PartialEq, Eq, Hash, Structural)]
pub struct EcsEntity {
    /// Slot index.
    pub slot: u32,
    /// Generation of the slot when the handle was issued.
    pub generation: u32,
}

/// Liveness and current generation of one slot.
#[derive(Debug, Clone, Copy, PartialEq, Eq, Structural)]
pub struct EntityMeta {
    /// Current generation of the slot.
    pub generation: u32,
    /// Whether the slot currently holds a live entity.
    pub alive: bool,
}

} // verus!
