//! Session-level vocabulary: the phase of a run, the engine's error and the
//! simulation clock's rate.

use vstd::prelude::*;

verus! {

/// Simulation rate (ticks per second), independent of the frame rate.
pub const DEFAULT_TICK_HZ: u32 = 15;

/// Most ticks one clock pump catches up, so a stall does not spiral.
pub const MAX_TICKS_PER_PUMP: u32 = 8;

/// Phase of a run session.
#[derive(Clone, Copy, Debug, PartialEq, Eq, Structural)]
pub enum SessionPhase {
    /// No battle started yet.
    Idle,
    /// A battle is running.
    InBattle,
    /// The battle ended (a new one may start).
    Finished,
}

impl Default for SessionPhase {
    fn default() -> (p: Self)
        ensures
            p == SessionPhase::Idle,
    {
        SessionPhase::Idle
    }
}

/// Error of the engine shell.
#[derive(Clone, Debug, PartialEq, Eq)]
pub enum EngineError {
    /// Validation or boot failure, with its explanation.
    Msg(String),
}

impl EngineError {
    /// The explanation, as the error's text.
    pub fn message(&self) -> (s: &str)
        ensures
            match self {
                EngineError::Msg(m) => s@ == m@,
            },
    {
        match self {
            EngineError::Msg(m) => m.as_str(),
        }
    }
}

} // verus!
