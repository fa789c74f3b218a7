//! Deterministic player/AI commands and their network byte format.
//!
//! A [`ScheduledCommand`] is what travels between peers: an envelope (id,
//! player, tick) around a [`GameCommand`] payload. All integers are written
//! big-endian; a type id is written as a `u16` byte length followed by its
//! UTF-8 bytes.

pub mod codec;
pub mod scheduled;
pub mod types;
pub mod wire;

pub use codec::{decode_command, decode_commands, encode_command, encode_commands};
pub use scheduled::{decode_scheduled, encode_scheduled};



pub use types::{CommandId, CommandView, EntityId, GameCommand, InputFrame, PlayerId, ScheduledCommand, ScheduledView, Tick};
