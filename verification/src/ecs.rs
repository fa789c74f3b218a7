//! Entity/component store with generational handles and deferred structural
//! commands. Component values of one world share a type `C`; each component
//! kind (a `u32` key) has its own sparse-set store.

pub mod commands;
pub mod entity;
pub mod laws;
pub mod store;
pub mod world;

pub use commands::{EcsCommandBuffer, EcsOp};
pub use entity::{ComponentKind, EcsEntity, EntityMeta};
pub use store::ComponentStore;
pub use world::{EcsWorld, WorldView};
