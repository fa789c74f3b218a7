//! Battle-simulation runtime: a generational entity/component store, the fixed
//! system schedule, and the deterministic gameplay rules that decide what the
//! simulation does each tick.

pub mod action_route;
pub mod ai;
pub mod ai_army;
pub mod ai_conditions;
pub mod ai_trigger_tick;
pub mod ai_triggers;
pub mod base_plan;
pub mod battle;
pub mod capabilities;
pub mod command_apply;
pub mod command_checks;
pub mod commands;
pub mod damage;
pub mod digest;
pub mod economy;
pub mod ecs;
pub mod engagement;
pub mod factories;
pub mod follow;
pub mod entities;
pub mod effects;
pub mod eva;
pub mod house_actions;
pub mod key_order;
pub mod movement;
pub mod navigation;
pub mod navigation_laws;
pub mod outcome;
pub mod placement;
pub mod players;
pub mod powers;
pub mod presentation;
pub mod production;
pub mod production_orders;
pub mod repairs;
pub mod repath;
pub mod schedule;
pub mod script_commands;
pub mod script_teams;
pub mod session;
pub mod session_orders;
pub mod snapshot;
pub mod starting_units;
pub mod super_weapons;
pub mod team_spawn;
pub mod tech_tree;
pub mod terrain_spawn;
pub mod text;
pub mod trigger_dispatch;
pub mod trigger_events;
pub mod trigger_params;
pub mod triggers;
pub mod unit_spawn;

pub use ai::{difficulty_extra_produce, difficulty_skips_offensive};
pub use battle::{start_lightning_storm, tick_lightning_storm, BattleState};
pub use capabilities::{
    evaluate_build_availability, evaluate_produce_availability, CapabilityItem, CommandRejectReason,
    SuperWeaponCapabilityItem,
};
pub use ecs::{ComponentKind, EcsCommandBuffer, EcsEntity, EcsOp, EcsWorld};
pub use schedule::{SystemPhase, SystemSchedule};
pub use players::{houses_are_allied, PlayerState, TechTreePlayer};
pub use powers::{FireSuperWeaponError, LightingProfile, LightningStormState};
pub use production::produce_step_due;
pub use terrain_spawn::{
    terrain_spawn_sample, terrain_spawner_frame_signature, TerrainSpawnerPhase, TerrainSpawnerState,
    TerrainSpawnerTick,
};
