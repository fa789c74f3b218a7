//! The capabilities snapshot of a side.

use ra_engine::capabilities::{BarStructure, BarTechno, BuildBarSide, CapabilityItem, StructureWeapon, SuperWeaponDef};
use ra_engine::command_checks::TechnoClass;
use ra_engine::commands::EntityId;
use ra_engine::entities::{EntityIdentity, EntityKind, EntityRecord};
use ra_engine::snapshot::{snapshot_capabilities, QueueFacts, SnapshotSide};
use ra_engine::super_weapons::SuperWeaponRuntime;
use ra_engine::tech_tree::TechnoRules;
use ra_engine::{CommandRejectReason as R, TechTreePlayer};

fn entity(owner: &str, kind: EntityKind, type_id: &str) -> EntityRecord {
    EntityRecord {
        alive: true,
        owner: Some(owner.to_string()),
        identity: Some(EntityIdentity { kind, type_id: type_id.to_string(), tag: None }),
        cell: None,
    }
}

fn player() -> TechTreePlayer<'static> {
    TechTreePlayer { house: "Russia", tech_level: 10, stolen_allied_tech: false, stolen_soviet_tech: false, stolen_third_tech: false }
}

fn rules() -> TechnoRules {
    TechnoRules {
        tech_level: 1,
        required_houses: Vec::new(),
        forbidden_houses: Vec::new(),
        requires_stolen_allied_tech: false,
        requires_stolen_soviet_tech: false,
        requires_stolen_third_tech: false,
        construction_yard: false,
        prerequisite: Vec::new(),
        prerequisite_override: Vec::new(),
    }
}

fn techno(key: &str, class: TechnoClass, cost: i32) -> BarTechno {
    BarTechno { type_key: key.to_string(), class, rules: rules(), owner_allowed: true, cost, build_limit: 0, deploys: false }
}

fn structure(key: &str, cost: i32) -> BarStructure {
    BarStructure { type_key: key.to_string(), cost, techno: Some(techno(key, TechnoClass::Building, cost)), requires_power: false }
}

fn item(key: &str, cost: i32, enabled: bool, reason: Option<R>) -> CapabilityItem {
    CapabilityItem { type_id: key.to_string(), cost, enabled, disabled_reason: reason }
}

struct Fixture {
    structs: Vec<BarStructure>,
    technos: Vec<BarTechno>,
    defense: Vec<String>,
    entities: Vec<EntityRecord>,
    providers: Vec<StructureWeapon>,
    weapons: Vec<SuperWeaponDef>,
    queues: Vec<QueueFacts>,
}

fn fixture() -> Fixture {
    Fixture {
        structs: vec![structure("NAPOWR", 800), structure("NAFLAK", 1000), structure("NABARR", 500), structure("NAPILL", 400)],
        technos: vec![
            techno("E1", TechnoClass::Infantry, 100),
            techno("HTNK", TechnoClass::Vehicle, 900),
            techno("ZEP", TechnoClass::Aircraft, 2000),
            techno("E2", TechnoClass::Infantry, 200),
        ],
        defense: vec!["NAFLAK".to_string(), "NAPILL".to_string()],
        entities: vec![entity("Russia", EntityKind::Structure, "NAWEAT")],
        providers: vec![StructureWeapon { structure: "NAWEAT".to_string(), weapon: "LightningStormSpecial".to_string() }],
        weapons: vec![SuperWeaponDef {
            type_key: "LIGHTNINGSTORMSPECIAL".to_string(),
            ui_name: String::new(),
            sidebar_image: String::new(),
            kind: "LightningStorm".to_string(),
            recharge_time: 2,
        }],
        queues: vec![
            QueueFacts { factory: EntityId(5), item: Some(("HTNK".to_string(), 30)), ready: None, total_ticks: 90, rally_x: Some(3), rally_y: Some(4) },
            QueueFacts { factory: EntityId(6), item: None, ready: None, total_ticks: 0, rally_x: None, rally_y: None },
            QueueFacts { factory: EntityId(7), item: None, ready: Some("NAPOWR".to_string()), total_ticks: 60, rally_x: None, rally_y: None },
        ],
    }
}

fn side<'a>(
    f: &'a Fixture,
    rt: &'a SuperWeaponRuntime,
    deploys: &'a [Option<String>],
    has_yard: bool,
    has_barracks: bool,
) -> SnapshotSide<'a> {
    SnapshotSide {
        bar: BuildBarSide {
            player: player(),
            living: &[],
            funds: 900,
            has_yard,
            has_power: true,
            ready: Some("NAPOWR".to_string()),
            yard_idle: true,
            in_production: &[],
            entities: &f.entities,
        },
        power_output: 200,
        power_drain: 150,
        has_infantry_factory: has_barracks,
        has_vehicle_factory: true,
        has_aircraft_factory: false,
        has_radar: true,
        infantry_idle: true,
        vehicle_idle: true,
        aircraft_idle: true,
        providers: &f.providers,
        weapons: &f.weapons,
        charges: rt,
        deploy_targets: deploys,
        queues: &f.queues,
    }
}

#[test]
fn snapshot_parts_the_build_bar_into_tabs() {
    let f = fixture();
    let rt = SuperWeaponRuntime::new();
    let deploys = vec![None, Some("NACNST".to_string())];
    let s = snapshot_capabilities(&side(&f, &rt, &deploys, true, true), &f.structs, &f.technos, &f.defense, &[EntityId(4), EntityId(2)]);
    assert_eq!(s.house, "Russia");
    assert_eq!((s.funds, s.power_output, s.power_drain), (900, 200, 150));
    assert!(s.has_construction_yard && s.has_power_plant && s.has_radar && !s.has_aircraft_factory);
    assert_eq!(s.selected, vec![EntityId(4), EntityId(2)]);
    assert_eq!(s.build_items, vec![item("NABARR", 500, true, None), item("NAPOWR", 800, true, None)]);
    assert_eq!(s.defense_items, vec![item("NAFLAK", 1000, false, Some(R::InsufficientFunds)), item("NAPILL", 400, true, None)]);
    assert_eq!(s.infantry_items, vec![item("E1", 100, true, None), item("E2", 200, true, None)]);
    assert_eq!(s.vehicle_items, vec![item("HTNK", 900, true, None)]);
    assert_eq!(s.aircraft_items, vec![item("ZEP", 2000, false, Some(R::MissingPrerequisite))]);
    assert_eq!(s.super_weapon_items.len(), 1);
    assert_eq!(s.super_weapon_items[0].disabled_reason, Some(R::SuperWeaponNotReady));
    let d = s.deploy.unwrap();
    assert_eq!((d.entity, d.into_type.as_str(), d.enabled, d.disabled_reason), (EntityId(2), "NACNST", true, None));
    assert_eq!(s.queues.len(), 2);
    assert_eq!((s.queues[0].factory, s.queues[0].type_id.as_str(), s.queues[0].remaining_ticks), (EntityId(5), "HTNK", 30));
    assert_eq!((s.queues[0].total_ticks, s.queues[0].rally_x, s.queues[0].rally_y), (90, Some(3), Some(4)));
    assert_eq!((s.queues[1].factory, s.queues[1].type_id.as_str(), s.queues[1].remaining_ticks), (EntityId(7), "NAPOWR", 0));
}

#[test]
fn losing_the_yard_and_barracks_disables_their_entries() {
    let f = fixture();
    let rt = SuperWeaponRuntime::new();
    let s = snapshot_capabilities(&side(&f, &rt, &[], false, false), &f.structs, &f.technos, &f.defense, &[]);
    assert!(s.deploy.is_none());
    assert!(!s.has_construction_yard && !s.has_infantry_factory);
    let refused = |i: &CapabilityItem| !i.enabled && i.disabled_reason == Some(R::MissingPrerequisite);
    assert_eq!(s.build_items.len() + s.defense_items.len(), 4);
    assert!(s.build_items.iter().all(refused));
    assert!(s.defense_items.iter().all(refused));
    assert!(s.infantry_items.iter().all(refused));
    assert_eq!(s.vehicle_items, vec![item("HTNK", 900, true, None)]);
}
