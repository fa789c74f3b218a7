//! Sidebar lists: build bar, production bars, super weapons, living keys.

use ra_engine::capabilities::{
    living_structure_type_keys, project_build_items, project_produce_items, project_super_weapon_items,
    sort_items_by_type, BarStructure, BarTechno, BuildBarSide, CapabilityItem, StructureWeapon, SuperWeaponDef,
};
use ra_engine::command_checks::TechnoClass;
use ra_engine::entities::{EntityIdentity, EntityKind, EntityRecord};
use ra_engine::super_weapons::SuperWeaponRuntime;
use ra_engine::tech_tree::TechnoRules;
use ra_engine::{CommandRejectReason as R, TechTreePlayer};

fn entity(alive: bool, owner: &str, kind: EntityKind, type_id: &str) -> EntityRecord {
    EntityRecord {
        alive,
        owner: Some(owner.to_string()),
        identity: Some(EntityIdentity { kind, type_id: type_id.to_string(), tag: None }),
        cell: None,
    }
}

fn player() -> TechTreePlayer<'static> {
    TechTreePlayer {
        house: "Russia",
        tech_level: 10,
        stolen_allied_tech: false,
        stolen_soviet_tech: false,
        stolen_third_tech: false,
    }
}

fn rules(tech_level: i32) -> TechnoRules {
    TechnoRules {
        tech_level,
        required_houses: Vec::new(),
        forbidden_houses: Vec::new(),
        requires_stolen_allied_tech: false,
        requires_stolen_soviet_tech: false,
        requires_stolen_third_tech: false,
        construction_yard: false,
        prerequisite: Vec::new(),
        prerequisite_override: Vec::new(),
    }
}

fn techno(key: &str, class: TechnoClass, cost: i32, tech_level: i32) -> BarTechno {
    BarTechno {
        type_key: key.to_string(),
        class,
        rules: rules(tech_level),
        owner_allowed: true,
        cost,
        build_limit: 0,
        deploys: false,
    }
}

fn item(key: &str, cost: i32, enabled: bool, reason: Option<R>) -> CapabilityItem {
    CapabilityItem { type_id: key.to_string(), cost, enabled, disabled_reason: reason }
}

#[test]
fn items_sort_by_key_and_keep_equal_keys_in_order() {
    let sorted = sort_items_by_type(vec![item("NAWEAP", 1, true, None), item("E1", 2, true, None), item("NAWEAP", 3, true, None), item("E1", 4, true, None)]);
    let keys: Vec<(String, i32)> = sorted.iter().map(|i| (i.type_id.clone(), i.cost)).collect();
    assert_eq!(keys, vec![("E1".to_string(), 2), ("E1".to_string(), 4), ("NAWEAP".to_string(), 1), ("NAWEAP".to_string(), 3)]);
}

#[test]
fn production_bar_lists_eligible_non_deploying_types_of_the_class() {
    let mut mcv = techno("SMCV", TechnoClass::Vehicle, 3000, 1);
    mcv.deploys = true;
    let mut limited = techno("HTNK", TechnoClass::Vehicle, 900, 1);
    limited.build_limit = 1;
    let technos = vec![
        techno("V3", TechnoClass::Vehicle, 800, 1),
        mcv,
        techno("E1", TechnoClass::Infantry, 100, 1),
        limited,
        techno("APOC", TechnoClass::Vehicle, 1750, 20),
    ];
    let entities = vec![entity(true, "Russia", EntityKind::Unit, "HTNK")];
    let items = project_produce_items(&technos, TechnoClass::Vehicle, player(), &[], 1000, true, true, &entities);
    assert_eq!(items, vec![item("HTNK", 900, false, Some(R::QueueFull)), item("V3", 800, true, None)]);
    let none = project_produce_items(&technos, TechnoClass::Vehicle, player(), &[], 1000, false, true, &entities);
    assert_eq!(none[1], item("V3", 800, false, Some(R::MissingPrerequisite)));
    let poor = project_produce_items(&technos, TechnoClass::Infantry, player(), &[], 50, true, true, &entities);
    assert_eq!(poor, vec![item("E1", 100, false, Some(R::InsufficientFunds))]);
}

#[test]
fn build_bar_marks_ready_queued_and_busy_yard() {
    let structs = vec![
        BarStructure { type_key: "NAPOWR".to_string(), cost: 800, techno: Some(techno("NAPOWR", TechnoClass::Building, 0, 1)), requires_power: false },
        BarStructure { type_key: "NABARR".to_string(), cost: 0, techno: Some(techno("NABARR", TechnoClass::Building, 500, 1)), requires_power: true },
        BarStructure { type_key: "NARADR".to_string(), cost: 1000, techno: Some(techno("NARADR", TechnoClass::Building, 0, 1)), requires_power: true },
        BarStructure { type_key: "NAIRON".to_string(), cost: 2500, techno: None, requires_power: false },
    ];
    let entities: Vec<EntityRecord> = Vec::new();
    let queued = vec!["naradr".to_string()];
    let side = BuildBarSide {
        player: player(),
        living: &[],
        funds: 5000,
        has_yard: true,
        has_power: false,
        ready: Some("napowr".to_string()),
        yard_idle: true,
        in_production: &queued,
        entities: &entities,
    };
    let items = project_build_items(&structs, &side);
    assert_eq!(
        items,
        vec![
            item("NABARR", 500, false, Some(R::InsufficientPower)),
            item("NAPOWR", 800, true, None),
            item("NARADR", 1000, true, None),
        ]
    );
    let busy = BuildBarSide { ready: None, yard_idle: false, in_production: &[], ..side };
    let items = project_build_items(&structs, &busy);
    assert_eq!(items[1], item("NAPOWR", 800, false, Some(R::QueueFull)));    // Without a yard every entry is out, even the ready and the queued one.
    let no_yard = BuildBarSide { has_yard: false, ready: Some("napowr".to_string()), in_production: &queued, ..side };
    let items = project_build_items(&structs, &no_yard);
    assert!(items.iter().all(|i| !i.enabled && i.disabled_reason == Some(R::MissingPrerequisite)));
    assert_eq!(items.len(), 3);
}

#[test]
fn living_structure_keys_are_sorted_once() {
    let entities = vec![
        entity(true, "Russia", EntityKind::Structure, "NAPOWR"),
        entity(true, "Russia", EntityKind::Structure, "NACNST"),
        entity(true, "Russia", EntityKind::Structure, "NAPOWR"),
        entity(false, "Russia", EntityKind::Structure, "NABARR"),
        entity(true, "Russia", EntityKind::Unit, "HTNK"),
        entity(true, "russia", EntityKind::Structure, "NAWEAP"),
    ];
    assert_eq!(living_structure_type_keys(&entities, "Russia"), vec!["NACNST".to_string(), "NAPOWR".to_string()]);
}

#[test]
fn super_weapon_bar_follows_living_providers() {
    let entities = vec![
        entity(true, "Russia", EntityKind::Structure, "NAWEAT"),
        entity(true, "Russia", EntityKind::Structure, "NAMISL"),
        entity(true, "Russia", EntityKind::Structure, "NAWEAT"),
        entity(false, "Russia", EntityKind::Structure, "NAIRON"),
    ];
    let providers = vec![
        StructureWeapon { structure: "NAWEAT".to_string(), weapon: "LightningStormSpecial".to_string() },
        StructureWeapon { structure: "NAMISL".to_string(), weapon: "NukeSpecial".to_string() },
        StructureWeapon { structure: "NAIRON".to_string(), weapon: "IronCurtainSpecial".to_string() },
    ];
    let def = |key: &str, kind: &str| SuperWeaponDef {
        type_key: key.to_string(),
        ui_name: format!("Name:{}", key),
        sidebar_image: String::new(),
        kind: kind.to_string(),
        recharge_time: 2,
    };
    let defs = vec![def("NUKESPECIAL", "MultiMissile"), def("LIGHTNINGSTORMSPECIAL", "LightningStorm"), def("IRONCURTAINSPECIAL", "IronCurtain")];
    let mut rt = SuperWeaponRuntime::new();
    rt.set_charge_for_test("Russia", "LIGHTNINGSTORMSPECIAL", 180, 180);
    let items = project_super_weapon_items(&entities, "Russia", &providers, &defs, &rt);
    assert_eq!(items.len(), 2);
    assert_eq!(items[0].type_id, "LIGHTNINGSTORMSPECIAL");
    assert!(items[0].ready && items[0].enabled);
    assert_eq!(items[0].disabled_reason, None);
    assert_eq!(items[1].type_id, "NUKESPECIAL");
    assert_eq!(items[1].charge_ticks, 0);
    assert_eq!(items[1].required_ticks, 180);
    assert_eq!(items[1].disabled_reason, Some(R::SuperWeaponNotReady));
    rt.set_charge_for_test("Russia", "NUKESPECIAL", 180, 180);
    let items = project_super_weapon_items(&entities, "Russia", &providers, &defs, &rt);
    assert!(items[1].ready && !items[1].enabled);
    assert_eq!(items[1].disabled_reason, Some(R::MissingPrerequisite));
}
