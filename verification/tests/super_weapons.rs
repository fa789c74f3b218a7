use ra_engine::powers::FireSuperWeaponError;
use ra_engine::key_order::{compare_keys, KeyOrder};
use ra_engine::super_weapons::{
    check_super_weapon_fire, own_super_weapon_charge_percent, required_ticks_for_sw, tick_super_weapon_charges,
    try_fire_super_weapon, ActiveSuperWeapon, SuperWeaponRuntime, WeaponFilter,
};

fn active(house: &str, key: &str, required: u32) -> ActiveSuperWeapon {
    ActiveSuperWeapon { house: house.to_string(), type_key: key.to_string(), required_ticks: required }
}

#[test]
fn recharge_time_converts_to_ticks() {
    assert_eq!(required_ticks_for_sw(0), 90);
    assert_eq!(required_ticks_for_sw(-5), 90);
    assert_eq!(required_ticks_for_sw(1), 90);
    assert_eq!(required_ticks_for_sw(3), 270);
    assert_eq!(required_ticks_for_sw(i32::MAX), u32::MAX);
}

#[test]
fn set_charge_reads_back_ignoring_house_case() {
    let mut rt = SuperWeaponRuntime::default();
    rt.set_charge_for_test("Soviet", "LightningStorm", 10, 100);
    let c = rt.charge("SOVIET", "LightningStorm").expect("slot");
    assert_eq!(c.charge_ticks, 10);
    assert_eq!(c.required_ticks, 100);
    assert!(!c.is_ready());
    assert!(rt.charge("SOVIET", "lightningstorm").is_none());
    assert!(rt.charge("Allies", "LightningStorm").is_none());
}

#[test]
fn set_charge_caps_at_required_and_needs_one_tick() {
    let mut rt = SuperWeaponRuntime::new();
    rt.set_charge_for_test("Soviet", "Nuke", 500, 100);
    let c = rt.charge("Soviet", "Nuke").unwrap();
    assert_eq!(c.charge_ticks, 100);
    assert!(c.is_ready());
    rt.set_charge_for_test("Soviet", "Iron", 7, 0);
    let c = rt.charge("Soviet", "Iron").unwrap();
    assert_eq!(c.required_ticks, 1);
    assert_eq!(c.charge_ticks, 1);
    assert!(c.is_ready());
}

#[test]
fn ticking_charges_until_ready_then_stops() {
    let mut rt = SuperWeaponRuntime::new();
    let act = vec![active("Soviet", "Nuke", 3)];
    tick_super_weapon_charges(&mut rt, &act);
    assert_eq!(rt.charge("Soviet", "Nuke").unwrap().charge_ticks, 1);
    assert!(!rt.charge("Soviet", "Nuke").unwrap().is_ready());
    tick_super_weapon_charges(&mut rt, &act);
    tick_super_weapon_charges(&mut rt, &act);
    assert!(rt.charge("Soviet", "Nuke").unwrap().is_ready());
    tick_super_weapon_charges(&mut rt, &act);
    assert_eq!(rt.charge("Soviet", "Nuke").unwrap().charge_ticks, 3);
}

#[test]
fn two_buildings_of_one_weapon_charge_twice_per_tick() {
    let mut rt = SuperWeaponRuntime::new();
    let act = vec![active("Soviet", "Nuke", 10), active("Soviet", "Nuke", 10)];
    tick_super_weapon_charges(&mut rt, &act);
    assert_eq!(rt.charge("Soviet", "Nuke").unwrap().charge_ticks, 2);
}

#[test]
fn changed_recharge_keeps_the_charge() {
    let mut rt = SuperWeaponRuntime::new();
    rt.set_charge_for_test("Soviet", "Nuke", 5, 100);
    tick_super_weapon_charges(&mut rt, &[active("Soviet", "Nuke", 50)]);
    let c = rt.charge("Soviet", "Nuke").unwrap();
    assert_eq!(c.required_ticks, 50);
    assert_eq!(c.charge_ticks, 6);
}

#[test]
fn reset_clears_only_that_slot() {
    let mut rt = SuperWeaponRuntime::new();
    rt.set_charge_for_test("Soviet", "Nuke", 100, 100);
    rt.set_charge_for_test("Soviet", "Iron", 40, 100);
    rt.reset_charge("Soviet", "Nuke");
    assert_eq!(rt.charge("Soviet", "Nuke").unwrap().charge_ticks, 0);
    assert_eq!(rt.charge("Soviet", "Iron").unwrap().charge_ticks, 40);
    rt.reset_charge("Allies", "Nuke");
    assert!(rt.charge("Allies", "Nuke").is_none());
}

#[test]
fn house_lookup_takes_first_key_in_byte_order() {
    let mut rt = SuperWeaponRuntime::new();
    rt.set_charge_for_test("soviet", "Nuke", 1, 100);
    rt.set_charge_for_test("SOVIET", "Nuke", 2, 100);
    let list = rt.charges_for_house("Soviet").unwrap();
    assert_eq!(list.len(), 1);
    assert_eq!(list[0].charge_ticks, 2);
    assert!(rt.charges_for_house("Allies").is_none());
}

#[test]
fn keys_compare_in_byte_order() {
    assert_eq!(compare_keys("ALLIES", "Allies"), KeyOrder::Before);
    assert_eq!(compare_keys("Soviet", "Soviet"), KeyOrder::Same);
    assert_eq!(compare_keys("Sov", "Soviet"), KeyOrder::Before);
    assert_eq!(compare_keys("b", "a"), KeyOrder::After);
}

#[test]
fn charge_percent_takes_best_filtered_slot() {
    let mut rt = SuperWeaponRuntime::new();
    rt.set_charge_for_test("Soviet", "Nuke", 45, 90);
    rt.set_charge_for_test("Soviet", "Iron", 30, 40);
    assert_eq!(own_super_weapon_charge_percent(&rt, "soviet", &WeaponFilter::AnyWeapon), 75);
    assert_eq!(own_super_weapon_charge_percent(&rt, "Soviet", &WeaponFilter::Weapon("Nuke".to_string())), 50);
    assert_eq!(own_super_weapon_charge_percent(&rt, "Soviet", &WeaponFilter::UnknownWeapon), 0);
    assert_eq!(own_super_weapon_charge_percent(&rt, "Allies", &WeaponFilter::AnyWeapon), 0);
}

#[test]
fn fire_checks_in_order() {
    let mut rt = SuperWeaponRuntime::new();
    rt.set_charge_for_test("Soviet", "Nuke", 10, 100);
    assert_eq!(check_super_weapon_fire(&rt, "Soviet", None, true, true), Err(FireSuperWeaponError::UnknownType));
    assert_eq!(check_super_weapon_fire(&rt, "Soviet", Some("Nuke"), false, true), Err(FireSuperWeaponError::NoProvider));
    assert_eq!(check_super_weapon_fire(&rt, "Soviet", Some("Nuke"), true, true), Err(FireSuperWeaponError::NotReady));
    rt.set_charge_for_test("Soviet", "Nuke", 100, 100);
    assert_eq!(
        check_super_weapon_fire(&rt, "Soviet", Some("Nuke"), true, false),
        Err(FireSuperWeaponError::UnsupportedKind)
    );
    assert_eq!(check_super_weapon_fire(&rt, "Soviet", Some("Nuke"), true, true), Ok(()));
}

#[test]
fn firing_clears_the_charge_unless_only_arming() {
    let mut rt = SuperWeaponRuntime::new();
    rt.set_charge_for_test("Soviet", "Chrono", 100, 100);
    assert_eq!(try_fire_super_weapon(&mut rt, "Soviet", Some("Chrono"), true, true, false), Ok(()));
    assert!(rt.charge("Soviet", "Chrono").unwrap().is_ready());
    assert_eq!(try_fire_super_weapon(&mut rt, "Soviet", Some("Chrono"), true, true, true), Ok(()));
    assert_eq!(rt.charge("Soviet", "Chrono").unwrap().charge_ticks, 0);
    assert_eq!(
        try_fire_super_weapon(&mut rt, "Soviet", Some("Chrono"), true, true, true),
        Err(FireSuperWeaponError::NotReady)
    );
}
