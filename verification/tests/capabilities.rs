//! Build and production availability follow the living buildings.

use ra_engine::{evaluate_build_availability, evaluate_produce_availability, CommandRejectReason};

#[test]
fn losing_construction_yard_disables_all_build_tech() {
    let (ok, reason) = evaluate_build_availability(true, true, 5000, 800, false, false);
    assert!(ok);
    assert_eq!(reason, None);

    let (ok, reason) = evaluate_build_availability(false, true, 5000, 800, false, false);
    assert!(!ok);
    assert_eq!(reason, Some(CommandRejectReason::MissingPrerequisite));
}

#[test]
fn losing_power_plant_blocks_power_gated_buildings_only() {
    let (ok, _) = evaluate_build_availability(true, false, 5000, 800, false, false);
    assert!(ok);
    let (ok, reason) = evaluate_build_availability(true, false, 5000, 800, true, false);
    assert!(!ok);
    assert_eq!(reason, Some(CommandRejectReason::InsufficientPower));
}

#[test]
fn losing_factory_disables_produce_tech() {
    let (ok, reason) = evaluate_produce_availability(false, true, 500, 200, false);
    assert!(!ok);
    assert_eq!(reason, Some(CommandRejectReason::MissingPrerequisite));

    let (ok, reason) = evaluate_produce_availability(true, false, 500, 200, false);
    assert!(!ok);
    assert_eq!(reason, Some(CommandRejectReason::QueueFull));
}

#[test]
fn build_limit_and_funds_are_checked_in_order() {
    assert_eq!(
        evaluate_build_availability(true, true, 5000, 800, false, true),
        (false, Some(CommandRejectReason::QueueFull))
    );
    assert_eq!(
        evaluate_build_availability(true, true, 700, 800, false, false),
        (false, Some(CommandRejectReason::InsufficientFunds))
    );
    assert_eq!(evaluate_build_availability(true, true, 800, 800, false, false), (true, None));
    assert_eq!(
        evaluate_build_availability(false, false, 0, 800, true, true),
        (false, Some(CommandRejectReason::MissingPrerequisite))
    );
}

#[test]
fn produce_limit_and_funds_are_checked_in_order() {
    assert_eq!(
        evaluate_produce_availability(true, true, 500, 200, true),
        (false, Some(CommandRejectReason::QueueFull))
    );
    assert_eq!(
        evaluate_produce_availability(true, true, 100, 200, false),
        (false, Some(CommandRejectReason::InsufficientFunds))
    );
    assert_eq!(evaluate_produce_availability(true, true, 200, 200, false), (true, None));
}
