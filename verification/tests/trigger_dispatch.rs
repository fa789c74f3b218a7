//! From a map action's kind and parameters to the run-time action.

use ra_engine::trigger_dispatch::{prepare_runtime_action, RuntimeActionKind as K};
use ra_engine::triggers::TriggerAction;

fn params(ps: &[&str]) -> Vec<String> {
    ps.iter().map(|p| p.to_string()).collect()
}

#[test]
fn win_goes_to_the_named_house_upper_cased() {
    let a = prepare_runtime_action(K::Win, &params(&["0", " americans "]), None, "Russia");
    assert!(matches!(a, TriggerAction::Win { ref house } if house == "AMERICANS"));
    let a = prepare_runtime_action(K::Win, &params(&["0", "12"]), None, " Russia ");
    assert!(matches!(a, TriggerAction::Win { ref house } if house == "RUSSIA"));
}

#[test]
fn lose_carries_the_named_house_or_nothing() {
    let a = prepare_runtime_action(K::Lose, &params(&["Soviet"]), None, "Russia");
    assert!(matches!(a, TriggerAction::Lose { ref reason } if reason == "Soviet"));
    let a = prepare_runtime_action(K::Lose, &params(&["0"]), None, "Russia");
    assert!(matches!(a, TriggerAction::Lose { ref reason } if reason.is_empty()));
}

#[test]
fn timers_take_their_ticks_and_target() {
    let a = prepare_runtime_action(K::TimerSet, &params(&["1", "2", "30"]), Some(4), "Russia");
    assert!(matches!(a, TriggerAction::TimerSet { target: Some(4), ticks: Some(30) }));
    let a = prepare_runtime_action(K::TimerExtend, &params(&["x"]), None, "Russia");
    assert!(matches!(a, TriggerAction::TimerExtend { target: None, ticks: None }));
    assert!(matches!(prepare_runtime_action(K::AllowWin, &[], None, "Russia"), TriggerAction::AllowWin));
    assert!(matches!(
        prepare_runtime_action(K::DisableTrigger, &[], Some(2), "Russia"),
        TriggerAction::DisableTrigger { target: Some(2) }
    ));
}
