//! Map trigger parameters and the trigger run time.

use ra_engine::entities::{EntityIdentity, EntityKind, EntityRecord};
use ra_engine::outcome::BattleOutcome;
use ra_engine::trigger_params::{
    action_house_param, action_timer_ticks_param, action_waypoint_index_param, event_house_param,
    event_numeric_param,
};
use ra_engine::triggers::{ScriptCrate, TriggerAction, TriggerRuntime, TriggerSeed};

fn params(xs: &[&str]) -> Vec<String> {
    xs.iter().map(|s| s.to_string()).collect()
}

fn seeds() -> Vec<TriggerSeed> {
    vec![
        TriggerSeed { id: 1, disabled: false, time_elapse: Some(params(&["30"])) },
        TriggerSeed { id: 2, disabled: true, time_elapse: None },
        TriggerSeed { id: 3, disabled: false, time_elapse: Some(params(&["x"])) },
        TriggerSeed { id: 4, disabled: false, time_elapse: Some(Vec::new()) },
    ]
}

fn crate_at(x: u16, y: u16) -> ScriptCrate {
    ScriptCrate { x, y, crate_type: "0".to_string() }
}

fn unit(alive: bool, owner: Option<&str>, kind: Option<EntityKind>, cell: (u16, u16)) -> EntityRecord {
    EntityRecord {
        alive,
        owner: owner.map(|s| s.to_string()),
        identity: kind.map(|k| EntityIdentity { kind: k, type_id: "E1".to_string(), tag: None }),
        cell: Some(cell),
    }
}

#[test]
fn waypoint_and_timer_params() {
    assert_eq!(action_waypoint_index_param(&params(&["1", " 7 "])), Some(7));
    assert_eq!(action_waypoint_index_param(&params(&["4"])), Some(4));
    assert_eq!(action_waypoint_index_param(&params(&["x", "y"])), None);
    assert_eq!(action_waypoint_index_param(&params(&[" ", "+3"])), Some(3));
    assert_eq!(action_waypoint_index_param(&params(&["5", "-2"])), Some(5));
    assert_eq!(action_waypoint_index_param(&params(&["4294967295"])), Some(u32::MAX));
    assert_eq!(action_waypoint_index_param(&params(&["4294967296"])), None);
    assert_eq!(action_timer_ticks_param(&params(&["1", "2", "30"])), Some(30));
    assert_eq!(action_timer_ticks_param(&params(&["1", "2", ""])), Some(2));
    assert_eq!(action_timer_ticks_param(&[]), None);
}

#[test]
fn event_number_is_last_numeric_param() {
    assert_eq!(event_numeric_param(&params(&["Russia", "300", ""])), Some(300));
    assert_eq!(event_numeric_param(&params(&["12", "abc"])), Some(12));
    assert_eq!(event_numeric_param(&params(&["\t42\n"])), Some(42));
    assert_eq!(event_numeric_param(&[]), None);
}

#[test]
fn house_params_skip_numbers() {
    assert_eq!(action_house_param(&params(&["0", "Greece", "1", " "])), Some("Greece".to_string()));
    assert_eq!(action_house_param(&params(&["0", "-1"])), None);
    assert_eq!(action_house_param(&params(&[" USSR "])), Some("USSR".to_string()));
    assert_eq!(action_house_param(&params(&["2147483648"])), Some("2147483648".to_string()));
    assert_eq!(event_house_param(&params(&["-1"])), None);
    assert_eq!(event_house_param(&params(&["x", "-1"])), Some("x".to_string()));
    assert_eq!(event_house_param(&params(&["\u{3000}Spain\t"])), Some("Spain".to_string()));
}

#[test]
fn house_params_tell_numbers_by_signed_range() {
    assert_eq!(action_house_param(&params(&["-2147483648"])), None);
    assert_eq!(action_house_param(&params(&["-2147483649"])), Some("-2147483649".to_string()));
    assert_eq!(action_house_param(&params(&["+12"])), None);
    assert_eq!(action_house_param(&params(&["-0"])), None);
    assert_eq!(action_house_param(&params(&["-"])), Some("-".to_string()));
    assert_eq!(action_house_param(&params(&["+"])), Some("+".to_string()));
    assert_eq!(action_house_param(&params(&["1x"])), Some("1x".to_string()));
    assert_eq!(action_waypoint_index_param(&params(&["+"])), None);
    assert_eq!(action_waypoint_index_param(&params(&["-0"])), None);
    assert_eq!(action_waypoint_index_param(&params(&["\u{663}"])), None);
}

#[test]
fn seeded_timers_and_ticks() {
    let mut rt = TriggerRuntime::from_prepared(&seeds(), 0);
    let timers: Vec<Option<u32>> = rt.states.iter().map(|s| s.timer_remaining).collect();
    assert_eq!(timers, vec![Some(30), None, Some(0), Some(0)]);
    assert!(rt.states[1].disabled);
    assert!(rt.begin_tick());
    assert_eq!(rt.states[0].timer_remaining, Some(29));
    rt.apply_action(1, 0, TriggerAction::TimerStop { target: None });
    rt.tick_timers();
    assert_eq!(rt.states[0].timer_remaining, Some(29));
    rt.apply_action(3, 0, TriggerAction::TimerSet { target: Some(1), ticks: Some(2) });
    assert!(!rt.states[0].timer_paused);
    rt.tick_timers();
    rt.tick_timers();
    rt.tick_timers();
    assert_eq!(rt.states[0].timer_remaining, Some(0));
    rt.apply_action(1, 0, TriggerAction::TimerExtend { target: None, ticks: Some(5) });
    assert_eq!(rt.states[0].timer_remaining, Some(5));
    rt.apply_action(1, 0, TriggerAction::TimerShorten { target: None, ticks: Some(9) });
    assert_eq!(rt.states[0].timer_remaining, Some(0));
}

#[test]
fn victory_waits_for_allow_win() {
    let mut rt = TriggerRuntime::from_prepared(&seeds(), 2);
    rt.apply_action(1, 0, TriggerAction::Win { house: "GREECE".to_string() });
    assert_eq!(rt.pending_outcome, None);
    rt.apply_action(1, 0, TriggerAction::AllowWin);
    assert_eq!(rt.pending_outcome, None);
    assert_eq!(rt.win_blockers, 1);
    rt.apply_action(1, 0, TriggerAction::AllowWin);
    assert_eq!(rt.pending_outcome, Some(BattleOutcome::Victory { owner: "GREECE".to_string() }));
    assert!(!rt.begin_tick());
}

#[test]
fn switches_input_lock_and_unsupported() {
    let mut rt = TriggerRuntime::from_prepared(&seeds(), 0);
    rt.apply_action(1, 42, TriggerAction::TimerExtend { target: None, ticks: None });
    rt.apply_action(1, 42, TriggerAction::TimerSet { target: None, ticks: None });
    rt.apply_action(1, 7, TriggerAction::DestroyTrigger { target: None });
    assert_eq!(rt.unsupported_actions, vec![42, 7]);
    rt.apply_action(1, 0, TriggerAction::DestroyTrigger { target: Some(1) });
    assert!(rt.states[0].disabled && rt.states[0].fired);
    assert!(!rt.force_fire(1));
    assert!(!rt.force_fire(99));
    assert!(rt.force_fire(3));
    assert!(rt.states[2].fired && !rt.states[2].disabled);
    rt.apply_action(3, 0, TriggerAction::EnableTrigger { target: Some(2) });
    assert!(!rt.states[1].disabled);
    rt.apply_action(2, 0, TriggerAction::DisableTrigger { target: None });
    assert!(rt.states[1].disabled);
    rt.mark_fired(4);
    assert!(rt.states[3].fired);
    rt.apply_action(1, 0, TriggerAction::LockInput);
    assert!(rt.script_input_locked);
    rt.apply_action(1, 0, TriggerAction::UnlockInput);
    assert!(!rt.script_input_locked);
    rt.apply_action(1, 0, TriggerAction::Lose { reason: "t".to_string() });
    assert_eq!(rt.pending_outcome, Some(BattleOutcome::Defeat { reason: "t".to_string() }));
}

#[test]
fn crates_go_to_first_unit_on_the_cell() {
    let mut rt = TriggerRuntime::from_prepared(&[], 0);
    rt.script_crates = vec![crate_at(1, 1), crate_at(2, 2), crate_at(3, 3)];
    let es = vec![
        unit(true, Some("Russia"), Some(EntityKind::Unit), (2, 2)),
        unit(true, Some("Greece"), Some(EntityKind::Structure), (1, 1)),
        unit(false, Some("Greece"), Some(EntityKind::Unit), (3, 3)),
        unit(true, None, Some(EntityKind::Unit), (3, 3)),
        unit(true, Some("Spain"), None, (3, 3)),
    ];
    let takers = rt.collect_script_crates(&es);
    assert_eq!(takers, vec!["Spain".to_string(), "Russia".to_string()]);
    assert_eq!(rt.script_crates, vec![crate_at(1, 1)]);
}
