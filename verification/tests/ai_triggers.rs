//! AI trigger run time: weighted pick, weight drift, cooldowns and switches.

use ra_engine::ai_triggers::{
    ai_trigger_enabled_for_difficulty, pick_weighted_trigger, set_ai_triggers_for_house, AiTriggerRuntime,
    TriggerCandidate, AI_TRIGGER_COOLDOWN_TICKS,
};

fn cand(priority: i32, weight: u32) -> TriggerCandidate {
    TriggerCandidate { priority, weight }
}

#[test]
fn pick_prefers_top_priority_then_weight() {
    assert_eq!(pick_weighted_trigger(&[], 5), None);
    assert_eq!(pick_weighted_trigger(&[cand(-3, 0)], 5), Some(0));
    let cands = [cand(0, 3), cand(1, 1), cand(1, 2)];
    assert_eq!(pick_weighted_trigger(&cands, 0), Some(1));
    assert_eq!(pick_weighted_trigger(&cands, 1), Some(2));
    assert_eq!(pick_weighted_trigger(&cands, 2), Some(2));
    assert_eq!(pick_weighted_trigger(&cands, 3), Some(1));
    assert_eq!(pick_weighted_trigger(&cands, 5), Some(2));
    assert_eq!(pick_weighted_trigger(&[cand(1, 0), cand(1, 0)], 9), Some(0));
    assert_eq!(pick_weighted_trigger(&[cand(2, 0), cand(1, 5), cand(2, 4)], 3), Some(2));
}

#[test]
fn difficulty_gates() {
    assert!(ai_trigger_enabled_for_difficulty("easy", true, false, false));
    assert!(ai_trigger_enabled_for_difficulty("HARD", false, false, true));
    assert!(ai_trigger_enabled_for_difficulty("Normal", false, true, false));
    assert!(ai_trigger_enabled_for_difficulty("Brutal", false, true, false));
    assert!(!ai_trigger_enabled_for_difficulty("Easy", false, true, true));
}

#[test]
fn weights_drift_halfway_within_bounds() {
    let mut rt = AiTriggerRuntime::from_map(true);
    assert!(rt.enabled);
    assert_eq!(rt.current_weight(7, 0), 1);
    assert_eq!(rt.current_weight(7, 5), 5);
    rt.nudge_weight_toward(7, 5, 1, 10, 10);
    assert_eq!(rt.current_weight(7, 5), 7);
    rt.nudge_weight_toward(7, 5, 1, 10, 1);
    assert_eq!(rt.current_weight(7, 5), 4);
    // Bounds collapse to [4, 4]: the target is held at 4.
    rt.nudge_weight_toward(8, 7, 4, 2, 100);
    assert_eq!(rt.current_weight(8, 7), 5);
    assert_eq!(rt.effective_weight(9, 0), 1);
}

#[test]
fn cooldown_keeps_trigger_quiet_for_ninety_ticks() {
    let mut rt = AiTriggerRuntime::from_map(true);
    assert!(rt.may_fire(3, false, false, true, false));
    rt.start_cooldown(3);
    assert_eq!(rt.cooldown_remaining(3), AI_TRIGGER_COOLDOWN_TICKS);
    assert_eq!(rt.cooldown_remaining(4), 0);
    rt.tick_cooldowns();
    rt.tick_cooldowns();
    assert_eq!(rt.cooldown_remaining(3), 88);
    assert!(!rt.may_fire(3, false, false, true, false));
    for _ in 0..88 {
        rt.tick_cooldowns();
    }
    assert_eq!(rt.cooldown_remaining(3), 0);
    rt.tick_cooldowns();
    assert_eq!(rt.cooldown_remaining(3), 0);
    assert!(rt.may_fire(3, false, false, true, false));
}

#[test]
fn skirmish_and_difficulty_hints() {
    let mut rt = AiTriggerRuntime::from_map(false);
    assert!(!rt.enabled);
    rt.sync_session_hints("Hard", true);
    assert!(!rt.may_fire(1, false, true, true, true));
    assert!(rt.may_fire(1, true, false, false, true));
    assert!(!rt.may_fire(1, true, true, true, false));
}

#[test]
fn house_switches() {
    let mut rt = AiTriggerRuntime::from_map(true);
    set_ai_triggers_for_house(&mut rt, None, None, false);
    assert!(!rt.enabled);
    set_ai_triggers_for_house(&mut rt, Some(""), Some(4), true);
    assert!(rt.enabled);
    assert!(!rt.is_house_disabled(4));
    set_ai_triggers_for_house(&mut rt, Some("Russia"), Some(2), false);
    set_ai_triggers_for_house(&mut rt, Some("Russia"), Some(2), false);
    set_ai_triggers_for_house(&mut rt, Some("Greece"), Some(3), false);
    assert!(rt.is_house_disabled(2));
    assert!(rt.is_house_disabled(3));
    set_ai_triggers_for_house(&mut rt, Some("Russia"), Some(2), true);
    assert!(!rt.is_house_disabled(2));
    assert!(rt.is_house_disabled(3));
    set_ai_triggers_for_house(&mut rt, Some("Nowhere"), None, true);
    assert!(rt.is_house_disabled(3));
}
