//! Match end: savour window, locked result, pause, survivor and score.

use ra_engine::entities::{EntityIdentity, EntityKind, EntityRecord};
use ra_engine::outcome::{
    house_keeps_alive, is_base_unit, player_score, sole_victor, BattleOutcome, MatchControl, SessionBootKind,
    SessionScreen, SideStanding,
};

fn victory(owner: &str) -> BattleOutcome {
    BattleOutcome::Victory { owner: owner.to_string() }
}

fn side(ambient: bool, keeps_alive: bool) -> SideStanding {
    SideStanding { ambient, keeps_alive }
}

#[test]
fn score_formula_floors_at_zero() {
    assert_eq!(player_score(1000, 3, 2), 30);
    assert_eq!(player_score(12345, 1, 0), 133);
    assert_eq!(player_score(0, 0, 5), 0);
    assert_eq!(player_score(-250, 0, 0), 0);
    // Spending is divided toward zero.
    assert_eq!(player_score(-150, 1, 0), 9);
    assert_eq!(player_score(-1000, 2, 0), 10);
}

#[test]
fn sole_victor_needs_two_contenders_and_one_survivor() {
    assert_eq!(sole_victor(&[side(false, true), side(false, false)]), Some(0));
    assert_eq!(sole_victor(&[side(true, true), side(false, true), side(false, false)]), Some(1));
    assert_eq!(sole_victor(&[side(false, true)]), None);
    assert_eq!(sole_victor(&[side(true, true), side(false, true)]), None);
    assert_eq!(sole_victor(&[side(false, true), side(false, true)]), None);
    assert_eq!(sole_victor(&[side(false, false), side(false, false)]), None);
    assert_eq!(sole_victor(&[]), None);
}

#[test]
fn savour_window_then_locked_result() {
    let mut m = MatchControl::new();
    assert_eq!(m.screen(), SessionScreen::InBattle);
    m.begin_savour(victory("Russia"), 100, 50, SessionBootKind::Skirmish);
    assert_eq!(m.outcome, None);
    assert_eq!(m.pending_savour_outcome, Some(victory("Russia")));
    assert_eq!(m.savour_until_tick, Some(150));
    assert_eq!(m.pause_reason.as_deref(), Some("胜负收束中"));
    assert!(!m.paused);
    // A second result while one waits is ignored.
    m.apply_scripted_outcome(victory("Greece"), 101, 50, SessionBootKind::Skirmish);
    assert_eq!(m.pending_savour_outcome, Some(victory("Russia")));
    assert!(m.try_commit_savour(149, SessionBootKind::Skirmish));
    assert_eq!(m.outcome, None);
    assert!(m.try_commit_savour(150, SessionBootKind::Skirmish));
    assert_eq!(m.outcome, Some(victory("Russia")));
    assert!(m.paused);
    assert_eq!(m.pause_reason.as_deref(), Some("胜负已定 · Russia"));
    assert_eq!(m.pending_savour_outcome, None);
    assert_eq!(m.savour_until_tick, None);
    assert_eq!(m.screen(), SessionScreen::Results);
    assert!(!m.try_commit_savour(151, SessionBootKind::Skirmish));
}

#[test]
fn decided_match_stays_paused() {
    let mut m = MatchControl::new();
    m.begin_savour(BattleOutcome::Defeat { reason: String::new() }, 5, 0, SessionBootKind::Campaign);
    assert_eq!(m.outcome, Some(BattleOutcome::Defeat { reason: String::new() }));
    assert_eq!(m.pause_reason.as_deref(), Some("战役失败"));
    m.resume();
    m.toggle_pause();
    m.pause("x".to_string());
    m.apply_scripted_outcome(victory("Russia"), 6, 0, SessionBootKind::Campaign);
    assert!(m.paused);
    assert_eq!(m.pause_reason.as_deref(), Some("战役失败"));
    assert_eq!(m.outcome, Some(BattleOutcome::Defeat { reason: String::new() }));
}

#[test]
fn result_texts() {
    let mut m = MatchControl::new();
    m.begin_savour(victory("USSR"), 0, 0, SessionBootKind::Campaign);
    assert_eq!(m.pause_reason.as_deref(), Some("战役胜利 · USSR"));
    let mut m = MatchControl::new();
    m.begin_savour(BattleOutcome::Defeat { reason: "t1".to_string() }, 0, 0, SessionBootKind::Campaign);
    assert_eq!(m.pause_reason.as_deref(), Some("战役失败 · t1"));
    let mut m = MatchControl::new();
    m.begin_savour(BattleOutcome::Defeat { reason: String::new() }, 0, 0, SessionBootKind::Skirmish);
    assert_eq!(m.pause_reason.as_deref(), Some("胜负已定"));
    let mut m = MatchControl::new();
    m.begin_savour(BattleOutcome::Defeat { reason: "x".to_string() }, 0, 0, SessionBootKind::Skirmish);
    assert_eq!(m.pause_reason.as_deref(), Some("胜负已定 · x"));
}

#[test]
fn manual_pause_toggles() {
    let mut m = MatchControl::new();
    m.toggle_pause();
    assert!(m.paused);
    assert_eq!(m.pause_reason.as_deref(), Some("已暂停"));
    m.toggle_pause();
    assert!(!m.paused);
    assert_eq!(m.pause_reason, None);
    m.pause("sync".to_string());
    assert_eq!(m.pause_reason.as_deref(), Some("sync"));
    m.resume();
    assert!(!m.paused);
}

#[test]
fn refresh_picks_trigger_then_survivor() {
    let mut m = MatchControl::new();
    let mut trigger = Some(BattleOutcome::Defeat { reason: "lose".to_string() });
    m.refresh_outcome(10, 30, SessionBootKind::Skirmish, &mut trigger, Some("Russia".to_string()), Some("Russia"));
    assert_eq!(trigger, None);
    assert_eq!(m.pending_savour_outcome, Some(BattleOutcome::Defeat { reason: "lose".to_string() }));
    assert_eq!(m.savour_until_tick, Some(40));

    let mut m = MatchControl::new();
    let mut none = None;
    m.refresh_outcome(10, 0, SessionBootKind::Skirmish, &mut none, Some("Russia".to_string()), Some("russia"));
    assert_eq!(m.outcome, Some(victory("Russia")));

    let mut m = MatchControl::new();
    m.refresh_outcome(10, 0, SessionBootKind::Skirmish, &mut none, Some("Russia".to_string()), Some("Greece"));
    assert_eq!(m.outcome, Some(BattleOutcome::Defeat { reason: String::new() }));

    let mut m = MatchControl::new();
    m.refresh_outcome(10, 0, SessionBootKind::Campaign, &mut none, Some("Russia".to_string()), Some("Russia"));
    assert_eq!(m.outcome, None);
    m.refresh_outcome(10, 0, SessionBootKind::Skirmish, &mut none, None, Some("Russia"));
    assert_eq!(m.outcome, None);
}

fn standing(alive: bool, owner: &str, kind: EntityKind, type_id: &str) -> EntityRecord {
    EntityRecord {
        alive,
        owner: Some(owner.to_string()),
        identity: Some(EntityIdentity { kind, type_id: type_id.to_string(), tag: None }),
        cell: None,
    }
}

#[test]
fn what_keeps_a_house_in_the_game() {
    let none: Vec<String> = Vec::new();
    let mcv = vec!["MCV".to_string()];
    let es = vec![
        standing(true, "USSR", EntityKind::Infantry, "E1"),
        standing(false, "Greece", EntityKind::Structure, "FACT"),
        standing(true, "Greece", EntityKind::Unit, "MCV"),
    ];
    assert!(house_keeps_alive(&es, "ussr", false, &none, &mcv));
    assert!(!house_keeps_alive(&es, "USSR", true, &none, &mcv));
    assert!(house_keeps_alive(&es, "Greece", true, &none, &mcv));
    assert!(!house_keeps_alive(&es, "Greece", true, &vec!["HARV".to_string()], &mcv));
    assert!(is_base_unit(&mcv, &none, "MCV"));
    assert!(!is_base_unit(&mcv, &none, "mcv"));
    assert!(is_base_unit(&none, &mcv, "MCV"));
    assert!(!is_base_unit(&none, &none, "MCV"));
}
