//! The phase order of a tick.

use ra_engine::{SystemPhase, SystemSchedule};

#[test]
fn standard_schedule_runs_all_phases_in_order() {
    let s = SystemSchedule::standard();
    assert_eq!(s.phases, SystemPhase::default_order());
    assert_eq!(s.phases.len(), 10);
    assert_eq!(s.phases[0], SystemPhase::ApplyCommands);
    assert_eq!(s.phases[9], SystemPhase::Rehash);
    assert!(s.contains(SystemPhase::Combat));
}

#[test]
fn without_removes_only_that_phase() {
    let s = SystemSchedule::standard().without(SystemPhase::Combat);
    assert!(!s.contains(SystemPhase::Combat));
    assert_eq!(s.phases.len(), 9);
    assert_eq!(s.phases[2], SystemPhase::HitFlash);
    assert_eq!(s.phases[3], SystemPhase::Turrets);
}

#[test]
fn custom_order_is_kept() {
    let s = SystemSchedule::from_phases(vec![SystemPhase::Rehash, SystemPhase::Movement, SystemPhase::Rehash]);
    assert!(s.contains(SystemPhase::Movement));
    assert!(!s.contains(SystemPhase::Powers));
    let s = s.without(SystemPhase::Rehash);
    assert_eq!(s.phases, vec![SystemPhase::Movement]);
    let d: SystemSchedule = Default::default();
    assert_eq!(d.phases, SystemPhase::default_order());
}
