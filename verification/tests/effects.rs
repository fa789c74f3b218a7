//! Timed invulnerability and the Iron Curtain.

use ra_engine::effects::{
    apply_iron_curtain_at, grant_invulnerability, is_invulnerable, tick_timed_invulnerability, ShieldedEntity,
};
use ra_engine::entities::EntityKind;

fn entity(id: u64, kind: EntityKind, owner: u32, x: u16, y: u16) -> ShieldedEntity {
    ShieldedEntity { id, alive: true, kind: Some(kind), owner: Some(owner), cell: Some((x, y)), invulnerable: None }
}

#[test]
fn grant_raises_and_ticks_count_down() {
    let mut e = entity(1, EntityKind::Unit, 1, 0, 0);
    assert!(!is_invulnerable(&e));
    grant_invulnerability(&mut e, 0);
    assert_eq!(e.invulnerable, None);
    grant_invulnerability(&mut e, 3);
    assert_eq!(e.invulnerable, Some(3));
    grant_invulnerability(&mut e, 2);
    assert_eq!(e.invulnerable, Some(3));
    let mut es = vec![e, ShieldedEntity { kind: None, invulnerable: Some(1), ..entity(2, EntityKind::Unit, 1, 0, 0) }];
    tick_timed_invulnerability(&mut es);
    assert_eq!(es[0].invulnerable, Some(2));
    assert!(is_invulnerable(&es[0]));
    tick_timed_invulnerability(&mut es);
    assert_eq!(es[0].invulnerable, Some(1));
    tick_timed_invulnerability(&mut es);
    assert_eq!(es[0].invulnerable, None);
    assert!(!is_invulnerable(&es[0]));
    // No identity: left alone.
    assert_eq!(es[1].invulnerable, Some(1));
}

#[test]
fn curtain_covers_own_units_in_radius() {
    let mut es = vec![
        entity(1, EntityKind::Unit, 1, 5, 5),
        entity(2, EntityKind::Infantry, 1, 7, 3),
        entity(3, EntityKind::Unit, 1, 8, 5),
        entity(4, EntityKind::Unit, 2, 5, 5),
        entity(5, EntityKind::Structure, 1, 5, 5),
        ShieldedEntity { alive: false, ..entity(6, EntityKind::Unit, 1, 5, 5) },
    ];
    apply_iron_curtain_at(&mut es, Some(1), 5, 5, 2, false, 45);
    let shielded: Vec<bool> = es.iter().map(|e| e.invulnerable == Some(45)).collect();
    assert_eq!(shielded, vec![true, true, false, false, false, false]);
    apply_iron_curtain_at(&mut es, Some(1), 5, 5, 2, true, 30);
    assert_eq!(es[4].invulnerable, Some(30));
    assert_eq!(es[0].invulnerable, Some(45));
    apply_iron_curtain_at(&mut es, None, 5, 5, 2, false, 90);
    assert_eq!(es[0].invulnerable, Some(45));
}
