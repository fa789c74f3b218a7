//! Orders on a selection and the peers' digests.

use ra_engine::commands::{EntityId, GameCommand};
use ra_engine::session_orders::{apply_remote_digest, selection_order, StateDigest, UnitOrder};

fn ids(v: &[u64]) -> Vec<EntityId> {
    v.iter().map(|&i| EntityId(i)).collect()
}

#[test]
fn orders_go_to_each_selected_entity_that_exists() {
    let world = ids(&[1, 2, 3, 9]);
    let cmds = selection_order(UnitOrder::Move { x: 4, y: 5 }, &ids(&[3, 7, 1]), &world, false);
    assert_eq!(
        cmds,
        vec![GameCommand::MoveTo { entity: EntityId(3), x: 4, y: 5 }, GameCommand::MoveTo { entity: EntityId(1), x: 4, y: 5 }]
    );
    let cmds = selection_order(UnitOrder::Attack { target: 9 }, &ids(&[9, 2]), &world, false);
    assert_eq!(cmds, vec![GameCommand::Attack { attacker: EntityId(2), target: EntityId(9) }]);
    assert!(selection_order(UnitOrder::Attack { target: 8 }, &ids(&[2]), &world, false).is_empty());
    assert_eq!(selection_order(UnitOrder::Guard, &ids(&[2]), &world, false), vec![GameCommand::Guard { entity: EntityId(2) }]);
}

#[test]
fn no_orders_once_the_match_is_decided() {
    let world = ids(&[1, 2]);
    assert!(selection_order(UnitOrder::Deploy, &ids(&[1, 2]), &world, true).is_empty());
}

#[test]
fn digests_sync_only_at_the_same_tick_with_the_same_hash() {
    let mut paused = false;
    let local = StateDigest { tick: 10, hash: 0xabc };
    assert!(apply_remote_digest(&mut paused, local, StateDigest { tick: 10, hash: 0xabc }));
    assert!(!paused);
    assert!(!apply_remote_digest(&mut paused, local, StateDigest { tick: 11, hash: 0xdef }));
    assert!(!paused);
    assert!(!apply_remote_digest(&mut paused, local, StateDigest { tick: 10, hash: 0xdef }));
    assert!(paused);
}
