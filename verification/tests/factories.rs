//! Which factory takes a unit order, and the primary factory of a category.

use ra_engine::factories::{
    find_unit_factory_for_enqueue, maybe_assign_primary_factory, reassign_primary_after_factory_lost,
    set_primary_factory, FactoryRecord, QueueState,
};
use ra_engine::production::{advance_factory_slot, ProductionSlot, SlotAdvance};

fn factory(id: u64, owner: u32, busy: bool, unit_len: usize) -> FactoryRecord {
    FactoryRecord {
        id,
        alive: true,
        owner: Some(owner),
        structure: true,
        category: Some(2),
        queue: Some(QueueState { is_primary: false, busy, can_enqueue: true, unit_len }),
    }
}

fn primary(f: &FactoryRecord) -> bool {
    f.queue.map(|q| q.is_primary).unwrap_or(false)
}

#[test]
fn order_goes_to_primary_then_idle_then_shortest() {
    let mut fs = vec![factory(1, 1, true, 3), factory(2, 1, true, 1), factory(3, 1, false, 0), factory(4, 2, false, 0)];
    assert_eq!(find_unit_factory_for_enqueue(&fs, Some(1), Some(2)), Some(2));
    assert_eq!(find_unit_factory_for_enqueue(&fs, Some(1), None), None);
    assert_eq!(find_unit_factory_for_enqueue(&fs, None, Some(2)), None);
    assert_eq!(find_unit_factory_for_enqueue(&fs, Some(1), Some(7)), None);
    fs[2].queue = Some(QueueState { is_primary: false, busy: true, can_enqueue: true, unit_len: 1 });
    assert_eq!(find_unit_factory_for_enqueue(&fs, Some(1), Some(2)), Some(1));
    fs[0].queue = Some(QueueState { is_primary: true, busy: true, can_enqueue: true, unit_len: 3 });
    assert_eq!(find_unit_factory_for_enqueue(&fs, Some(1), Some(2)), Some(0));
    fs[0].queue = Some(QueueState { is_primary: true, busy: true, can_enqueue: false, unit_len: 5 });
    assert_eq!(find_unit_factory_for_enqueue(&fs, Some(1), Some(2)), Some(1));
    assert_eq!(find_unit_factory_for_enqueue(&fs, Some(2), Some(2)), Some(3));
}

#[test]
fn primary_is_unique_and_handed_on() {
    let mut fs = vec![factory(1, 1, false, 0), factory(2, 1, false, 0), factory(3, 1, false, 0), factory(4, 2, false, 0)];
    maybe_assign_primary_factory(&mut fs, 1);
    assert!(primary(&fs[1]));
    maybe_assign_primary_factory(&mut fs, 0);
    assert!(!primary(&fs[0]));
    maybe_assign_primary_factory(&mut fs, 3);
    assert!(primary(&fs[3]));

    assert!(set_primary_factory(&mut fs, 2));
    assert!(!primary(&fs[0]) && !primary(&fs[1]) && primary(&fs[2]) && primary(&fs[3]));

    reassign_primary_after_factory_lost(&mut fs, 2);
    assert!(primary(&fs[0]) && !primary(&fs[1]) && !primary(&fs[2]) && primary(&fs[3]));

    // A factory that was not primary hands nothing on.
    reassign_primary_after_factory_lost(&mut fs, 1);
    assert!(primary(&fs[0]) && !primary(&fs[1]));

    fs[1].alive = false;
    assert!(!set_primary_factory(&mut fs, 1));
    assert!(primary(&fs[0]));
}


fn slot(remaining_ticks: u32, paid: i32) -> ProductionSlot {
    ProductionSlot { type_id: 9, remaining_ticks, total_ticks: 4, paid }
}

#[test]
fn factory_track_pays_as_it_builds() {
    // 400 over 4 steps: 100 due on the first step.
    let r = advance_factory_slot(Some(slot(4, 0)), 400, 1000, false, 3);
    assert_eq!(r, SlotAdvance { slot: Some(slot(3, 100)), charged: 100, finished: None });
    // Short of funds: the track waits.
    let r = advance_factory_slot(Some(slot(4, 0)), 400, 99, false, 3);
    assert_eq!(r, SlotAdvance { slot: Some(slot(4, 0)), charged: 0, finished: None });
    // Low power: only even ticks advance.
    let r = advance_factory_slot(Some(slot(4, 0)), 400, 1000, true, 3);
    assert_eq!(r.charged, 0);
    let r = advance_factory_slot(Some(slot(4, 0)), 400, 1000, true, 4);
    assert_eq!(r.charged, 100);
    // Last step charges the rest and finishes.
    let r = advance_factory_slot(Some(slot(1, 300)), 400, 1000, false, 8);
    assert_eq!(r, SlotAdvance { slot: None, charged: 100, finished: Some(9) });
    assert_eq!(advance_factory_slot(None, 400, 1000, false, 8), SlotAdvance { slot: None, charged: 0, finished: None });
}
