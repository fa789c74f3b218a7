//! Behaviour of the entity/component world.

use ra_engine::{ComponentKind, EcsEntity, EcsWorld};

#[derive(Debug, Clone, Copy, PartialEq, Eq)]
enum Comp {
    Health(u32),
    Label(&'static str),
}

const HEALTH: ComponentKind = 0;
const LABEL: ComponentKind = 1;

fn health_values(world: &EcsWorld<Comp>) -> Vec<u32> {
    world
        .iter(HEALTH)
        .into_iter()
        .map(|(_, c)| match c {
            Comp::Health(h) => *h,
            Comp::Label(_) => panic!("label stored under the health kind"),
        })
        .collect()
}

#[test]
fn spawn_contains_and_len() {
    let mut world: EcsWorld<Comp> = EcsWorld::new();
    assert!(world.is_empty());
    let a = world.spawn();
    let b = world.spawn();
    assert!(world.contains(a));
    assert!(world.contains(b));
    assert_eq!(world.len(), 2);
}

#[test]
fn despawn_invalidates_handle_and_reuses_slot() {
    let mut world: EcsWorld<Comp> = EcsWorld::new();
    let a = world.spawn();
    assert!(world.despawn(a));
    assert!(!world.contains(a));
    assert_eq!(world.len(), 0);

    let b = world.spawn();
    assert_eq!(b.slot, a.slot);
    assert_ne!(b.generation, a.generation);
    assert!(world.contains(b));
    assert!(!world.contains(a));
}

#[test]
fn insert_get_remove_components() {
    let mut world: EcsWorld<Comp> = EcsWorld::new();
    let e = world.spawn();
    assert_eq!(world.insert(e, HEALTH, Comp::Health(10)), None);
    assert_eq!(world.get(e, HEALTH), Some(&Comp::Health(10)));
    assert_eq!(world.insert(e, HEALTH, Comp::Health(20)), Some(Comp::Health(10)));
    assert_eq!(world.remove(e, HEALTH), Some(Comp::Health(20)));
    assert_eq!(world.get(e, HEALTH), None);
}

#[test]
fn despawn_clears_components() {
    let mut world: EcsWorld<Comp> = EcsWorld::new();
    let e = world.spawn();
    world.insert(e, HEALTH, Comp::Health(3));
    world.insert(e, LABEL, Comp::Label("a"));
    assert!(world.despawn(e));
    assert_eq!(world.get(e, HEALTH), None);
    assert_eq!(world.get(e, LABEL), None);
}

#[test]
fn command_buffer_applies_in_order() {
    let mut world: EcsWorld<Comp> = EcsWorld::new();
    let mut commands = world.commands();
    commands.spawn_with(HEALTH, Comp::Health(1));
    commands.spawn_with(HEALTH, Comp::Health(2));
    world.apply(commands);
    assert_eq!(world.len(), 2);

    let mut values = health_values(&world);
    values.sort_unstable();
    assert_eq!(values, vec![1, 2]);
}

#[test]
fn command_buffer_despawn_and_insert() {
    let mut world: EcsWorld<Comp> = EcsWorld::new();
    let e = world.spawn();
    world.insert(e, HEALTH, Comp::Health(9));

    let mut commands = world.commands();
    commands.insert(e, HEALTH, Comp::Health(11));
    commands.remove(e, HEALTH);
    commands.insert(e, LABEL, Comp::Label("ok"));
    world.apply(commands);

    assert_eq!(world.get(e, HEALTH), None);
    assert_eq!(world.get(e, LABEL), Some(&Comp::Label("ok")));

    let mut commands = world.commands();
    commands.despawn(e);
    world.apply(commands);
    assert!(!world.contains(e));
}

#[test]
fn stale_handle_ops_are_ignored() {
    let mut world: EcsWorld<Comp> = EcsWorld::new();
    let e = world.spawn();
    world.despawn(e);
    assert_eq!(world.insert(e, HEALTH, Comp::Health(1)), None);
    assert_eq!(world.remove(e, HEALTH), None);
    assert_eq!(world.get(e, HEALTH), None);
}

#[test]
fn clone_world_preserves_components() {
    let mut world: EcsWorld<Comp> = EcsWorld::new();
    let e = world.spawn();
    world.insert(e, HEALTH, Comp::Health(7));
    let cloned = world.clone();
    assert!(cloned.contains(e));
    assert_eq!(cloned.get(e, HEALTH), Some(&Comp::Health(7)));
}

#[test]
fn entity_handle_is_copy() {
    let e = EcsEntity { slot: 1, generation: 2 };
    let f = e;
    assert_eq!(e, f);
}

#[test]
fn get_mut_writes_through() {
    let mut world: EcsWorld<Comp> = EcsWorld::new();
    let e = world.spawn();
    world.insert(e, HEALTH, Comp::Health(5));
    if let Some(c) = world.get_mut(e, HEALTH) {
        *c = Comp::Health(6);
    }
    assert_eq!(world.get(e, HEALTH), Some(&Comp::Health(6)));
    assert!(world.get_mut(e, LABEL).is_none());
}

#[test]
fn removing_one_slot_keeps_the_moved_entry() {
    let mut world: EcsWorld<Comp> = EcsWorld::new();
    let a = world.spawn();
    let b = world.spawn();
    let c = world.spawn();
    world.insert(a, HEALTH, Comp::Health(1));
    world.insert(b, HEALTH, Comp::Health(2));
    world.insert(c, HEALTH, Comp::Health(3));
    assert_eq!(world.remove(a, HEALTH), Some(Comp::Health(1)));
    assert_eq!(world.get(b, HEALTH), Some(&Comp::Health(2)));
    assert_eq!(world.get(c, HEALTH), Some(&Comp::Health(3)));
    let mut values = health_values(&world);
    values.sort_unstable();
    assert_eq!(values, vec![2, 3]);
}

#[test]
fn despawned_slot_is_reused_last_in_first_out() {
    let mut world: EcsWorld<Comp> = EcsWorld::new();
    let a = world.spawn();
    let b = world.spawn();
    assert!(world.despawn(a));
    assert!(world.despawn(b));
    let c = world.spawn();
    assert_eq!(c.slot, b.slot);
    assert_eq!(c.generation, 2);
    let d = world.spawn();
    assert_eq!(d.slot, a.slot);
    let e = world.spawn();
    assert_eq!(e, EcsEntity { slot: 2, generation: 1 });
    assert_eq!(world.len(), 3);
    assert!(!world.despawn(a));
}

#[test]
fn copy_world_preserves_components() {
    let mut world: EcsWorld<Comp> = EcsWorld::new();
    let e = world.spawn();
    let gone = world.spawn();
    world.insert(e, HEALTH, Comp::Health(7));
    world.despawn(gone);
    let copied = world.copy();
    assert!(copied.contains(e));
    assert!(!copied.contains(gone));
    assert_eq!(copied.len(), 1);
    assert_eq!(copied.get(e, HEALTH), Some(&Comp::Health(7)));
    let mut copied = copied;
    assert_eq!(copied.spawn(), world.spawn());
}
