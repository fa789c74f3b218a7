//! Laws of the entity/component store, stated over the abstract state
//! (`WorldView`) that every `EcsWorld` operation is specified against.

use vstd::prelude::*;

use super::commands::EcsOp;
use super::entity::{ComponentKind, EcsEntity, EntityMeta};
use super::world::{count_alive, next_generation, WorldView};

verus! {

/// A read after a write of a live entity's component gives the written value.
pub proof fn law_get_after_insert<C>(v: WorldView<C>, e: EcsEntity, kind: ComponentKind, c: C)
    requires
        v.is_live(e),
    ensures
        v.inserted(e, kind, c).component(e, kind) == Some(c),
{
}

/// A write touches only its own (entity, kind) pair.
pub proof fn law_insert_is_local<C>(
    v: WorldView<C>,
    e: EcsEntity,
    kind: ComponentKind,
    c: C,
    other: EcsEntity,
    other_kind: ComponentKind,
)
    requires
        other != e || other_kind != kind,
    ensures
        v.inserted(e, kind, c).component(other, other_kind) == v.component(other, other_kind),
{
}

/// Removing right after inserting leaves the other components as they were
/// and no value for the pair; on a pair that had no value it is a round trip.
pub proof fn law_remove_undoes_insert<C>(v: WorldView<C>, e: EcsEntity, kind: ComponentKind, c: C)
    requires
        v.is_live(e),
    ensures
        v.inserted(e, kind, c).removed(e, kind).components == v.components.remove((kind, e)),
        v.component(e, kind) is None ==> v.inserted(e, kind, c).removed(e, kind) == v,
{
    assert(v.inserted(e, kind, c).removed(e, kind).components =~= v.components.remove((kind, e)));
    if v.component(e, kind) is None {
        assert(v.components.remove((kind, e)) =~= v.components);
    }
}

/// Operations through a stale handle change nothing.
pub proof fn law_stale_handle_ignored<C>(v: WorldView<C>, e: EcsEntity, kind: ComponentKind, c: C)
    requires
        !v.is_live(e),
    ensures
        v.inserted(e, kind, c) == v,
        v.removed(e, kind) == v,
        v.despawned(e) == v,
{
}

/// A stale handle reads no component.
pub proof fn law_stale_handle_reads_nothing<C>(v: WorldView<C>, e: EcsEntity, kind: ComponentKind)
    requires
        v.valid(),
        !v.is_live(e),
    ensures
        v.component(e, kind) is None,
{
}

/// Despawning kills the handle at once, drops every component of the entity,
/// and leaves all other entities and their components as they were.
pub proof fn law_despawn_invalidates<C>(v: WorldView<C>, e: EcsEntity, kind: ComponentKind)
    requires
        v.is_live(e),
    ensures
        !v.despawned(e).is_live(e),
        v.despawned(e).component(e, kind) is None,
        forall|x: EcsEntity| x != e ==> (v.despawned(e).is_live(x) == v.is_live(x)),
        forall|x: EcsEntity, k: ComponentKind|
            x != e ==> v.despawned(e).component(x, k) == #[trigger] v.component(x, k),
{
    assert(next_generation(e.generation) != e.generation);
}

/// A spawn returns a handle that was not live and now is; every handle
/// that was live stays live, and no component changes.
pub proof fn law_spawn_is_fresh<C>(v: WorldView<C>)
    requires
        v.valid(),
        v.can_spawn(),
    ensures
        !v.is_live(v.next_spawn()),
        v.spawned().is_live(v.next_spawn()),
        forall|x: EcsEntity| v.is_live(x) ==> #[trigger] v.spawned().is_live(x),
        v.spawned().components == v.components,
        v.spawned().valid(),
{
    let e = v.next_spawn();
    if v.free.len() > 0 {
        assert(v.free[v.free.len() - 1] == e.slot);
        let w = v.spawned();
        assert forall|i: int|
            #![trigger w.free[i]]
            0 <= i < w.free.len() implies (w.free[i] as int) < w.slots.len() && !w.slots[w.free[i] as int].alive by {
            assert(w.free[i] == v.free[i]);
            assert(v.free[i] != v.free[v.free.len() - 1]);
        }
        assert forall|p: (ComponentKind, EcsEntity)|
            #[trigger] w.components.contains_key(p) implies w.is_live(p.1) by {
            assert(v.is_live(p.1));
            assert(p.1.slot != e.slot);
        }
    }
}

/// A despawned slot is the next one reused, under a new generation, so the
/// old handle never matches the new occupant.
pub proof fn law_respawn_reuses_slot_with_new_generation<C>(v: WorldView<C>, e: EcsEntity)
    requires
        v.is_live(e),
    ensures
        v.despawned(e).can_spawn(),
        v.despawned(e).next_spawn().slot == e.slot,
        v.despawned(e).next_spawn().generation != e.generation,
        !v.despawned(e).spawned().is_live(e),
{
    let w = v.despawned(e);
    assert(w.free.last() == e.slot);
}

/// The live count goes up by one per spawn and down by one per despawn of a
/// live entity.
pub proof fn law_live_count<C>(v: WorldView<C>, e: EcsEntity)
    requires
        v.valid(),
        v.can_spawn(),
    ensures
        v.spawned().live_count() == v.live_count() + 1,
        v.is_live(e) ==> v.despawned(e).live_count() + 1 == v.live_count(),
{
    let n = v.next_spawn();
    if v.free.len() > 0 {
        assert(v.free[v.free.len() - 1] == n.slot);
        lemma_update_count(v.slots, n.slot as int, EntityMeta { generation: n.generation, alive: true });
    } else {
        lemma_push_count(v.slots, EntityMeta { generation: 1, alive: true });
    }
    if v.is_live(e) {
        lemma_update_count(
            v.slots,
            e.slot as int,
            EntityMeta { generation: next_generation(e.generation), alive: false },
        );
    }
}

proof fn lemma_push_count(slots: Seq<EntityMeta>, m: EntityMeta)
    ensures
        count_alive(slots.push(m)) == count_alive(slots) + if m.alive {
            1nat
        } else {
            0nat
        },
{
    assert(slots.push(m).drop_last() =~= slots);
}

proof fn lemma_update_count(slots: Seq<EntityMeta>, i: int, m: EntityMeta)
    requires
        0 <= i < slots.len(),
    ensures
        count_alive(slots.update(i, m)) + (if slots[i].alive {
            1int
        } else {
            0int
        }) == count_alive(slots) + (if m.alive {
            1int
        } else {
            0int
        }),
    decreases slots.len(),
{
    if i == slots.len() - 1 {
        assert(slots.update(i, m).drop_last() =~= slots.drop_last());
    } else {
        lemma_update_count(slots.drop_last(), i, m);
        assert(slots.update(i, m).drop_last() =~= slots.drop_last().update(i, m));
    }
}

/// Applying two buffers one after the other is applying their concatenation.
pub proof fn law_run_concat<C>(v: WorldView<C>, first: Seq<EcsOp<C>>, second: Seq<EcsOp<C>>)
    ensures
        v.run(first + second) == v.run(first).run(second),
        v.can_run(first + second) == (v.can_run(first) && v.run(first).can_run(second)),
    decreases first.len(),
{
    if first.len() == 0 {
        assert(first + second =~= second);
    } else {
        assert((first + second).drop_first() =~= first.drop_first() + second);
        assert((first + second)[0] == first[0]);
        law_run_concat(v.step(first[0]), first.drop_first(), second);
    }
}

/// A buffer of one change does exactly that change.
pub proof fn law_run_single<C>(v: WorldView<C>, op: EcsOp<C>)
    ensures
        v.run(seq![op]) == v.step(op),
        v.can_run(seq![op]) == v.can_step(op),
{
    assert(seq![op].drop_first() =~= Seq::<EcsOp<C>>::empty());
    assert(seq![op][0] == op);
    assert(v.step(op).run(Seq::<EcsOp<C>>::empty()) == v.step(op));
    assert(v.step(op).can_run(Seq::<EcsOp<C>>::empty()));
}

/// Whether the change spawns an entity.
pub open spec fn is_spawn<C>(op: EcsOp<C>) -> bool {
    op is Spawn || op is SpawnWith
}

/// Change in the number of live entities that `op` makes on `v`: one more
/// for a spawn, one fewer for a despawn of a live entity (a despawn that
/// reports `true`), none otherwise.
pub open spec fn live_delta<C>(v: WorldView<C>, op: EcsOp<C>) -> int {
    match op {
        EcsOp::Spawn => 1,
        EcsOp::SpawnWith(_, _) => 1,
        EcsOp::Despawn(e) => if v.is_live(e) {
            -1
        } else {
            0
        },
        _ => 0,
    }
}

/// Spawns minus successful despawns over `ops` run in order from `v`.
pub open spec fn net_spawns<C>(v: WorldView<C>, ops: Seq<EcsOp<C>>) -> int
    decreases ops.len(),
{
    if ops.len() == 0 {
        0
    } else {
        live_delta(v, ops[0]) + net_spawns(v.step(ops[0]), ops.drop_first())
    }
}

/// Every change keeps the shape of a valid world.
pub proof fn lemma_step_valid<C>(v: WorldView<C>, op: EcsOp<C>)
    requires
        v.valid(),
        v.can_step(op),
    ensures
        v.step(op).valid(),
{
    match op {
        EcsOp::Spawn => {
            law_spawn_is_fresh(v);
        },
        EcsOp::SpawnWith(kind, c) => {
            law_spawn_is_fresh(v);
            let w = v.spawned();
            let e = v.next_spawn();
            let x = w.inserted(e, kind, c);
            assert forall|p: (ComponentKind, EcsEntity)| #[trigger] x.components.contains_key(p) implies x.is_live(
                p.1,
            ) by {
                if p != (kind, e) {
                    assert(w.components.contains_key(p));
                }
            }
        },
        EcsOp::Despawn(e) => {
            if v.is_live(e) {
                let w = v.despawned(e);
                assert forall|i: int| 0 <= i < v.free.len() implies v.free[i] != e.slot by {
                    assert(!v.slots[v.free[i] as int].alive);
                }
                assert forall|i: int|
                    #![trigger w.free[i]]
                    0 <= i < w.free.len() implies (w.free[i] as int) < w.slots.len() && !w.slots[w.free[i] as int].alive by {
                    if i < v.free.len() {
                        assert(w.free[i] == v.free[i]);
                    }
                }
                assert(w.free.no_duplicates()) by {
                    assert forall|i: int, j: int| 0 <= i < w.free.len() && 0 <= j < w.free.len() && i != j implies w.free[i]
                        != w.free[j] by {
                        if i < v.free.len() && j < v.free.len() {
                            assert(w.free[i] == v.free[i] && w.free[j] == v.free[j]);
                        } else if i < v.free.len() {
                            assert(w.free[i] == v.free[i]);
                        } else if j < v.free.len() {
                            assert(w.free[j] == v.free[j]);
                        }
                    }
                }
                assert forall|p: (ComponentKind, EcsEntity)| #[trigger] w.components.contains_key(p) implies w.is_live(
                    p.1,
                ) by {
                    assert(v.is_live(p.1));
                    assert(p.1.slot != e.slot);
                }
            }
        },
        EcsOp::Insert(e, kind, c) => {
            let w = v.inserted(e, kind, c);
            assert forall|p: (ComponentKind, EcsEntity)| #[trigger] w.components.contains_key(p) implies w.is_live(
                p.1,
            ) by {
                if p != (kind, e) {
                    assert(v.components.contains_key(p));
                }
            }
        },
        EcsOp::Remove(e, kind) => {
            let w = v.removed(e, kind);
            assert forall|p: (ComponentKind, EcsEntity)| #[trigger] w.components.contains_key(p) implies w.is_live(
                p.1,
            ) by {
                assert(v.components.contains_key(p));
            }
        },
    }
}

/// The number of live entities after a run of changes (direct calls, or a
/// command buffer applied) is the number before plus the spawns minus the
/// despawns that found their entity live.
pub proof fn law_live_count_history<C>(v: WorldView<C>, ops: Seq<EcsOp<C>>)
    requires
        v.valid(),
        v.can_run(ops),
    ensures
        v.run(ops).live_count() == v.live_count() + net_spawns(v, ops),
        v.run(ops).valid(),
    decreases ops.len(),
{
    if ops.len() > 0 {
        let op = ops[0];
        lemma_step_valid(v, op);
        law_live_count_history(v.step(op), ops.drop_first());
        match op {
            EcsOp::Spawn => {
                law_live_count(v, v.next_spawn());
            },
            EcsOp::SpawnWith(kind, c) => {
                law_live_count(v, v.next_spawn());
                assert(v.step(op).slots == v.spawned().slots);
            },
            EcsOp::Despawn(e) => {
                if v.is_live(e) {
                    law_live_count_despawn(v, e);
                }
            },
            _ => {},
        }
    }
}

/// A despawn of a live entity lowers the live count by one.
proof fn law_live_count_despawn<C>(v: WorldView<C>, e: EcsEntity)
    requires
        v.is_live(e),
    ensures
        v.despawned(e).live_count() + 1 == v.live_count(),
{
    lemma_update_count(v.slots, e.slot as int, EntityMeta { generation: next_generation(e.generation), alive: false });
}

/// Some change of `ops` at index `from` or later, before `to`, despawns `h`.
pub open spec fn despawned_between<C>(ops: Seq<EcsOp<C>>, from: int, to: int, h: EcsEntity) -> bool {
    exists|j: int| from <= j < to && #[trigger] ops[j] == EcsOp::<C>::Despawn(h)
}

/// The change at index `i` of `ops`, run from `v`, is a spawn that returned
/// `h`, and none of the changes after it and before `to` despawns `h`.
pub open spec fn kept_since<C>(v: WorldView<C>, ops: Seq<EcsOp<C>>, i: int, to: int, h: EcsEntity) -> bool {
    &&& 0 <= i < ops.len()
    &&& is_spawn(ops[i])
    &&& v.run(ops.take(i)).next_spawn() == h
    &&& !despawned_between(ops, i + 1, to, h)
}

/// `h` is live after the first `n` changes of `ops`, by their history: it
/// was live before and none of them despawns it, or one of them spawned it
/// and none after that despawns it.
pub open spec fn live_by_history<C>(v: WorldView<C>, ops: Seq<EcsOp<C>>, n: int, h: EcsEntity) -> bool {
    ||| v.is_live(h) && !despawned_between(ops, 0, n, h)
    ||| exists|i: int| 0 <= i < n && #[trigger] kept_since(v, ops, i, n, h)
}

proof fn lemma_live_by_history<C>(v: WorldView<C>, ops: Seq<EcsOp<C>>, n: int, h: EcsEntity)
    requires
        v.valid(),
        v.can_run(ops),
        0 <= n <= ops.len(),
    ensures
        v.run(ops.take(n)).is_live(h) <==> live_by_history(v, ops, n, h),
    decreases n,
{
    if n == 0 {
        assert(ops.take(0) =~= Seq::<EcsOp<C>>::empty());
        assert(!despawned_between(ops, 0, 0, h));
    } else {
        let m = n - 1;
        lemma_live_by_history(v, ops, m, h);
        let op = ops[m];
        let w = v.run(ops.take(m));
        assert(ops.take(n) =~= ops.take(m) + seq![op]);
        law_run_concat(v, ops.take(m), seq![op]);
        law_run_single(w, op);
        let w2 = w.step(op);
        assert(v.run(ops.take(n)) == w2);
        assert(ops =~= ops.take(m) + ops.skip(m));
        law_run_concat(v, ops.take(m), ops.skip(m));
        law_live_count_history(v, ops.take(m));
        assert(ops.skip(m)[0] == op);
        assert(w.can_step(op));
        // What one change does to `h`'s liveness.
        if is_spawn(op) {
            let e = w.next_spawn();
            assert(w2.slots == w.spawned().slots);
            assert(w2.is_live(h) <==> (w.is_live(h) || h == e)) by {
                law_spawn_is_fresh(w);
                if w2.is_live(h) && h != e {
                    if w.free.len() > 0 {
                        assert(w.free[w.free.len() - 1] == e.slot);
                        if h.slot == e.slot {
                            assert(h.generation == e.generation);
                        }
                        assert(w.slots[h.slot as int] == w2.slots[h.slot as int]);
                    } else {
                        if h.slot as int == w.slots.len() {
                            assert(h.generation == 1);
                        }
                        assert(w.slots[h.slot as int] == w2.slots[h.slot as int]);
                    }
                }
            }
            assert(!(op == EcsOp::<C>::Despawn(h)));
        } else if op == EcsOp::<C>::Despawn(h) {
            assert(!w2.is_live(h));
        } else {
            assert(w2.is_live(h) == w.is_live(h)) by {
                if let EcsOp::Despawn(e) = op {
                    if w.is_live(e) && w.is_live(h) {
                        assert(h.slot != e.slot);
                    }
                }
            }
        }
        // How the history reads after one more change.
        assert forall|a: int| 0 <= a <= m implies (despawned_between(ops, a, n, h) <==> (despawned_between(ops, a, m, h)
            || op == EcsOp::<C>::Despawn(h))) by {
            if despawned_between(ops, a, n, h) {
                let j = choose|j: int| a <= j < n && #[trigger] ops[j] == EcsOp::<C>::Despawn(h);
                if j < m {
                    assert(a <= j < m && ops[j] == EcsOp::<C>::Despawn(h));
                }
            }
            if despawned_between(ops, a, m, h) {
                let j = choose|j: int| a <= j < m && #[trigger] ops[j] == EcsOp::<C>::Despawn(h);
                assert(a <= j < n && ops[j] == EcsOp::<C>::Despawn(h));
            }
            if op == EcsOp::<C>::Despawn(h) {
                assert(a <= m < n && ops[m] == EcsOp::<C>::Despawn(h));
            }
        }
        assert(!despawned_between(ops, n, n, h));
        if v.run(ops.take(n)).is_live(h) {
            if is_spawn(op) && h == w.next_spawn() {
                assert(kept_since(v, ops, m, n, h));
            } else {
                assert(w.is_live(h));
                assert(op != EcsOp::<C>::Despawn(h));
                if !(v.is_live(h) && !despawned_between(ops, 0, m, h)) {
                    let i = choose|i: int| 0 <= i < m && #[trigger] kept_since(v, ops, i, m, h);
                    assert(kept_since(v, ops, i, n, h));
                }
            }
        } else {
            if live_by_history(v, ops, n, h) {
                if v.is_live(h) && !despawned_between(ops, 0, n, h) {
                    assert(live_by_history(v, ops, m, h));
                } else {
                    let i = choose|i: int| 0 <= i < n && #[trigger] kept_since(v, ops, i, n, h);
                    if i < m {
                        assert(kept_since(v, ops, i, m, h));
                        assert(live_by_history(v, ops, m, h));
                    } else {
                        assert(ops.take(i) == ops.take(m));
                    }
                }
            }
        }
    }
}

/// Whether a handle is live after a run of changes (direct calls, or a
/// command buffer applied) follows from the history alone: it is live
/// exactly when it was live before and no change despawned it, or a spawn
/// among the changes returned it and no later change despawned it.
pub proof fn law_contains_history<C>(v: WorldView<C>, ops: Seq<EcsOp<C>>, h: EcsEntity)
    requires
        v.valid(),
        v.can_run(ops),
    ensures
        v.run(ops).is_live(h) <==> live_by_history(v, ops, ops.len() as int, h),
{
    lemma_live_by_history(v, ops, ops.len() as int, h);
    assert(ops.take(ops.len() as int) =~= ops);
}

/// A queued spawn-with, once applied, adds one live entity: the handle the
/// next spawn returns, carrying the queued component of its kind.
pub proof fn law_spawn_with_applied<C>(v: WorldView<C>, kind: ComponentKind, c: C)
    requires
        v.valid(),
        v.can_spawn(),
    ensures
        v.can_run(seq![EcsOp::SpawnWith(kind, c)]),
        v.run(seq![EcsOp::SpawnWith(kind, c)]).live_count() == v.live_count() + 1,
        v.run(seq![EcsOp::SpawnWith(kind, c)]).is_live(v.next_spawn()),
        v.run(seq![EcsOp::SpawnWith(kind, c)]).component(v.next_spawn(), kind) == Some(c),
        forall|x: EcsEntity| v.is_live(x) ==> #[trigger] v.run(seq![EcsOp::SpawnWith(kind, c)]).is_live(x),
{
    let op = EcsOp::SpawnWith(kind, c);
    law_run_single(v, op);
    law_spawn_is_fresh(v);
    law_live_count(v, v.next_spawn());
    assert(v.step(op).slots == v.spawned().slots);
}

/// Applying a buffer equals making its changes one by one as direct calls:
/// the run of the whole buffer is the run of its first changes followed by
/// the last one.
pub proof fn law_apply_is_one_by_one<C>(v: WorldView<C>, ops: Seq<EcsOp<C>>)
    requires
        ops.len() > 0,
    ensures
        v.run(ops) == v.run(ops.drop_last()).step(ops.last()),
        v.can_run(ops) == (v.can_run(ops.drop_last()) && v.run(ops.drop_last()).can_step(ops.last())),
{
    assert(ops =~= ops.drop_last() + seq![ops.last()]);
    law_run_concat(v, ops.drop_last(), seq![ops.last()]);
    law_run_single(v.run(ops.drop_last()), ops.last());
}

} // verus!
