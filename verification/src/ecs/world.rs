//! `EcsWorld`: entity allocation plus one component store per kind.

use std::collections::VecDeque;

use vstd::prelude::*;

use super::commands::{EcsCommandBuffer, EcsOp};
use super::entity::{ComponentKind, EcsEntity, EntityMeta};
use super::store::ComponentStore;

verus! {

/// Number of live slots.
pub open spec fn count_alive(slots: Seq<EntityMeta>) -> nat
    decreases slots.len(),
{
    if slots.len() == 0 {
        0
    } else {
        count_alive(slots.drop_last()) + if slots.last().alive {
            1nat
        } else {
            0nat
        }
    }
}

proof fn lemma_count_alive_push(slots: Seq<EntityMeta>, m: EntityMeta)
    ensures
        count_alive(slots.push(m)) == count_alive(slots) + if m.alive {
            1nat
        } else {
            0nat
        },
{
    assert(slots.push(m).drop_last() =~= slots);
}

proof fn lemma_count_alive_update(slots: Seq<EntityMeta>, i: int, m: EntityMeta)
    requires
        0 <= i < slots.len(),
    ensures
        count_alive(slots.update(i, m)) + (if slots[i].alive {
            1int
        } else {
            0int
        }) == count_alive(slots) + (if m.alive {
            1int
        } else {
            0int
        }),
    decreases slots.len(),
{
    if i == slots.len() - 1 {
        assert(slots.update(i, m).drop_last() =~= slots.drop_last());
    } else {
        lemma_count_alive_update(slots.drop_last(), i, m);
        assert(slots.update(i, m).drop_last() =~= slots.drop_last().update(i, m));
    }
}

proof fn lemma_count_all_alive(slots: Seq<EntityMeta>)
    requires
        forall|s: int| 0 <= s < slots.len() ==> (#[trigger] slots[s]).alive,
    ensures
        count_alive(slots) == slots.len(),
    decreases slots.len(),
{
    if slots.len() > 0 {
        lemma_count_all_alive(slots.drop_last());
    }
}

proof fn lemma_count_alive_bound(slots: Seq<EntityMeta>)
    ensures
        count_alive(slots) <= slots.len(),
    decreases slots.len(),
{
    if slots.len() > 0 {
        lemma_count_alive_bound(slots.drop_last());
    }
}

/// The generation a slot takes when its occupant is despawned (wrapping).
pub open spec fn next_generation(g: u32) -> u32 {
    if g == u32::MAX {
        0
    } else {
        (g + 1) as u32
    }
}

/// Abstract state of a world: slot metadata, the stack of free slots, and
/// the component values keyed by kind and entity handle.
#[verifier::ext_equal]
pub struct WorldView<C> {
    /// Generation and liveness of every slot ever allocated.
    pub slots: Seq<EntityMeta>,
    /// Dead slots awaiting reuse; the last one is reused first.
    pub free: Seq<u32>,
    /// Component values by (kind, entity).
    pub components: Map<(ComponentKind, EcsEntity), C>,
}

impl<C> WorldView<C> {
    /// The handle refers to the current, live occupant of its slot.
    pub open spec fn is_live(self, e: EcsEntity) -> bool {
        &&& (e.slot as int) < self.slots.len()
        &&& self.slots[e.slot as int].alive
        &&& self.slots[e.slot as int].generation == e.generation
    }

    /// The shape every world's state has: at most `u32::MAX` slots, free
    /// slots are dead, in range and distinct, and components belong to live
    /// entities only.
    pub open spec fn valid(self) -> bool {
        &&& self.slots.len() <= u32::MAX
        &&& forall|i: int|
            #![trigger self.free[i]]
            0 <= i < self.free.len() ==> (self.free[i] as int) < self.slots.len()
                && !self.slots[self.free[i] as int].alive
        &&& self.free.no_duplicates()
        &&& forall|p: (ComponentKind, EcsEntity)|
            #[trigger] self.components.contains_key(p) ==> self.is_live(p.1)
    }

    /// Number of live entities.
    pub open spec fn live_count(self) -> nat {
        count_alive(self.slots)
    }

    /// Whether a spawn has a slot to use (a free one, or a fresh `u32` slot).
    pub open spec fn can_spawn(self) -> bool {
        self.free.len() > 0 || self.slots.len() < u32::MAX
    }

    /// The handle the next spawn returns: the most recently freed slot with
    /// its current generation, else a fresh slot with generation 1.
    pub open spec fn next_spawn(self) -> EcsEntity {
        if self.free.len() > 0 {
            let slot = self.free.last();
            EcsEntity { slot, generation: self.slots[slot as int].generation }
        } else {
            EcsEntity { slot: self.slots.len() as u32, generation: 1 }
        }
    }

    /// The state after a spawn.
    pub open spec fn spawned(self) -> WorldView<C> {
        let e = self.next_spawn();
        if self.free.len() > 0 {
            WorldView {
                slots: self.slots.update(e.slot as int, EntityMeta { generation: e.generation, alive: true }),
                free: self.free.drop_last(),
                components: self.components,
            }
        } else {
            WorldView {
                slots: self.slots.push(EntityMeta { generation: 1, alive: true }),
                free: self.free,
                components: self.components,
            }
        }
    }

    /// The state after despawning `e`: its slot dies, its generation moves on
    /// (wrapping), the slot joins the free stack and its components go.
    /// A stale handle changes nothing.
    pub open spec fn despawned(self, e: EcsEntity) -> WorldView<C> {
        if self.is_live(e) {
            WorldView {
                slots: self.slots.update(
                    e.slot as int,
                    EntityMeta { generation: next_generation(e.generation), alive: false },
                ),
                free: self.free.push(e.slot),
                components: Map::new(
                    |p: (ComponentKind, EcsEntity)| self.components.contains_key(p) && p.1 != e,
                    |p: (ComponentKind, EcsEntity)| self.components[p],
                ),
            }
        } else {
            self
        }
    }

    /// The state after writing `c` as `e`'s component of `kind`
    /// (a stale handle changes nothing).
    pub open spec fn inserted(self, e: EcsEntity, kind: ComponentKind, c: C) -> WorldView<C> {
        if self.is_live(e) {
            WorldView { components: self.components.insert((kind, e), c), ..self }
        } else {
            self
        }
    }

    /// The state after removing `e`'s component of `kind`
    /// (a stale handle changes nothing).
    pub open spec fn removed(self, e: EcsEntity, kind: ComponentKind) -> WorldView<C> {
        if self.is_live(e) {
            WorldView { components: self.components.remove((kind, e)), ..self }
        } else {
            self
        }
    }

    /// `e`'s component of `kind`, if any.
    pub open spec fn component(self, e: EcsEntity, kind: ComponentKind) -> Option<C> {
        if self.components.contains_key((kind, e)) {
            Some(self.components[(kind, e)])
        } else {
            None
        }
    }

    /// Whether one queued change can run (a spawn needs a slot).
    pub open spec fn can_step(self, op: EcsOp<C>) -> bool {
        match op {
            EcsOp::Spawn => self.can_spawn(),
            EcsOp::SpawnWith(_, _) => self.can_spawn(),
            _ => true,
        }
    }

    /// The state after one queued change.
    pub open spec fn step(self, op: EcsOp<C>) -> WorldView<C> {
        match op {
            EcsOp::Spawn => self.spawned(),
            EcsOp::SpawnWith(kind, c) => self.spawned().inserted(self.next_spawn(), kind, c),
            EcsOp::Despawn(e) => self.despawned(e),
            EcsOp::Insert(e, kind, c) => self.inserted(e, kind, c),
            EcsOp::Remove(e, kind) => self.removed(e, kind),
        }
    }

    /// Whether every change of `ops` can run in order.
    pub open spec fn can_run(self, ops: Seq<EcsOp<C>>) -> bool
        decreases ops.len(),
    {
        if ops.len() == 0 {
            true
        } else {
            self.can_step(ops[0]) && self.step(ops[0]).can_run(ops.drop_first())
        }
    }

    /// The state after running `ops` in order.
    pub open spec fn run(self, ops: Seq<EcsOp<C>>) -> WorldView<C>
        decreases ops.len(),
    {
        if ops.len() == 0 {
            self
        } else {
            self.step(ops[0]).run(ops.drop_first())
        }
    }
}

/// The store of one component kind.
#[derive(Debug, Clone)]
struct KindStore<C> {
    kind: ComponentKind,
    store: ComponentStore<C>,
}

impl<C> KindStore<C> {
    fn get_mut_in(&mut self, entity: EcsEntity) -> (r: Option<&mut C>)
        requires
            old(self).store.wf(),
        ensures
            final(self).kind == old(self).kind,
            old(self).store.holds(entity) ==> r is Some && *r->0 == old(self).store@[entity.slot].1,
            old(self).store.holds(entity) ==> final(self).store.wf() && final(self).store@
                == old(self).store@.insert(entity.slot, (entity, *final(r->0))),
            !old(self).store.holds(entity) ==> r is None && *final(self) == *old(self),
    {
        self.store.get_mut(entity)
    }
}

/// Entity allocator plus one sparse-set store per component kind.
#[derive(Debug, Clone)]
pub struct EcsWorld<C> {
    metas: Vec<EntityMeta>,
    free: Vec<u32>,
    stores: Vec<KindStore<C>>,
    alive_count: u32,
}

impl<C> EcsWorld<C> {
    spec fn has_component(&self, kind: ComponentKind, e: EcsEntity) -> bool {
        exists|i: int|
            0 <= i < self.stores@.len() && self.stores@[i].kind == kind && (
            #[trigger] self.stores@[i]).store.holds(e)
    }

    spec fn component_value(&self, kind: ComponentKind, e: EcsEntity) -> C {
        let i = choose|i: int|
            0 <= i < self.stores@.len() && self.stores@[i].kind == kind && (
            #[trigger] self.stores@[i]).store.holds(e);
        self.stores@[i].store@[e.slot].1
    }

    /// Abstract state.
    pub closed spec fn view(&self) -> WorldView<C> {
        WorldView {
            slots: self.metas@,
            free: self.free@,
            components: Map::new(
                |p: (ComponentKind, EcsEntity)| self.has_component(p.0, p.1),
                |p: (ComponentKind, EcsEntity)| self.component_value(p.0, p.1),
            ),
        }
    }

    /// Internal consistency: the live counter matches the slots, free slots
    /// are dead and distinct, kinds are distinct, every store is consistent
    /// and only holds live handles under their own slots.
    pub closed spec fn wf(&self) -> bool {
        &&& self.metas@.len() <= u32::MAX
        &&& self.alive_count as nat == count_alive(self.metas@)
        &&& forall|i: int|
            #![trigger self.free@[i]]
            0 <= i < self.free@.len() ==> (self.free@[i] as int) < self.metas@.len()
                && !self.metas@[self.free@[i] as int].alive
        &&& self.free@.no_duplicates()
        &&& forall|s: int| 0 <= s < self.metas@.len() && !(#[trigger] self.metas@[s]).alive ==> self.free@.contains(s as u32)
        &&& forall|i: int, j: int|
            0 <= i < self.stores@.len() && 0 <= j < self.stores@.len() && i != j ==> (
            #[trigger] self.stores@[i]).kind != (#[trigger] self.stores@[j]).kind
        &&& forall|i: int| 0 <= i < self.stores@.len() ==> (#[trigger] self.stores@[i]).store.wf()
        &&& forall|i: int, s: u32|
            0 <= i < self.stores@.len() && #[trigger] self.stores@[i].store@.contains_key(s)
                ==> self.view().is_live(self.stores@[i].store@[s].0)
    }

    /// Reading the components through the store of `kind` at index `i`.
    proof fn lemma_lookup(&self, i: int, kind: ComponentKind)
        requires
            self.wf(),
            0 <= i < self.stores@.len(),
            self.stores@[i].kind == kind,
        ensures
            forall|e: EcsEntity|
                #![trigger self.view().components.contains_key((kind, e))]
                self.view().components.contains_key((kind, e)) == self.stores@[i].store.holds(e),
            forall|e: EcsEntity|
                #![trigger self.view().components[(kind, e)]]
                self.stores@[i].store.holds(e) ==> self.view().components[(kind, e)]
                    == self.stores@[i].store@[e.slot].1,
    {
        assert forall|e: EcsEntity| self.stores@[i].store.holds(e) implies self.view().components[(
        kind,
        e,
        )] == self.stores@[i].store@[e.slot].1 by {
            assert(self.has_component(kind, e));
            let j = choose|j: int|
                0 <= j < self.stores@.len() && self.stores@[j].kind == kind && (
                #[trigger] self.stores@[j]).store.holds(e);
            assert(j == i);
        }
        assert forall|e: EcsEntity|
            #![trigger self.view().components.contains_key((kind, e))]
            self.view().components.contains_key((kind, e)) implies self.stores@[i].store.holds(
            e,
        ) by {
            let j = choose|j: int|
                0 <= j < self.stores@.len() && self.stores@[j].kind == kind && (
                #[trigger] self.stores@[j]).store.holds(e);
            assert(j == i);
        }
    }

    /// No store has `kind`: no components of that kind.
    proof fn lemma_lookup_none(&self, kind: ComponentKind)
        requires
            self.wf(),
            forall|i: int| 0 <= i < self.stores@.len() ==> (#[trigger] self.stores@[i]).kind != kind,
        ensures
            forall|e: EcsEntity| !(#[trigger] self.view().components.contains_key((kind, e))),
    {
    }

    /// An empty world.
    pub fn new() -> (world: Self)
        ensures
            world.wf(),
            world.view().slots == Seq::<EntityMeta>::empty(),
            world.view().free == Seq::<u32>::empty(),
            world.view().components == Map::<(ComponentKind, EcsEntity), C>::empty(),
    {
        let world = EcsWorld { metas: Vec::new(), free: Vec::new(), stores: Vec::new(), alive_count: 0 };
        assert(world.view().components =~= Map::<(ComponentKind, EcsEntity), C>::empty());
        world
    }

    /// A copy of the world: the same slots, free list and components.
    pub fn copy(&self) -> (c: Self)
        where
            C: Copy,
        requires
            self.wf(),
        ensures
            c.wf(),
            c.view() == self.view(),
    {
        let mut stores: Vec<KindStore<C>> = Vec::new();
        let mut i: usize = 0;
        while i < self.stores.len()
            invariant
                i <= self.stores@.len(),
                stores@.len() == i,
                forall|j: int|
                    0 <= j < i ==> (#[trigger] stores@[j]).kind == self.stores@[j].kind && stores@[j].store@
                        == self.stores@[j].store@ && stores@[j].store.wf() == self.stores@[j].store.wf(),
            decreases self.stores@.len() - i,
        {
            let k = &self.stores[i];
            stores.push(KindStore { kind: k.kind, store: k.store.copy() });
            i = i + 1;
        }
        let c = EcsWorld {
            metas: super::store::copy_vec(&self.metas),
            free: super::store::copy_vec(&self.free),
            stores,
            alive_count: self.alive_count,
        };
        assert forall|kind: ComponentKind, e: EcsEntity| c.has_component(kind, e) == self.has_component(kind, e) by {
            if c.has_component(kind, e) {
                let i = choose|i: int|
                    0 <= i < c.stores@.len() && c.stores@[i].kind == kind && (#[trigger] c.stores@[i]).store.holds(e);
                assert(self.stores@[i].store.holds(e));
            }
            if self.has_component(kind, e) {
                let i = choose|i: int|
                    0 <= i < self.stores@.len() && self.stores@[i].kind == kind && (#[trigger] self.stores@[i]).store.holds(e);
                assert(c.stores@[i].store.holds(e));
            }
        }
        assert forall|kind: ComponentKind, e: EcsEntity| c.has_component(kind, e) implies c.component_value(kind, e)
            == self.component_value(kind, e) by {
            let i = choose|i: int|
                0 <= i < c.stores@.len() && c.stores@[i].kind == kind && (#[trigger] c.stores@[i]).store.holds(e);
            let j = choose|j: int|
                0 <= j < self.stores@.len() && self.stores@[j].kind == kind && (#[trigger] self.stores@[j]).store.holds(e);
            assert(self.stores@[i].kind == kind);
            assert(i == j);
        }
        assert(c.view() =~= self.view());
        c
    }

    /// Number of live entities.
    pub fn len(&self) -> (n: usize)
        requires
            self.wf(),
        ensures
            n == self.view().live_count(),
    {
        self.alive_count as usize
    }

    /// Whether no entity is live.
    pub fn is_empty(&self) -> (empty: bool)
        requires
            self.wf(),
        ensures
            empty == (self.view().live_count() == 0),
    {
        self.alive_count == 0
    }

    /// Whether the handle still refers to a live entity.
    pub fn contains(&self, entity: EcsEntity) -> (live: bool)
        requires
            self.wf(),
        ensures
            live == self.view().is_live(entity),
    {
        let slot = entity.slot as usize;
        if slot < self.metas.len() {
            let meta = self.metas[slot];
            meta.alive && meta.generation == entity.generation
        } else {
            false
        }
    }

    /// With fewer than `u32::MAX` live entities there is always a slot for a
    /// spawn: every dead slot is on the free list.
    pub proof fn lemma_room_to_spawn(&self)
        requires
            self.wf(),
            self.view().live_count() < u32::MAX,
        ensures
            self.view().can_spawn(),
    {
        if self.free@.len() == 0 && self.metas@.len() >= u32::MAX {
            assert forall|s: int| 0 <= s < self.metas@.len() implies (#[trigger] self.metas@[s]).alive by {
                if !self.metas@[s].alive {
                    assert(self.free@.contains(s as u32));
                }
            }
            lemma_count_all_alive(self.metas@);
        }
    }

    /// Allocates a live entity, reusing the most recently freed slot if any.
    pub fn spawn(&mut self) -> (entity: EcsEntity)
        requires
            old(self).wf(),
            old(self).view().can_spawn(),
        ensures
            final(self).wf(),
            entity == old(self).view().next_spawn(),
            final(self).view() == old(self).view().spawned(),
    {
        let ghost pre = self.view();
        proof {
            lemma_count_alive_bound(self.metas@);
        }
        match self.free.pop() {
            Some(slot) => {
                let generation = self.metas[slot as usize].generation;
                let meta = EntityMeta { generation, alive: true };
                proof {
                    assert(old(self).free@[old(self).free@.len() - 1] == slot);
                    lemma_count_alive_update(self.metas@, slot as int, meta);
                    lemma_count_alive_bound(self.metas@.update(slot as int, meta));
                }
                self.metas.set(slot as usize, meta);
                self.alive_count = self.alive_count + 1;
                let entity = EcsEntity { slot, generation };
                proof {
                    assert(self.free@ =~= old(self).free@.drop_last());
                    assert forall|s: int| 0 <= s < self.metas@.len() && !(#[trigger] self.metas@[s]).alive implies self.free@.contains(
                        s as u32,
                    ) by {
                        assert(s != slot as int);
                        assert(!old(self).metas@[s].alive);
                        assert(old(self).free@.contains(s as u32));
                        let k = choose|k: int| 0 <= k < old(self).free@.len() && old(self).free@[k] == s as u32;
                        assert(k != old(self).free@.len() - 1);
                        assert(self.free@[k] == s as u32);
                    }
                    self.lemma_spawn_keeps(pre, *old(self));
                }
                entity
            },
            None => {
                let slot = self.metas.len() as u32;
                let meta = EntityMeta { generation: 1, alive: true };
                proof {
                    lemma_count_alive_push(self.metas@, meta);
                }
                self.metas.push(meta);
                self.alive_count = self.alive_count + 1;
                proof {
                    assert forall|s: int| 0 <= s < self.metas@.len() && !(#[trigger] self.metas@[s]).alive implies self.free@.contains(
                        s as u32,
                    ) by {
                        assert(s < old(self).metas@.len());
                        assert(self.metas@[s] == old(self).metas@[s]);
                    }
                    self.lemma_spawn_keeps(pre, *old(self));
                }
                EcsEntity { slot, generation: 1 }
            },
        }
    }

    /// After a spawn only the spawned slot changed: stores, kinds and free
    /// invariants carry over.
    proof fn lemma_spawn_keeps(&self, pre: WorldView<C>, before: Self)
        requires
            pre == before.view(),
            self.stores@ == before.stores@,
            self.metas@.len() <= u32::MAX,
            self.alive_count as nat == count_alive(self.metas@),
            forall|i: int|
                #![trigger self.free@[i]]
                0 <= i < self.free@.len() ==> (self.free@[i] as int) < self.metas@.len()
                    && !self.metas@[self.free@[i] as int].alive,
            self.free@.no_duplicates(),
            forall|s: int| 0 <= s < self.metas@.len() && !(#[trigger] self.metas@[s]).alive ==> self.free@.contains(s as u32),
            forall|i: int, j: int|
                0 <= i < self.stores@.len() && 0 <= j < self.stores@.len() && i != j ==> (
                #[trigger] self.stores@[i]).kind != (#[trigger] self.stores@[j]).kind,
            forall|i: int| 0 <= i < self.stores@.len() ==> (#[trigger] self.stores@[i]).store.wf(),
            forall|e: EcsEntity| pre.is_live(e) ==> self.view().is_live(e),
            forall|i: int, s: u32|
                0 <= i < self.stores@.len() && #[trigger] self.stores@[i].store@.contains_key(s)
                    ==> pre.is_live(self.stores@[i].store@[s].0),
        ensures
            self.wf(),
            self.view().components == pre.components,
    {
        assert(self.view().components =~= pre.components);
    }
}


impl<C> EcsWorld<C> {
    /// Index of the store of `kind`, if the world has one.
    fn store_index(&self, kind: ComponentKind) -> (r: Option<usize>)
        requires
            self.wf(),
        ensures
            r matches Some(i) ==> i < self.stores@.len() && self.stores@[i as int].kind == kind,
            r is None ==> forall|i: int|
                0 <= i < self.stores@.len() ==> (#[trigger] self.stores@[i]).kind != kind,
    {
        let n = self.stores.len();
        let mut i: usize = 0;
        while i < n
            invariant
                n == self.stores@.len(),
                i <= n,
                forall|j: int| 0 <= j < i ==> (#[trigger] self.stores@[j]).kind != kind,
            decreases n - i,
        {
            if self.stores[i].kind == kind {
                return Some(i);
            }
            i += 1;
        }
        None
    }

    /// Index of the store of `kind`, creating an empty one if needed.
    fn ensure_store(&mut self, kind: ComponentKind) -> (i: usize)
        requires
            old(self).wf(),
        ensures
            final(self).wf(),
            final(self).view() == old(self).view(),
            i < final(self).stores@.len(),
            final(self).stores@[i as int].kind == kind,
            final(self).metas@ == old(self).metas@,
            final(self).free@ == old(self).free@,
            final(self).alive_count == old(self).alive_count,
            forall|j: int|
                0 <= j < old(self).stores@.len() ==> final(self).stores@[j] == old(self).stores@[j],
            i < old(self).stores@.len() || final(self).stores@[i as int].store@ == Map::<
                u32,
                (EcsEntity, C),
            >::empty(),
    {
        match self.store_index(kind) {
            Some(i) => i,
            None => {
                let ghost before = *self;
                self.stores.push(KindStore { kind, store: ComponentStore::new() });
                let i = self.stores.len() - 1;
                proof {
                    assert(self.stores@[i as int].store@ =~= Map::<u32, (EcsEntity, C)>::empty());
                    assert forall|j: int, s: u32|
                        0 <= j < self.stores@.len()
                            && #[trigger] self.stores@[j].store@.contains_key(s) implies self.view().is_live(
                        self.stores@[j].store@[s].0,
                    ) by {
                        assert(j < before.stores@.len());
                        assert(self.stores@[j] == before.stores@[j]);
                    }
                    assert(self.view().components =~= before.view().components) by {
                        assert forall|p: (ComponentKind, EcsEntity)|
                            self.has_component(p.0, p.1) implies before.has_component(p.0, p.1) by {
                            let j = choose|j: int|
                                0 <= j < self.stores@.len() && self.stores@[j].kind == p.0 && (
                                #[trigger] self.stores@[j]).store.holds(p.1);
                            assert(j < before.stores@.len());
                            assert(before.stores@[j] == self.stores@[j]);
                        }
                        assert forall|p: (ComponentKind, EcsEntity)|
                            before.has_component(p.0, p.1) implies self.has_component(p.0, p.1) by {
                            let j = choose|j: int|
                                0 <= j < before.stores@.len() && before.stores@[j].kind == p.0 && (
                                #[trigger] before.stores@[j]).store.holds(p.1);
                            assert(self.stores@[j] == before.stores@[j]);
                        }
                        assert forall|p: (ComponentKind, EcsEntity)|
                            self.has_component(p.0, p.1) implies self.component_value(p.0, p.1)
                            == before.component_value(p.0, p.1) by {
                            let j = choose|j: int|
                                0 <= j < self.stores@.len() && self.stores@[j].kind == p.0 && (
                                #[trigger] self.stores@[j]).store.holds(p.1);
                            let k = choose|k: int|
                                0 <= k < before.stores@.len() && before.stores@[k].kind == p.0 && (
                                #[trigger] before.stores@[k]).store.holds(p.1);
                            assert(j == k);
                        }
                    }
                }
                i
            },
        }
    }

    /// Despawns the entity and drops all its components; the handle goes
    /// stale at once. A stale handle changes nothing.
    pub fn despawn(&mut self, entity: EcsEntity) -> (despawned: bool)
        requires
            old(self).wf(),
        ensures
            final(self).wf(),
            despawned == old(self).view().is_live(entity),
            final(self).view() == old(self).view().despawned(entity),
    {
        if !self.contains(entity) {
            return false;
        }
        let ghost pre = *self;
        let slot = entity.slot;
        let n = self.stores.len();
        let mut i: usize = 0;
        while i < n
            invariant
                pre.wf(),
                pre.view().is_live(entity),
                slot == entity.slot,
                n == self.stores@.len(),
                n == pre.stores@.len(),
                i <= n,
                self.metas@ == pre.metas@,
                self.free@ == pre.free@,
                self.alive_count == pre.alive_count,
                forall|j: int| 0 <= j < n ==> (#[trigger] self.stores@[j]).kind == pre.stores@[j].kind,
                forall|j: int| 0 <= j < n ==> (#[trigger] self.stores@[j]).store.wf(),
                forall|j: int|
                    0 <= j < i ==> (#[trigger] self.stores@[j]).store@ == pre.stores@[j].store@.remove(
                        slot,
                    ),
                forall|j: int| i <= j < n ==> (#[trigger] self.stores@[j]) == pre.stores@[j],
            decreases n - i,
        {
            self.stores[i].store.clear_slot(slot);
            i += 1;
        }
        let generation = self.metas[slot as usize].generation;
        let meta = EntityMeta { generation: generation.wrapping_add(1), alive: false };
        proof {
            lemma_count_alive_update(self.metas@, slot as int, meta);
        }
        self.metas.set(slot as usize, meta);
        self.free.push(slot);
        self.alive_count = self.alive_count - 1;
        proof {
            self.lemma_despawn_view(pre, entity);
        }
        true
    }

    proof fn lemma_despawn_view(&self, pre: Self, entity: EcsEntity)
        requires
            pre.wf(),
            pre.view().is_live(entity),
            self.stores@.len() == pre.stores@.len(),
            forall|j: int|
                0 <= j < self.stores@.len() ==> (#[trigger] self.stores@[j]).kind
                    == pre.stores@[j].kind,
            forall|j: int| 0 <= j < self.stores@.len() ==> (#[trigger] self.stores@[j]).store.wf(),
            forall|j: int|
                0 <= j < self.stores@.len() ==> (#[trigger] self.stores@[j]).store@
                    == pre.stores@[j].store@.remove(entity.slot),
            self.metas@ == pre.metas@.update(
                entity.slot as int,
                EntityMeta { generation: next_generation(entity.generation), alive: false },
            ),
            self.free@ == pre.free@.push(entity.slot),
            self.alive_count as nat == count_alive(self.metas@),
        ensures
            self.wf(),
            self.view() == pre.view().despawned(entity),
    {
        let slot = entity.slot;
        assert forall|j: int, s: u32|
            0 <= j < pre.stores@.len() && #[trigger] pre.stores@[j].store@.contains_key(s)
                && s == slot implies pre.stores@[j].store@[s].0 == entity by {
            pre.stores@[j].store.lemma_keys_match();
        }
        assert(self.free@.no_duplicates()) by {
            assert forall|i: int| 0 <= i < pre.free@.len() implies pre.free@[i] != slot by {
                assert(!pre.metas@[pre.free@[i] as int].alive);
            }
        }
        assert forall|i: int|
            #![trigger self.free@[i]]
            0 <= i < self.free@.len() implies (self.free@[i] as int) < self.metas@.len()
            && !self.metas@[self.free@[i] as int].alive by {
            if i < pre.free@.len() {
                assert(self.free@[i] == pre.free@[i]);
            }
        }
        assert forall|s: int| 0 <= s < self.metas@.len() && !(#[trigger] self.metas@[s]).alive implies self.free@.contains(
            s as u32,
        ) by {
            if s == slot as int {
                assert(self.free@[pre.free@.len() as int] == slot);
            } else {
                assert(!pre.metas@[s].alive);
                assert(pre.free@.contains(s as u32));
                let k = choose|k: int| 0 <= k < pre.free@.len() && pre.free@[k] == s as u32;
                assert(self.free@[k] == s as u32);
            }
        }
        assert forall|j: int, s: u32|
            0 <= j < self.stores@.len()
                && #[trigger] self.stores@[j].store@.contains_key(s) implies self.view().is_live(
            self.stores@[j].store@[s].0,
        ) by {
            pre.stores@[j].store.lemma_keys_match();
            assert(pre.stores@[j].store@.contains_key(s));
        }
        assert(self.view().components =~= pre.view().despawned(entity).components) by {
            assert forall|p: (ComponentKind, EcsEntity)|
                self.has_component(p.0, p.1) implies pre.has_component(p.0, p.1) && p.1 != entity
                && self.component_value(p.0, p.1) == pre.component_value(p.0, p.1) by {
                let j = choose|j: int|
                    0 <= j < self.stores@.len() && self.stores@[j].kind == p.0 && (
                    #[trigger] self.stores@[j]).store.holds(p.1);
                assert(pre.stores@[j].store.holds(p.1));
                pre.lemma_lookup(j, p.0);
                self.lemma_lookup(j, p.0);
            }
            assert forall|p: (ComponentKind, EcsEntity)|
                pre.has_component(p.0, p.1) && p.1 != entity implies self.has_component(p.0, p.1) by {
                let j = choose|j: int|
                    0 <= j < pre.stores@.len() && pre.stores@[j].kind == p.0 && (
                    #[trigger] pre.stores@[j]).store.holds(p.1);
                pre.stores@[j].store.lemma_keys_match();
                assert(p.1.slot != slot);
                assert(self.stores@[j].store.holds(p.1));
            }
        }
    }

    /// Writes `component` as `entity`'s value of `kind` and returns the value
    /// it replaced. A stale handle writes nothing and returns `None`.
    pub fn insert(&mut self, entity: EcsEntity, kind: ComponentKind, component: C) -> (replaced:
        Option<C>)
        requires
            old(self).wf(),
        ensures
            final(self).wf(),
            replaced == (if old(self).view().is_live(entity) {
                old(self).view().component(entity, kind)
            } else {
                None
            }),
            final(self).view() == old(self).view().inserted(entity, kind, component),
    {
        if !self.contains(entity) {
            return None;
        }
        let ghost pre0 = *self;
        let i = self.ensure_store(kind);
        let ghost pre = *self;
        proof {
            pre.lemma_lookup(i as int, kind);
            pre.stores@[i as int].store.lemma_keys_match();
        }
        let ghost comp = component;
        let replaced = self.stores[i].store.insert(entity, component);
        proof {
            self.lemma_single_store_change(pre, i as int);
            self.lemma_lookup(i as int, kind);
            assert(self.view().components =~= pre.view().components.insert((kind, entity), comp))
                by {
                assert forall|p: (ComponentKind, EcsEntity)|
                    #[trigger] self.view().components.contains_key(p) && p.0 != kind implies
                    pre.view().components.contains_key(p) && self.view().components[p]
                    == pre.view().components[p] by {
                    let j = choose|j: int|
                        0 <= j < self.stores@.len() && self.stores@[j].kind == p.0 && (
                        #[trigger] self.stores@[j]).store.holds(p.1);
                    self.lemma_lookup(j, p.0);
                    pre.lemma_lookup(j, p.0);
                }
                assert forall|p: (ComponentKind, EcsEntity)|
                    #[trigger] pre.view().components.contains_key(p) && p.0 != kind implies
                    self.view().components.contains_key(p) by {
                    let j = choose|j: int|
                        0 <= j < pre.stores@.len() && pre.stores@[j].kind == p.0 && (
                        #[trigger] pre.stores@[j]).store.holds(p.1);
                    self.lemma_lookup(j, p.0);
                    pre.lemma_lookup(j, p.0);
                }
                assert forall|x: EcsEntity|
                    #[trigger] self.view().components.contains_key((kind, x)) && x != entity implies
                    pre.view().components.contains_key((kind, x)) && self.view().components[(kind, x)]
                    == pre.view().components[(kind, x)] by {
                    pre.stores@[i as int].store.lemma_keys_match();
                }
                assert forall|x: EcsEntity|
                    #[trigger] pre.view().components.contains_key((kind, x)) && x != entity implies
                    self.view().components.contains_key((kind, x)) by {
                    pre.stores@[i as int].store.lemma_keys_match();
                }
            }
        }
        replaced
    }

    /// Only store `i` changed, and it still holds only live handles of the
    /// same world: the world stays consistent.
    proof fn lemma_single_store_change(&self, pre: Self, i: int)
        requires
            pre.wf(),
            0 <= i < pre.stores@.len(),
            self.stores@.len() == pre.stores@.len(),
            self.metas@ == pre.metas@,
            self.free@ == pre.free@,
            self.alive_count == pre.alive_count,
            self.stores@[i].kind == pre.stores@[i].kind,
            self.stores@[i].store.wf(),
            forall|s: u32|
                #[trigger] self.stores@[i].store@.contains_key(s) ==> pre.view().is_live(
                    self.stores@[i].store@[s].0,
                ),
            forall|j: int| 0 <= j < self.stores@.len() && j != i ==> self.stores@[j] == pre.stores@[j],
        ensures
            self.wf(),
            self.view().slots == pre.view().slots,
            self.view().free == pre.view().free,
    {
        assert forall|j: int, s: u32|
            0 <= j < self.stores@.len()
                && #[trigger] self.stores@[j].store@.contains_key(s) implies self.view().is_live(
            self.stores@[j].store@[s].0,
        ) by {
            if j != i {
                assert(self.stores@[j] == pre.stores@[j]);
            }
        }
        assert forall|j: int, k: int|
            0 <= j < self.stores@.len() && 0 <= k < self.stores@.len() && j != k implies (
            #[trigger] self.stores@[j]).kind != (#[trigger] self.stores@[k]).kind by {
            assert(pre.stores@[j].kind != pre.stores@[k].kind);
        }
        assert forall|j: int| 0 <= j < self.stores@.len() implies (#[trigger] self.stores@[j]).store.wf() by {
            if j != i {
                assert(self.stores@[j] == pre.stores@[j]);
            }
        }
    }
}


impl<C> EcsWorld<C> {
    /// Removes `entity`'s value of `kind` and returns it. A stale handle
    /// changes nothing and returns `None`.
    pub fn remove(&mut self, entity: EcsEntity, kind: ComponentKind) -> (removed: Option<C>)
        requires
            old(self).wf(),
        ensures
            final(self).wf(),
            removed == (if old(self).view().is_live(entity) {
                old(self).view().component(entity, kind)
            } else {
                None
            }),
            final(self).view() == old(self).view().removed(entity, kind),
    {
        if !self.contains(entity) {
            return None;
        }
        match self.store_index(kind) {
            None => {
                proof {
                    self.lemma_lookup_none(kind);
                    assert(self.view().components =~= self.view().components.remove((kind, entity)));
                }
                None
            },
            Some(i) => {
                let ghost pre = *self;
                proof {
                    pre.lemma_lookup(i as int, kind);
                    pre.stores@[i as int].store.lemma_keys_match();
                }
                let removed = self.stores[i].store.remove(entity);
                proof {
                    self.lemma_single_store_change(pre, i as int);
                    self.lemma_lookup(i as int, kind);
                    self.lemma_other_kinds_same(pre, i as int);
                    assert(self.view().components =~= pre.view().components.remove((kind, entity)))
                        by {
                        assert forall|x: EcsEntity|
                            #[trigger] self.view().components.contains_key((kind, x)) implies x
                            != entity && pre.view().components.contains_key((kind, x))
                            && self.view().components[(kind, x)] == pre.view().components[(
                            kind,
                            x,
                        )] by {
                            pre.stores@[i as int].store.lemma_keys_match();
                        }
                        assert forall|x: EcsEntity|
                            #[trigger] pre.view().components.contains_key((kind, x)) && x
                                != entity implies self.view().components.contains_key((kind, x)) by {
                            pre.stores@[i as int].store.lemma_keys_match();
                        }
                    }
                }
                removed
            },
        }
    }

    /// Components of kinds other than that of store `i` are the same as in
    /// `pre` when only store `i` changed.
    proof fn lemma_other_kinds_same(&self, pre: Self, i: int)
        requires
            pre.wf(),
            self.wf(),
            0 <= i < pre.stores@.len(),
            self.stores@.len() == pre.stores@.len(),
            self.stores@[i].kind == pre.stores@[i].kind,
            forall|j: int| 0 <= j < self.stores@.len() && j != i ==> self.stores@[j] == pre.stores@[j],
        ensures
            forall|p: (ComponentKind, EcsEntity)|
                p.0 != self.stores@[i].kind ==> (#[trigger] self.view().components.contains_key(p)
                    <==> pre.view().components.contains_key(p)),
            forall|p: (ComponentKind, EcsEntity)|
                p.0 != self.stores@[i].kind && #[trigger] self.view().components.contains_key(p)
                    ==> self.view().components[p] == pre.view().components[p],
    {
        assert forall|p: (ComponentKind, EcsEntity)|
            p.0 != self.stores@[i].kind && #[trigger] self.view().components.contains_key(
                p,
            ) implies pre.view().components.contains_key(p) && self.view().components[p]
            == pre.view().components[p] by {
            let j = choose|j: int|
                0 <= j < self.stores@.len() && self.stores@[j].kind == p.0 && (
                #[trigger] self.stores@[j]).store.holds(p.1);
            self.lemma_lookup(j, p.0);
            pre.lemma_lookup(j, p.0);
        }
        assert forall|p: (ComponentKind, EcsEntity)|
            p.0 != self.stores@[i].kind && #[trigger] pre.view().components.contains_key(
                p,
            ) implies self.view().components.contains_key(p) by {
            let j = choose|j: int|
                0 <= j < pre.stores@.len() && pre.stores@[j].kind == p.0 && (
                #[trigger] pre.stores@[j]).store.holds(p.1);
            self.lemma_lookup(j, p.0);
            pre.lemma_lookup(j, p.0);
        }
    }

    /// Reads `entity`'s value of `kind` (`None` for a stale handle).
    pub fn get(&self, entity: EcsEntity, kind: ComponentKind) -> (r: Option<&C>)
        requires
            self.wf(),
        ensures
            r is Some == self.view().component(entity, kind) is Some,
            r matches Some(v) ==> self.view().component(entity, kind) == Some(*v),
            !self.view().is_live(entity) ==> r is None,
    {
        if !self.contains(entity) {
            proof {
                self.lemma_components_live();
            }
            return None;
        }
        match self.store_index(kind) {
            None => {
                proof {
                    self.lemma_lookup_none(kind);
                }
                None
            },
            Some(i) => {
                proof {
                    self.lemma_lookup(i as int, kind);
                }
                self.stores[i].store.get(entity)
            },
        }
    }

    /// Mutable access to `entity`'s value of `kind` (`None` for a stale handle
    /// or a missing component); whatever is written through it becomes the
    /// component.
    pub fn get_mut(&mut self, entity: EcsEntity, kind: ComponentKind) -> (r: Option<&mut C>)
        requires
            old(self).wf(),
        ensures
            r is Some == old(self).view().component(entity, kind) is Some,
            r matches Some(v) ==> old(self).view().component(entity, kind) == Some(*v),
            r matches Some(v) ==> final(self).wf() && final(self).view() == old(self).view().inserted(
                entity,
                kind,
                *final(v),
            ),
            r is None ==> final(self).wf() && final(self).view() == old(self).view(),
    {
        if !self.contains(entity) {
            proof {
                self.lemma_components_live();
            }
            return None;
        }
        match self.store_index(kind) {
            None => {
                proof {
                    self.lemma_lookup_none(kind);
                }
                None
            },
            Some(i) => {
                let ghost pre = *self;
                proof {
                    pre.lemma_lookup(i as int, kind);
                    pre.stores@[i as int].store.lemma_keys_match();
                }
                proof {
                    assert forall|post: Self, v: C|
                        #[trigger] Self::store_write(pre, post, i as int, kind, entity, v) implies post.wf()
                            && post.view() == pre.view().inserted(entity, kind, v) by {
                        Self::lemma_store_write(pre, post, i as int, kind, entity, v);
                    }
                    assert forall|post: Self| #[trigger] Self::same_fields(pre, post) implies post.wf()
                        && post.view() == pre.view() by {
                        assert(post.stores@ =~= pre.stores@);
                        assert(post.metas@ =~= pre.metas@);
                        assert(post.free@ =~= pre.free@);
                        assert(post.view().components =~= pre.view().components);
                    }
                }
                self.write_through(i, kind, entity)
            },
        }
    }

    /// The abstract state of a consistent world is valid.
    pub proof fn lemma_view_valid(&self)
        requires
            self.wf(),
        ensures
            self.view().valid(),
    {
        self.lemma_components_live();
    }

    /// Every component belongs to a live entity.
    proof fn lemma_components_live(&self)
        requires
            self.wf(),
        ensures
            forall|p: (ComponentKind, EcsEntity)|
                #[trigger] self.view().components.contains_key(p) ==> self.view().is_live(p.1),
    {
        assert forall|p: (ComponentKind, EcsEntity)|
            #[trigger] self.view().components.contains_key(p) implies self.view().is_live(p.1) by {
            let j = choose|j: int|
                0 <= j < self.stores@.len() && self.stores@[j].kind == p.0 && (
                #[trigger] self.stores@[j]).store.holds(p.1);
            assert(self.stores@[j].store@.contains_key(p.1.slot));
        }
    }

    /// All values of `kind` with their handles, in the store's dense order
    /// (not stable across runs; sort by an outside key where order matters).
    pub fn iter(&self, kind: ComponentKind) -> (items: Vec<(EcsEntity, &C)>)
        requires
            self.wf(),
        ensures
            forall|i: int|
                0 <= i < items@.len() ==> self.view().component((#[trigger] items@[i]).0, kind)
                    == Some(*items@[i].1),
            forall|e: EcsEntity|
                #[trigger] self.view().components.contains_key((kind, e)) ==> exists|i: int|
                    0 <= i < items@.len() && items@[i].0 == e,
            forall|i: int, j: int|
                0 <= i < items@.len() && 0 <= j < items@.len() && i != j ==> (#[trigger] items@[i]).0
                    != (#[trigger] items@[j]).0,
    {
        match self.store_index(kind) {
            None => {
                proof {
                    self.lemma_lookup_none(kind);
                }
                Vec::new()
            },
            Some(i) => {
                let items = self.stores[i].store.iter();
                proof {
                    let st = self.stores@[i as int].store;
                    self.lemma_lookup(i as int, kind);
                    st.lemma_entries_are_contents();
                    st.lemma_keys_match();
                    assert forall|k: int|
                        0 <= k < items@.len() implies self.view().component(
                        (#[trigger] items@[k]).0,
                        kind,
                    ) == Some(*items@[k].1) by {
                        assert(st.entries()[k].0 == items@[k].0);
                        assert(st.holds(items@[k].0));
                    }
                    assert forall|e: EcsEntity|
                        #[trigger] self.view().components.contains_key((kind, e)) implies exists|
                        k: int,
                    | 0 <= k < items@.len() && items@[k].0 == e by {
                        assert(st@.contains_key(e.slot));
                        let k = choose|k: int|
                            0 <= k < st.entries().len() && st.entries()[k].0.slot == e.slot;
                        assert(st@[st.entries()[k].0.slot] == st.entries()[k]);
                        assert(items@[k].0 == e);
                    }
                    assert forall|a: int, b: int|
                        0 <= a < items@.len() && 0 <= b < items@.len() && a != b implies (
                        #[trigger] items@[a]).0 != (#[trigger] items@[b]).0 by {
                        assert(st.entries()[a].0.slot != st.entries()[b].0.slot);
                    }
                }
                items
            },
        }
    }

    /// A fresh, empty command buffer (it does not borrow the world; apply it
    /// with [`Self::apply`] at the end of the phase).
    pub fn commands(&mut self) -> (buffer: EcsCommandBuffer<C>)
        ensures
            buffer@ == Seq::<EcsOp<C>>::empty(),
            *final(self) == *old(self),
    {
        EcsCommandBuffer::new()
    }

    /// Runs one queued change.
    pub fn apply_op(&mut self, op: EcsOp<C>)
        requires
            old(self).wf(),
            old(self).view().can_step(op),
        ensures
            final(self).wf(),
            final(self).view() == old(self).view().step(op),
    {
        match op {
            EcsOp::Spawn => {
                let _ = self.spawn();
            },
            EcsOp::SpawnWith(kind, component) => {
                let entity = self.spawn();
                let _ = self.insert(entity, kind, component);
            },
            EcsOp::Despawn(entity) => {
                let _ = self.despawn(entity);
            },
            EcsOp::Insert(entity, kind, component) => {
                let _ = self.insert(entity, kind, component);
            },
            EcsOp::Remove(entity, kind) => {
                let _ = self.remove(entity, kind);
            },
        }
    }

    /// Applies the queued changes in the order they were queued.
    pub fn apply(&mut self, commands: EcsCommandBuffer<C>)
        requires
            old(self).wf(),
            old(self).view().can_run(commands@),
        ensures
            final(self).wf(),
            final(self).view() == old(self).view().run(commands@),
    {
        let mut ops: VecDeque<EcsOp<C>> = commands.into_ops();
        let ghost goal = self.view().run(ops@);
        loop
            invariant
                self.wf(),
                self.view().can_run(ops@),
                self.view().run(ops@) == goal,
            ensures
                self.wf(),
                self.view() == goal,
            decreases ops@.len(),
        {
            match ops.pop_front() {
                None => {
                    assert(self.view().run(ops@) == self.view());
                    break;
                },
                Some(op) => {
                    self.apply_op(op);
                },
            }
        }
    }
}


impl<C> EcsWorld<C> {
    /// `post` is `pre` with store `i` (of `kind`) now holding `v` for `entity`.
    spec fn store_write(pre: Self, post: Self, i: int, kind: ComponentKind, entity: EcsEntity, v: C) -> bool {
        &&& 0 <= i < pre.stores@.len()
        &&& pre.stores@[i].kind == kind
        &&& post.metas@ == pre.metas@
        &&& post.free@ == pre.free@
        &&& post.alive_count == pre.alive_count
        &&& post.stores@.len() == pre.stores@.len()
        &&& post.stores@[i].kind == kind
        &&& forall|j: int| 0 <= j < post.stores@.len() && j != i ==> post.stores@[j] == pre.stores@[j]
        &&& post.stores@[i].store.wf()
        &&& post.stores@[i].store@ == pre.stores@[i].store@.insert(entity.slot, (entity, v))
    }

    /// Writing a live entity's value into the store of its kind keeps the
    /// world consistent and acts as `inserted` on the abstract state.
    proof fn lemma_store_write(pre: Self, post: Self, i: int, kind: ComponentKind, entity: EcsEntity, v: C)
        requires
            pre.wf(),
            pre.view().is_live(entity),
            Self::store_write(pre, post, i, kind, entity, v),
        ensures
            post.wf(),
            post.view() == pre.view().inserted(entity, kind, v),
    {
        pre.lemma_lookup(i, kind);
        pre.stores@[i].store.lemma_keys_match();
        assert forall|s: u32|
            #[trigger] post.stores@[i].store@.contains_key(s) implies pre.view().is_live(
            post.stores@[i].store@[s].0,
        ) by {
            if s != entity.slot {
                assert(pre.stores@[i].store@.contains_key(s));
            }
        }
        post.lemma_single_store_change(pre, i);
        post.lemma_lookup(i, kind);
        post.lemma_other_kinds_same(pre, i);
        assert(post.view().components =~= pre.view().components.insert((kind, entity), v)) by {
            assert forall|x: EcsEntity|
                #[trigger] post.view().components.contains_key((kind, x)) && x != entity implies
                pre.view().components.contains_key((kind, x)) && post.view().components[(kind, x)]
                == pre.view().components[(kind, x)] by {
                pre.stores@[i].store.lemma_keys_match();
            }
            assert forall|x: EcsEntity|
                #[trigger] pre.view().components.contains_key((kind, x)) && x != entity implies
                post.view().components.contains_key((kind, x)) by {
                pre.stores@[i].store.lemma_keys_match();
            }
        }
    }
}


impl<C> EcsWorld<C> {
    /// Same field contents.
    spec fn same_fields(pre: Self, post: Self) -> bool {
        &&& post.metas@ == pre.metas@
        &&& post.free@ == pre.free@
        &&& post.alive_count == pre.alive_count
        &&& post.stores@ =~= pre.stores@
    }

    /// Mutable access into store `i` for `entity`.
    fn write_through(&mut self, i: usize, kind: ComponentKind, entity: EcsEntity) -> (r: Option<&mut C>)
        requires
            old(self).wf(),
            i < old(self).stores@.len(),
            old(self).stores@[i as int].kind == kind,
        ensures
            old(self).stores@[i as int].store.holds(entity) ==> r is Some && *r->0 == old(
                self,
            ).stores@[i as int].store@[entity.slot].1 && Self::store_write(
                *old(self),
                *final(self),
                i as int,
                kind,
                entity,
                *final(r->0),
            ),
            !old(self).stores@[i as int].store.holds(entity) ==> r is None && Self::same_fields(
                *old(self),
                *final(self),
            ),
    {
        self.stores[i].get_mut_in(entity)
    }
}

} // verus!
