//! Deferred structural changes: systems only queue them while they iterate,
//! and the world applies the queue at the end of the phase.

use std::collections::VecDeque;

use vstd::prelude::*;

use super::entity::{ComponentKind, EcsEntity};

verus! {

/// One queued structural change.
#[derive(Debug, Clone)]
pub enum EcsOp<C> {
    /// Spawn an entity.
    Spawn,
    /// Spawn an entity and give it one component.
    SpawnWith(ComponentKind, C),
    /// Despawn an entity (ignored for a stale handle).
    Despawn(EcsEntity),
    /// Insert or overwrite a component (ignored for a stale handle).
    Insert(EcsEntity, ComponentKind, C),
    /// Remove a component (ignored for a stale handle).
    Remove(EcsEntity, ComponentKind),
}

/// Queue of structural changes, applied in order by `EcsWorld::apply`.
#[derive(Debug)]
pub struct EcsCommandBuffer<C> {
    ops: VecDeque<EcsOp<C>>,
}

impl<C> View for EcsCommandBuffer<C> {
    type V = Seq<EcsOp<C>>;

    closed spec fn view(&self) -> Seq<EcsOp<C>> {
        self.ops@
    }
}

impl<C> EcsCommandBuffer<C> {
    /// An empty buffer.
    pub fn new() -> (buffer: Self)
        ensures
            buffer@ == Seq::<EcsOp<C>>::empty(),
    {
        EcsCommandBuffer { ops: VecDeque::new() }
    }

    /// Whether nothing is queued.
    pub fn is_empty(&self) -> (empty: bool)
        ensures
            empty == (self@.len() == 0),
    {
        self.ops.len() == 0
    }

    /// Number of queued changes.
    pub fn len(&self) -> (n: usize)
        ensures
            n == self@.len(),
    {
        self.ops.len()
    }

    /// Queues the spawn of an entity.
    pub fn spawn(&mut self)
        ensures
            final(self)@ == old(self)@.push(EcsOp::Spawn),
    {
        self.ops.push_back(EcsOp::Spawn);
    }

    /// Queues the spawn of an entity that receives `component` of `kind`
    /// right after it is spawned.
    pub fn spawn_with(&mut self, kind: ComponentKind, component: C)
        ensures
            final(self)@ == old(self)@.push(EcsOp::SpawnWith(kind, component)),
    {
        self.ops.push_back(EcsOp::SpawnWith(kind, component));
    }

    /// Queues the despawn of `entity`; a stale handle is ignored when applied.
    pub fn despawn(&mut self, entity: EcsEntity)
        ensures
            final(self)@ == old(self)@.push(EcsOp::Despawn(entity)),
    {
        self.ops.push_back(EcsOp::Despawn(entity));
    }

    /// Queues writing `component` of `kind` to `entity`.
    pub fn insert(&mut self, entity: EcsEntity, kind: ComponentKind, component: C)
        ensures
            final(self)@ == old(self)@.push(EcsOp::Insert(entity, kind, component)),
    {
        self.ops.push_back(EcsOp::Insert(entity, kind, component));
    }

    /// Queues removing the component of `kind` from `entity`.
    pub fn remove(&mut self, entity: EcsEntity, kind: ComponentKind)
        ensures
            final(self)@ == old(self)@.push(EcsOp::Remove(entity, kind)),
    {
        self.ops.push_back(EcsOp::Remove(entity, kind));
    }

    /// The queued changes, first queued first.
    pub fn into_ops(self) -> (ops: VecDeque<EcsOp<C>>)
        ensures
            ops@ == self@,
    {
        self.ops
    }
}

} // verus!
