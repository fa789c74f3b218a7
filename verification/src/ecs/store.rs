//! Sparse-set storage for one component kind: `sparse[slot]` is the index of
//! the slot's entry in the parallel dense arrays.

use vstd::prelude::*;

use super::entity::EcsEntity;

verus! {

/// The sparse set of one component kind.
#[derive(Debug, Clone)]
pub struct ComponentStore<T> {
    dense: Vec<T>,
    entities: Vec<EcsEntity>,
    /// `slot -> dense index`; `None` for a slot without this component.
    sparse: Vec<Option<u32>>,
}

/// A sequence of entities whose slots are pairwise distinct, all below `n`
/// and all different from `missing`, is shorter than `n`.
proof fn lemma_distinct_slots_fit(ents: Seq<EcsEntity>, n: int, missing: int)
    requires
        0 <= missing < n,
        forall|i: int|
            0 <= i < ents.len() ==> (#[trigger] ents[i]).slot < n && ents[i].slot != missing,
        forall|i: int, j: int|
            0 <= i < ents.len() && 0 <= j < ents.len() && i != j ==> (#[trigger] ents[i]).slot
                != (#[trigger] ents[j]).slot,
    ensures
        ents.len() < n,
{
    let slots = ents.map_values(|e: EcsEntity| e.slot as int);
    assert(slots.no_duplicates()) by {
        assert forall|i: int, j: int|
            0 <= i < slots.len() && 0 <= j < slots.len() && i != j implies slots[i] != slots[j] by {
            assert(ents[i].slot != ents[j].slot);
        }
    }
    slots.unique_seq_to_set();
    let range = vstd::set_lib::set_int_range(0, n).remove(missing);
    vstd::set_lib::lemma_int_range(0, n);
    assert(slots.to_set().subset_of(range)) by {
        assert forall|x: int| slots.to_set().contains(x) implies range.contains(x) by {
            let i = choose|i: int| 0 <= i < slots.len() && slots[i] == x;
            assert(ents[i].slot < n);
        }
    }
    vstd::set_lib::lemma_len_subset(slots.to_set(), range);
}

/// A copy of `v`, element for element.
pub fn copy_vec<T: Copy>(v: &Vec<T>) -> (r: Vec<T>)
    ensures
        r@ == v@,
{
    let mut r: Vec<T> = Vec::new();
    let mut i: usize = 0;
    while i < v.len()
        invariant
            i <= v@.len(),
            r@ == v@.take(i as int),
        decreases v@.len() - i,
    {
        r.push(v[i]);
        assert(r@ =~= v@.take(i + 1));
        i = i + 1;
    }
    assert(v@.take(i as int) =~= v@);
    r
}

impl<T> ComponentStore<T> {
    /// Internal consistency of the sparse set: every dense entry is indexed
    /// by its entity's slot, and every indexed slot points back at an entry
    /// holding that slot.
    pub closed spec fn wf(&self) -> bool {
        &&& self.dense@.len() == self.entities@.len()
        &&& self.sparse@.len() <= u32::MAX as int + 1
        &&& self.entities@.len() <= self.sparse@.len()
        &&& forall|i: int|
            #![trigger self.entities@[i]]
            0 <= i < self.entities@.len() ==> {
                &&& (self.entities@[i].slot as int) < self.sparse@.len()
                &&& self.sparse@[self.entities@[i].slot as int] == Some(i as u32)
            }
        &&& forall|s: int|
            #![trigger self.sparse@[s]]
            0 <= s < self.sparse@.len() && self.sparse@[s] is Some ==> {
                &&& (self.sparse@[s]->0 as int) < self.entities@.len()
                &&& self.entities@[self.sparse@[s]->0 as int].slot == s
            }
    }

    /// Contents by slot: the entity handle stored for the slot and its value.
    pub closed spec fn view(&self) -> Map<u32, (EcsEntity, T)> {
        Map::new(
            |s: u32| (s as int) < self.sparse@.len() && self.sparse@[s as int] is Some,
            |s: u32|
                {
                    let i = self.sparse@[s as int]->0 as int;
                    (self.entities@[i], self.dense@[i])
                },
        )
    }

    /// The entries in dense order, as handle/value pairs.
    pub closed spec fn entries(&self) -> Seq<(EcsEntity, T)> {
        Seq::new(self.dense@.len(), |i: int| (self.entities@[i], self.dense@[i]))
    }

    /// Whether `entity` (slot and generation) has a value here.
    pub open spec fn holds(&self, entity: EcsEntity) -> bool {
        self@.contains_key(entity.slot) && self@[entity.slot].0 == entity
    }

    proof fn lemma_wf_facts(&self)
        requires
            self.wf(),
        ensures
            forall|i: int| #![trigger self.entities@[i]]
                0 <= i < self.entities@.len() ==> self@.contains_key(self.entities@[i].slot)
                    && self@[self.entities@[i].slot] == (self.entities@[i], self.dense@[i]),
            forall|s: u32| #[trigger] self@.contains_key(s) ==> {
                let i = self.sparse@[s as int]->0 as int;
                &&& 0 <= i < self.entities@.len()
                &&& self.entities@[i].slot == s
            },
            self.entities@.len() <= u32::MAX as int + 1,
    {
        assert forall|i: int| #![trigger self.entities@[i]]
            0 <= i < self.entities@.len() implies self@.contains_key(self.entities@[i].slot)
                && self@[self.entities@[i].slot] == (self.entities@[i], self.dense@[i]) by {
            let s = self.entities@[i].slot;
            assert(self.sparse@[s as int] == Some(i as u32));
            assert((i as u32) as int == i) by {
                assert(i < self.sparse@.len());
            }
        }
        assert forall|s: u32| #[trigger] self@.contains_key(s) implies {
            let i = self.sparse@[s as int]->0 as int;
            &&& 0 <= i < self.entities@.len()
            &&& self.entities@[i].slot == s
        } by {
            assert(self.sparse@[s as int] is Some);
        }
    }

    /// Each stored handle sits under its own slot.
    pub proof fn lemma_keys_match(&self)
        requires
            self.wf(),
        ensures
            forall|s: u32| #[trigger] self@.contains_key(s) ==> self@[s].0.slot == s,
    {
        self.lemma_wf_facts();
    }

    /// A copy of the store, entry for entry.
    pub fn copy(&self) -> (c: Self)
        where
            T: Copy,
        ensures
            c@ == self@,
            c.wf() == self.wf(),
    {
        let c = ComponentStore {
            dense: copy_vec(&self.dense),
            entities: copy_vec(&self.entities),
            sparse: copy_vec(&self.sparse),
        };
        assert(c@ =~= self@);
        c
    }

    /// An empty store.
    pub fn new() -> (store: Self)
        ensures
            store.wf(),
            store@ == Map::<u32, (EcsEntity, T)>::empty(),
    {
        let store = ComponentStore { dense: Vec::new(), entities: Vec::new(), sparse: Vec::new() };
        assert(store@ =~= Map::<u32, (EcsEntity, T)>::empty());
        store
    }

    /// Number of stored values.
    pub fn len(&self) -> (n: usize)
        requires
            self.wf(),
        ensures
            n == self@.len(),
            n == self.entries().len(),
    {
        proof {
            self.lemma_view_len();
        }
        self.dense.len()
    }

    proof fn lemma_view_len(&self)
        requires
            self.wf(),
        ensures
            self@.dom().finite(),
            self@.len() == self.dense@.len(),
    {
        self.lemma_wf_facts();
        let slots = self.entities@.map_values(|e: EcsEntity| e.slot);
        assert(slots.no_duplicates()) by {
            assert forall|i: int, j: int|
                0 <= i < slots.len() && 0 <= j < slots.len() && i != j implies slots[i]
                != slots[j] by {
                assert(self.sparse@[self.entities@[i].slot as int] == Some(i as u32));
                assert(self.sparse@[self.entities@[j].slot as int] == Some(j as u32));
            }
        }
        slots.unique_seq_to_set();
        assert(self@.dom() =~= slots.to_set()) by {
            assert forall|s: u32| self@.dom().contains(s) implies slots.to_set().contains(s) by {
                let i = self.sparse@[s as int]->0 as int;
                assert(slots[i] == s);
            }
            assert forall|s: u32| slots.to_set().contains(s) implies self@.dom().contains(s) by {
                let i = choose|i: int| 0 <= i < slots.len() && slots[i] == s;
                assert(self.entities@[i].slot == s);
            }
        }
    }

    /// Grows the slot index so that `slot` can be indexed; contents unchanged.
    fn ensure_sparse(&mut self, slot: u32)
        requires
            old(self).wf(),
        ensures
            final(self).wf(),
            final(self)@ == old(self)@,
            final(self).entries() == old(self).entries(),
            (slot as int) < final(self).sparse@.len(),
    {
        let ghost old_sparse = self.sparse@;
        while self.sparse.len() <= slot as usize
            invariant
                self.dense@ == old(self).dense@,
                self.entities@ == old(self).entities@,
                old_sparse == old(self).sparse@,
                old(self).wf(),
                self.sparse@.len() <= u32::MAX as int + 1,
                self.sparse@.len() >= old_sparse.len(),
                self.sparse@.len() <= slot as int + 1 || self.sparse@.len() == old_sparse.len(),
                forall|s: int| 0 <= s < old_sparse.len() ==> self.sparse@[s] == old_sparse[s],
                forall|s: int| old_sparse.len() <= s < self.sparse@.len() ==> self.sparse@[s] is None,
            decreases slot as int + 1 - self.sparse@.len(),
        {
            self.sparse.push(None);
        }
        assert(self.wf()) by {
            assert forall|s: int| #![trigger self.sparse@[s]]
                0 <= s < self.sparse@.len() && self.sparse@[s] is Some implies {
                    &&& (self.sparse@[s]->0 as int) < self.entities@.len()
                    &&& self.entities@[self.sparse@[s]->0 as int].slot == s
                } by {
                assert(s < old_sparse.len());
                assert(old_sparse[s] is Some);
            }
        }
        assert(self@ =~= old(self)@);
        assert(self.entries() =~= old(self).entries());
    }

    /// Writes `value` for `entity`'s slot and returns the value it replaced.
    pub fn insert(&mut self, entity: EcsEntity, value: T) -> (replaced: Option<T>)
        requires
            old(self).wf(),
        ensures
            final(self).wf(),
            final(self)@ == old(self)@.insert(entity.slot, (entity, value)),
            replaced == (if old(self)@.contains_key(entity.slot) {
                Some(old(self)@[entity.slot].1)
            } else {
                None
            }),
    {
        proof {
            self.lemma_wf_facts();
        }
        self.ensure_sparse(entity.slot);
        let ghost before = self@;
        let ghost pre = *self;
        proof {
            pre.lemma_wf_facts();
        }
        let s = entity.slot as usize;
        match self.sparse[s] {
            Some(idx) => {
                let mut v = value;
                std::mem::swap(&mut self.dense[idx as usize], &mut v);
                self.entities.set(idx as usize, entity);
                proof {
                    assert forall|i: int| #![trigger self.entities@[i]]
                        0 <= i < self.entities@.len() implies {
                            &&& (self.entities@[i].slot as int) < self.sparse@.len()
                            &&& self.sparse@[self.entities@[i].slot as int] == Some(i as u32)
                        } by {
                        if i != idx as int {
                            assert(pre.entities@[i] == self.entities@[i]);
                        }
                    }
                    assert(self@ =~= before.insert(entity.slot, (entity, value)));
                }
                Some(v)
            },
            None => {
                proof {
                    lemma_distinct_slots_fit(pre.entities@, pre.sparse@.len() as int, s as int);
                }
                let idx = self.dense.len() as u32;
                self.dense.push(value);
                self.entities.push(entity);
                self.sparse.set(s, Some(idx));
                proof {
                    assert forall|s2: int| #![trigger self.sparse@[s2]]
                        0 <= s2 < self.sparse@.len() && self.sparse@[s2] is Some implies {
                            &&& (self.sparse@[s2]->0 as int) < self.entities@.len()
                            &&& self.entities@[self.sparse@[s2]->0 as int].slot == s2
                        } by {
                        if s2 != s as int {
                            assert(pre.sparse@[s2] is Some);
                        }
                    }
                    assert(self@ =~= before.insert(entity.slot, (entity, value)));
                }
                None
            },
        }
    }

    /// Removes the value of exactly `entity` (slot and generation); any other
    /// handle leaves the store unchanged.
    pub fn remove(&mut self, entity: EcsEntity) -> (removed: Option<T>)
        requires
            old(self).wf(),
        ensures
            final(self).wf(),
            old(self).holds(entity) ==> removed == Some(old(self)@[entity.slot].1) && final(self)@
                == old(self)@.remove(entity.slot),
            !old(self).holds(entity) ==> removed is None && final(self)@ == old(self)@,
    {
        proof {
            self.lemma_wf_facts();
        }
        let slot = entity.slot as usize;
        if slot >= self.sparse.len() {
            return None;
        }
        let idx = match self.sparse[slot] {
            Some(i) => i as usize,
            None => {
                return None;
            },
        };
        if self.entities[idx] != entity {
            return None;
        }
        let removed = self.take_at(idx, entity.slot);
        Some(removed)
    }

    /// Removes the dense entry `idx` (held by slot `slot`) by swapping the
    /// last entry into its place.
    fn take_at(&mut self, idx: usize, slot: u32) -> (removed: T)
        requires
            old(self).wf(),
            idx < old(self).entities@.len(),
            old(self).entities@[idx as int].slot == slot,
        ensures
            final(self).wf(),
            old(self)@.contains_key(slot),
            removed == old(self)@[slot].1,
            final(self)@ == old(self)@.remove(slot),
    {
        let ghost pre = *self;
        let ghost before = self@;
        proof {
            pre.lemma_wf_facts();
        }
        let removed = self.dense.swap_remove(idx);
        self.entities.swap_remove(idx);
        self.sparse.set(slot as usize, None);
        if idx < self.dense.len() {
            let moved = self.entities[idx];
            self.sparse.set(moved.slot as usize, Some(idx as u32));
            proof {
                let last = pre.entities@.len() - 1;
                assert(moved == pre.entities@[last]);
                assert(moved.slot != slot) by {
                    assert(pre.sparse@[moved.slot as int] == Some(last as u32));
                    assert(pre.sparse@[slot as int] == Some(idx as u32));
                }
                assert forall|i: int| #![trigger self.entities@[i]]
                    0 <= i < self.entities@.len() implies {
                        &&& (self.entities@[i].slot as int) < self.sparse@.len()
                        &&& self.sparse@[self.entities@[i].slot as int] == Some(i as u32)
                    } by {
                    if i != idx as int {
                        assert(self.entities@[i] == pre.entities@[i]);
                        assert(pre.sparse@[pre.entities@[i].slot as int] == Some(i as u32));
                        assert(pre.entities@[i].slot != slot);
                        assert(pre.entities@[i].slot != moved.slot);
                    }
                }
                assert forall|s: int| #![trigger self.sparse@[s]]
                    0 <= s < self.sparse@.len() && self.sparse@[s] is Some implies {
                        &&& (self.sparse@[s]->0 as int) < self.entities@.len()
                        &&& self.entities@[self.sparse@[s]->0 as int].slot == s
                    } by {
                    if s != slot as int && s != moved.slot as int {
                        let j = pre.sparse@[s]->0 as int;
                        assert(pre.sparse@[s] is Some);
                        assert(j != idx as int);
                        assert(j != last);
                    }
                }
                assert(self@ =~= before.remove(slot)) by {
                    assert forall|k: u32| #[trigger] self@.contains_key(k) implies before.remove(
                        slot,
                    ).contains_key(k) && self@[k] == before.remove(slot)[k] by {
                        if k != moved.slot {
                            let j = pre.sparse@[k as int]->0 as int;
                            assert(j != last);
                        }
                    }
                }
            }
        } else {
            proof {
                assert forall|s: int| #![trigger self.sparse@[s]]
                    0 <= s < self.sparse@.len() && self.sparse@[s] is Some implies {
                        &&& (self.sparse@[s]->0 as int) < self.entities@.len()
                        &&& self.entities@[self.sparse@[s]->0 as int].slot == s
                    } by {
                    assert(pre.sparse@[s] is Some);
                    let j = pre.sparse@[s]->0 as int;
                    assert(j != idx as int);
                }
                assert(self@ =~= before.remove(slot));
            }
        }
        removed
    }

    /// Reads the value of exactly `entity` (slot and generation).
    pub fn get(&self, entity: EcsEntity) -> (r: Option<&T>)
        requires
            self.wf(),
        ensures
            self.holds(entity) ==> r == Some(&self@[entity.slot].1),
            !self.holds(entity) ==> r is None,
    {
        proof {
            self.lemma_wf_facts();
        }
        let slot = entity.slot as usize;
        if slot >= self.sparse.len() {
            return None;
        }
        match self.sparse[slot] {
            Some(i) => {
                let idx = i as usize;
                if self.entities[idx] != entity {
                    return None;
                }
                Some(&self.dense[idx])
            },
            None => None,
        }
    }

    /// Mutable access to the value of exactly `entity` (slot and generation).
    pub fn get_mut(&mut self, entity: EcsEntity) -> (r: Option<&mut T>)
        requires
            old(self).wf(),
        ensures
            old(self).holds(entity) ==> r is Some && *r->0 == old(self)@[entity.slot].1,
            old(self).holds(entity) ==> final(self).wf() && final(self)@ == old(self)@.insert(
                entity.slot,
                (entity, *final(r->0)),
            ),
            !old(self).holds(entity) ==> r is None && *final(self) == *old(self),
    {
        proof {
            self.lemma_wf_facts();
        }
        let slot = entity.slot as usize;
        if slot >= self.sparse.len() {
            return None;
        }
        match self.sparse[slot] {
            Some(i) => {
                let idx = i as usize;
                if self.entities[idx] != entity {
                    return None;
                }
                Some(&mut self.dense[idx])
            },
            None => None,
        }
    }

    /// The entries in dense order (handle and value).
    pub fn iter(&self) -> (items: Vec<(EcsEntity, &T)>)
        requires
            self.wf(),
        ensures
            items@.len() == self.entries().len(),
            forall|i: int|
                0 <= i < items@.len() ==> (#[trigger] items@[i]).0 == self.entries()[i].0
                    && *items@[i].1 == self.entries()[i].1,
    {
        let mut items: Vec<(EcsEntity, &T)> = Vec::new();
        let n = self.dense.len();
        let mut i: usize = 0;
        while i < n
            invariant
                n == self.dense@.len(),
                self.wf(),
                i <= n,
                items@.len() == i,
                forall|j: int|
                    0 <= j < i ==> (#[trigger] items@[j]).0 == self.entries()[j].0 && *items@[j].1
                        == self.entries()[j].1,
            decreases n - i,
        {
            items.push((self.entities[i], &self.dense[i]));
            i += 1;
        }
        items
    }

    /// Every entry appears in dense order exactly once: the entries, read as
    /// slot-keyed pairs, are the store's contents.
    pub proof fn lemma_entries_are_contents(&self)
        requires
            self.wf(),
        ensures
            forall|i: int|
                0 <= i < self.entries().len() ==> self@.contains_key(
                    (#[trigger] self.entries()[i]).0.slot,
                ) && self@[self.entries()[i].0.slot] == self.entries()[i],
            forall|s: u32|
                #[trigger] self@.contains_key(s) ==> exists|i: int|
                    0 <= i < self.entries().len() && self.entries()[i].0.slot == s,
            forall|i: int, j: int|
                0 <= i < self.entries().len() && 0 <= j < self.entries().len() && i != j ==> (
                #[trigger] self.entries()[i]).0.slot != (#[trigger] self.entries()[j]).0.slot,
    {
        self.lemma_wf_facts();
        assert forall|i: int, j: int|
            0 <= i < self.entries().len() && 0 <= j < self.entries().len() && i != j implies (
            #[trigger] self.entries()[i]).0.slot != (#[trigger] self.entries()[j]).0.slot by {
            assert(self.sparse@[self.entities@[i].slot as int] == Some(i as u32));
            assert(self.sparse@[self.entities@[j].slot as int] == Some(j as u32));
        }
        assert forall|i: int|
            0 <= i < self.entries().len() implies self@.contains_key(
                (#[trigger] self.entries()[i]).0.slot,
            ) && self@[self.entries()[i].0.slot] == self.entries()[i] by {
            assert(self.entities@[i] == self.entries()[i].0);
        }
        assert forall|s: u32| #[trigger] self@.contains_key(s) implies exists|i: int|
            0 <= i < self.entries().len() && self.entries()[i].0.slot == s by {
            let i = self.sparse@[s as int]->0 as int;
            assert(self.entries()[i].0.slot == s);
        }
    }

    /// Drops whatever value the slot holds, whichever generation wrote it.
    pub fn clear_slot(&mut self, slot: u32)
        requires
            old(self).wf(),
        ensures
            final(self).wf(),
            final(self)@ == old(self)@.remove(slot),
    {
        proof {
            self.lemma_wf_facts();
        }
        if slot as usize >= self.sparse.len() {
            assert(self@ =~= old(self)@.remove(slot));
            return;
        }
        let idx = match self.sparse[slot as usize] {
            Some(i) => i as usize,
            None => {
                assert(self@ =~= old(self)@.remove(slot));
                return;
            },
        };
        let entity = self.entities[idx];
        if entity.slot != slot {
            return;
        }
        let _ = self.take_at(idx, slot);
    }
}

} // verus!
