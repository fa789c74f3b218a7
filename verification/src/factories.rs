//! Factories of a house: which one takes a unit order, and which one is the
//! primary (PRI) factory of its production category.

use vstd::prelude::*;

verus! {

/// A production queue as the factory rules read it.
#[derive(Clone, Copy, Debug, PartialEq, Eq, Structural)]
pub struct QueueState {
    /// The factory is its category's primary one.
    pub is_primary: bool,
    /// Its unit track is producing an item.
    pub busy: bool,
    /// It takes another unit order.
    pub can_enqueue: bool,
    /// Units in its track (in production and waiting).
    pub unit_len: usize,
}

/// A building as the factory rules read it.
#[derive(Clone, Copy, Debug, PartialEq, Eq, Structural)]
pub struct FactoryRecord {
    pub id: u64,
    /// Has health and is not dead.
    pub alive: bool,
    /// Owning house id, if any.
    pub owner: Option<u32>,
    /// Its identity says it is a structure.
    pub structure: bool,
    /// Production category of its type, when the type is a production
    /// factory.
    pub category: Option<u32>,
    /// Its production queue, if it has one.
    pub queue: Option<QueueState>,
}

/// Living structure of house `owner` whose type produces category `cat`.
pub open spec fn peer_of(f: FactoryRecord, owner: u32, cat: u32) -> bool {
    f.alive && f.owner == Some(owner) && f.structure && f.category == Some(cat)
}

/// The factory's queue is marked primary.
pub open spec fn is_primary(f: FactoryRecord) -> bool {
    f.queue matches Some(q) && q.is_primary
}

/// `f` with its primary mark set to `on` (no change without a queue).
pub open spec fn with_primary(f: FactoryRecord, on: bool) -> FactoryRecord {
    match f.queue {
        Some(q) => FactoryRecord { queue: Some(QueueState { is_primary: on, ..q }), ..f },
        None => f,
    }
}

/// Factory `f` takes a unit of category `cat` ordered by house `house`.
pub open spec fn takes_unit(f: FactoryRecord, house: u32, cat: u32) -> bool {
    peer_of(f, house, cat) && (f.queue matches Some(q) && q.can_enqueue)
}

/// Last factory taking the order that is primary and idle (`busy` false)
/// or primary and busy (`busy` true).
pub open spec fn last_primary(fs: Seq<FactoryRecord>, house: u32, cat: u32, busy: bool) -> Option<int>
    decreases fs.len(),
{
    if fs.len() == 0 {
        None
    } else {
        let f = fs.last();
        if takes_unit(f, house, cat) && f.queue.unwrap().is_primary && f.queue.unwrap().busy == busy {
            Some(fs.len() - 1)
        } else {
            last_primary(fs.drop_last(), house, cat, busy)
        }
    }
}

/// First idle factory taking the order that is not primary.
pub open spec fn first_idle(fs: Seq<FactoryRecord>, house: u32, cat: u32) -> Option<int>
    decreases fs.len(),
{
    if fs.len() == 0 {
        None
    } else {
        match first_idle(fs.drop_last(), house, cat) {
            Some(i) => Some(i),
            None => {
                let f = fs.last();
                if takes_unit(f, house, cat) && !f.queue.unwrap().is_primary && !f.queue.unwrap().busy {
                    Some(fs.len() - 1)
                } else {
                    None
                }
            },
        }
    }
}

/// First busy non-primary factory taking the order whose unit track is
/// shortest.
pub open spec fn shortest_busy(fs: Seq<FactoryRecord>, house: u32, cat: u32) -> Option<int>
    decreases fs.len(),
{
    if fs.len() == 0 {
        None
    } else {
        let b = shortest_busy(fs.drop_last(), house, cat);
        let f = fs.last();
        if takes_unit(f, house, cat) && !f.queue.unwrap().is_primary && f.queue.unwrap().busy && (match b {
            Some(j) => f.queue.unwrap().unit_len < fs[j].queue.unwrap().unit_len,
            None => true,
        }) {
            Some(fs.len() - 1)
        } else {
            b
        }
    }
}

/// Factory taking a unit order of house `house` (none: unknown house) and
/// production category `cat` (none: a building, or a class no factory
/// makes): the primary one, idle before busy; else an idle one; else the
/// busy one with the shortest unit track.
pub open spec fn enqueue_factory(fs: Seq<FactoryRecord>, house: Option<u32>, cat: Option<u32>) -> Option<int> {
    match (house, cat) {
        (Some(h), Some(c)) => match last_primary(fs, h, c, false) {
            Some(i) => Some(i),
            None => match last_primary(fs, h, c, true) {
                Some(i) => Some(i),
                None => match first_idle(fs, h, c) {
                    Some(i) => Some(i),
                    None => shortest_busy(fs, h, c),
                },
            },
        },
        _ => None,
    }
}

proof fn lemma_shortest_busy_in_range(fs: Seq<FactoryRecord>, house: u32, cat: u32)
    ensures
        shortest_busy(fs, house, cat) matches Some(j) ==> 0 <= j < fs.len() && takes_unit(fs[j], house, cat),
    decreases fs.len(),
{
    if fs.len() > 0 {
        lemma_shortest_busy_in_range(fs.drop_last(), house, cat);
    }
}

/// Index of the factory that takes a unit order (see [`enqueue_factory`]).
pub fn find_unit_factory_for_enqueue(fs: &[FactoryRecord], house: Option<u32>, cat: Option<u32>) -> (r: Option<usize>)
    ensures
        match r {
            Some(i) => enqueue_factory(fs@, house, cat) == Some(i as int),
            None => enqueue_factory(fs@, house, cat) is None,
        },
{
    let (h, c) = match (house, cat) {
        (Some(h), Some(c)) => (h, c),
        _ => {
            return None;
        },
    };
    let mut primary_idle: Option<usize> = None;
    let mut primary_busy: Option<usize> = None;
    let mut idle: Option<usize> = None;
    let mut best: Option<usize> = None;
    let mut best_len: usize = 0;
    let mut i: usize = 0;
    while i < fs.len()
        invariant
            i <= fs@.len(),
            match primary_idle {
                Some(j) => last_primary(fs@.take(i as int), h, c, false) == Some(j as int),
                None => last_primary(fs@.take(i as int), h, c, false) is None,
            },
            match primary_busy {
                Some(j) => last_primary(fs@.take(i as int), h, c, true) == Some(j as int),
                None => last_primary(fs@.take(i as int), h, c, true) is None,
            },
            match idle {
                Some(j) => first_idle(fs@.take(i as int), h, c) == Some(j as int),
                None => first_idle(fs@.take(i as int), h, c) is None,
            },
            match best {
                Some(j) => shortest_busy(fs@.take(i as int), h, c) == Some(j as int) && j < i && best_len
                    == fs@[j as int].queue.unwrap().unit_len,
                None => shortest_busy(fs@.take(i as int), h, c) is None,
            },
        decreases fs@.len() - i,
    {
        let f = fs[i];
        proof {
            let t = fs@.take(i + 1);
            assert(t.drop_last() =~= fs@.take(i as int));
            assert(t.last() == f);
            lemma_shortest_busy_in_range(fs@.take(i as int), h, c);
            if let Some(j) = best {
                assert(t[j as int] == fs@[j as int]);
            }
        }
        if f.alive && f.owner == Some(h) && f.structure && f.category == Some(c) {
            if let Some(q) = f.queue {
                if q.can_enqueue {
                    if q.is_primary {
                        if !q.busy {
                            primary_idle = Some(i);
                        } else {
                            primary_busy = Some(i);
                        }
                    } else if !q.busy {
                        if idle.is_none() {
                            idle = Some(i);
                        }
                    } else {
                        let better = match best {
                            Some(_) => q.unit_len < best_len,
                            None => true,
                        };
                        if better {
                            best = Some(i);
                            best_len = q.unit_len;
                        }
                    }
                }
            }
        }
        i = i + 1;
    }
    assert(fs@.take(i as int) =~= fs@);
    if primary_idle.is_some() {
        primary_idle
    } else if primary_busy.is_some() {
        primary_busy
    } else if idle.is_some() {
        idle
    } else {
        best
    }
}

/// Some other living factory of the same house and category as `fs[i]` is
/// primary already.
pub open spec fn has_other_primary(fs: Seq<FactoryRecord>, i: int, owner: u32, cat: u32) -> bool {
    exists|j: int| 0 <= j < fs.len() && (#[trigger] fs[j]).id != fs[i].id && peer_of(fs[j], owner, cat) && is_primary(fs[j])
}

/// The factories after a new factory `fs[i]` was checked in: a living
/// production structure with an owner becomes primary when its house has no
/// primary factory of its category yet.
pub open spec fn assigned(fs: Seq<FactoryRecord>, i: int) -> Seq<FactoryRecord> {
    let f = fs[i];
    if f.structure && f.alive && f.category is Some && f.owner is Some && !has_other_primary(
        fs,
        i,
        f.owner.unwrap(),
        f.category.unwrap(),
    ) {
        fs.update(i, with_primary(f, true))
    } else {
        fs
    }
}

fn with_primary_flag(f: FactoryRecord, on: bool) -> (r: FactoryRecord)
    ensures
        r == with_primary(f, on),
{
    match f.queue {
        Some(q) => FactoryRecord { queue: Some(QueueState { is_primary: on, ..q }), ..f },
        None => f,
    }
}

/// Marks factory `i` primary when its house has no primary factory of its
/// category yet (see [`assigned`]).
pub fn maybe_assign_primary_factory(fs: &mut Vec<FactoryRecord>, i: usize)
    requires
        i < old(fs)@.len(),
    ensures
        final(fs)@ == assigned(old(fs)@, i as int),
{
    let f = fs[i];
    if !f.structure || !f.alive {
        return;
    }
    let (owner, cat) = match (f.owner, f.category) {
        (Some(o), Some(c)) => (o, c),
        _ => {
            return;
        },
    };
    let mut j: usize = 0;
    while j < fs.len()
        invariant
            j <= fs@.len(),
            fs@ == old(fs)@,
            i < fs@.len(),
            f == fs@[i as int],
            f.structure && f.alive,
            f.owner == Some(owner),
            f.category == Some(cat),
            forall|k: int| 0 <= k < j ==> !((#[trigger] fs@[k]).id != f.id && peer_of(fs@[k], owner, cat) && is_primary(fs@[k])),
        decreases fs@.len() - j,
    {
        let g = fs[j];
        if g.id != f.id && g.alive && g.owner == Some(owner) && g.structure && g.category == Some(cat) {
            if let Some(q) = g.queue {
                if q.is_primary {
                    proof {
                        assert(fs@[j as int] == g);
                        assert(has_other_primary(old(fs)@, i as int, owner, cat));
                    }
                    return;
                }
            }
        }
        j = j + 1;
    }
    let g = with_primary_flag(f, true);
    fs.set(i, g);
}

/// First living structure other than `fs[i]` of house `owner` producing
/// category `cat`.
pub open spec fn successor(fs: Seq<FactoryRecord>, id: u64, owner: u32, cat: u32) -> Option<int>
    decreases fs.len(),
{
    if fs.len() == 0 {
        None
    } else {
        match successor(fs.drop_last(), id, owner, cat) {
            Some(j) => Some(j),
            None => if fs.last().id != id && peer_of(fs.last(), owner, cat) {
                Some(fs.len() - 1)
            } else {
                None
            },
        }
    }
}

/// The factories after factory `fs[i]` was lost: a production factory drops
/// its primary mark; when it was primary and has an owner, the first other
/// living factory of its house and category becomes primary.
pub open spec fn reassigned(fs: Seq<FactoryRecord>, i: int) -> Seq<FactoryRecord> {
    let f = fs[i];
    match f.category {
        None => fs,
        Some(cat) => {
            let fs1 = fs.update(i, with_primary(f, false));
            if !is_primary(f) {
                fs1
            } else {
                match f.owner {
                    None => fs1,
                    Some(owner) => match successor(fs1, f.id, owner, cat) {
                        Some(j) => fs1.update(j, with_primary(fs1[j], true)),
                        None => fs1,
                    },
                }
            }
        },
    }
}

proof fn lemma_successor_in_range(fs: Seq<FactoryRecord>, id: u64, owner: u32, cat: u32)
    ensures
        successor(fs, id, owner, cat) matches Some(j) ==> 0 <= j < fs.len(),
    decreases fs.len(),
{
    if fs.len() > 0 {
        lemma_successor_in_range(fs.drop_last(), id, owner, cat);
    }
}

/// Hands the primary mark of lost factory `i` on (see [`reassigned`]).
pub fn reassign_primary_after_factory_lost(fs: &mut Vec<FactoryRecord>, i: usize)
    requires
        i < old(fs)@.len(),
    ensures
        final(fs)@ == reassigned(old(fs)@, i as int),
{
    let f = fs[i];
    let cat = match f.category {
        Some(c) => c,
        None => {
            return;
        },
    };
    let was_primary = match f.queue {
        Some(q) => q.is_primary,
        None => false,
    };
    let cleared = with_primary_flag(f, false);
    fs.set(i, cleared);
    if !was_primary {
        return;
    }
    let owner = match f.owner {
        Some(o) => o,
        None => {
            return;
        },
    };
    let ghost fs1 = fs@;
    let mut j: usize = 0;
    while j < fs.len()
        invariant
            j <= fs@.len(),
            fs@ == fs1,
            i < old(fs)@.len(),
            f == old(fs)@[i as int],
            fs1 == old(fs)@.update(i as int, with_primary(f, false)),
            f.category == Some(cat),
            f.owner == Some(owner),
            is_primary(f),
            successor(fs1.take(j as int), f.id, owner, cat) is None,
        decreases fs@.len() - j,
    {
        let g = fs[j];
        proof {
            assert(fs1.take(j + 1).drop_last() =~= fs1.take(j as int));
            assert(fs1.take(j + 1).last() == g);
        }
        if g.id != f.id && g.alive && g.owner == Some(owner) && g.structure && g.category == Some(cat) {
            proof {
                assert(successor(fs1.take(j + 1), f.id, owner, cat) == Some(j as int));
                lemma_successor_prefix(fs1, f.id, owner, cat, j + 1);
                assert(fs1[j as int] == g);
            }
            let h = with_primary_flag(g, true);
            fs.set(j, h);
            return;
        }
        j = j + 1;
    }
    assert(fs1.take(j as int) =~= fs1);
}

proof fn lemma_successor_prefix(fs: Seq<FactoryRecord>, id: u64, owner: u32, cat: u32, k: int)
    requires
        0 <= k <= fs.len(),
        successor(fs.take(k), id, owner, cat) is Some,
    ensures
        successor(fs, id, owner, cat) == successor(fs.take(k), id, owner, cat),
    decreases fs.len() - k,
{
    if k < fs.len() {
        assert(fs.take(k + 1).drop_last() =~= fs.take(k));
        lemma_successor_prefix(fs, id, owner, cat, k + 1);
    } else {
        assert(fs.take(k) =~= fs);
    }
}

/// Factory `fs[i]` can be made primary: a living production structure with
/// an owner.
pub open spec fn can_be_primary(f: FactoryRecord) -> bool {
    f.structure && f.alive && f.category is Some && f.owner is Some
}

/// The factories after `fs[i]` was made the sole primary of its house and
/// category: every living factory of that house and category is marked
/// primary exactly when it is `fs[i]`.
pub open spec fn with_sole_primary(fs: Seq<FactoryRecord>, i: int) -> Seq<FactoryRecord> {
    let f = fs[i];
    fs.map_values(
        |g: FactoryRecord|
            if peer_of(g, f.owner.unwrap(), f.category.unwrap()) {
                with_primary(g, g.id == f.id)
            } else {
                g
            },
    )
}

/// Makes factory `i` the only primary factory of its house and category;
/// `false` (and no change) when it cannot be primary.
pub fn set_primary_factory(fs: &mut Vec<FactoryRecord>, i: usize) -> (ok: bool)
    requires
        i < old(fs)@.len(),
    ensures
        ok == can_be_primary(old(fs)@[i as int]),
        ok ==> final(fs)@ == with_sole_primary(old(fs)@, i as int),
        !ok ==> final(fs)@ == old(fs)@,
{
    let f = fs[i];
    if !f.structure || !f.alive {
        return false;
    }
    let (owner, cat) = match (f.owner, f.category) {
        (Some(o), Some(c)) => (o, c),
        _ => {
            return false;
        },
    };
    let ghost fs0 = fs@;
    let mut j: usize = 0;
    while j < fs.len()
        invariant
            j <= fs@.len(),
            fs@.len() == fs0.len(),
            fs0 == old(fs)@,
            i < fs0.len(),
            f == fs0[i as int],
            f.owner == Some(owner),
            f.category == Some(cat),
            forall|k: int| 0 <= k < j ==> #[trigger] fs@[k] == with_sole_primary(fs0, i as int)[k],
            forall|k: int| j <= k < fs@.len() ==> #[trigger] fs@[k] == fs0[k],
        decreases fs@.len() - j,
    {
        let g = fs[j];
        if g.alive && g.owner == Some(owner) && g.structure && g.category == Some(cat) {
            let h = with_primary_flag(g, g.id == f.id);
            fs.set(j, h);
        }
        j = j + 1;
    }
    assert(fs@ =~= with_sole_primary(fs0, i as int));
    true
}

/// No house has two living primary factories of one category.
pub open spec fn single_primary(fs: Seq<FactoryRecord>) -> bool {
    forall|j: int, k: int|
        #![trigger is_primary(fs[j]), is_primary(fs[k])]
        0 <= j < fs.len() && 0 <= k < fs.len() && fs[j].alive && fs[k].alive && fs[j].structure && fs[k].structure
            && fs[j].owner is Some && fs[j].owner == fs[k].owner && fs[j].category is Some && fs[j].category
            == fs[k].category && is_primary(fs[j]) && is_primary(fs[k]) ==> j == k
}

/// Entity ids are distinct.
pub open spec fn distinct_ids(fs: Seq<FactoryRecord>) -> bool {
    forall|j: int, k: int| 0 <= j < fs.len() && 0 <= k < fs.len() && j != k ==> #[trigger] fs[j].id != #[trigger] fs[k].id
}

/// Checking a new factory in keeps at most one primary factory per house
/// and category.
pub proof fn law_assign_keeps_single_primary(fs: Seq<FactoryRecord>, i: int)
    requires
        0 <= i < fs.len(),
        distinct_ids(fs),
        single_primary(fs),
    ensures
        single_primary(assigned(fs, i)),
{
    let r = assigned(fs, i);
    assert forall|j: int, k: int|
        #![trigger is_primary(r[j]), is_primary(r[k])]
        0 <= j < r.len() && 0 <= k < r.len() && r[j].alive && r[k].alive && r[j].structure && r[k].structure
            && r[j].owner is Some && r[j].owner == r[k].owner && r[j].category is Some && r[j].category
            == r[k].category && is_primary(r[j]) && is_primary(r[k]) implies j == k by {
        if r != fs {
            if j == i && k != i {
                assert(fs[k].id != fs[i].id);
                assert(r[k] == fs[k]);
            } else if k == i && j != i {
                assert(fs[j].id != fs[i].id);
                assert(r[j] == fs[j]);
            } else if j != i && k != i {
                assert(r[j] == fs[j]);
                assert(r[k] == fs[k]);
            }
        }
    }
}

/// Making a factory the sole primary keeps at most one primary factory per
/// house and category.
pub proof fn law_set_primary_keeps_single_primary(fs: Seq<FactoryRecord>, i: int)
    requires
        0 <= i < fs.len(),
        distinct_ids(fs),
        single_primary(fs),
        can_be_primary(fs[i]),
    ensures
        single_primary(with_sole_primary(fs, i)),
{
    let r = with_sole_primary(fs, i);
    let f = fs[i];
    assert forall|j: int, k: int|
        #![trigger is_primary(r[j]), is_primary(r[k])]
        0 <= j < r.len() && 0 <= k < r.len() && r[j].alive && r[k].alive && r[j].structure && r[k].structure
            && r[j].owner is Some && r[j].owner == r[k].owner && r[j].category is Some && r[j].category
            == r[k].category && is_primary(r[j]) && is_primary(r[k]) implies j == k by {
        let pj = peer_of(fs[j], f.owner.unwrap(), f.category.unwrap());
        let pk = peer_of(fs[k], f.owner.unwrap(), f.category.unwrap());
        if pj && pk {
            assert(fs[j].id == f.id);
            assert(fs[k].id == f.id);
        } else if pj && !pk {
            assert(r[k] == fs[k]);
            assert(r[j].owner == fs[j].owner && r[j].category == fs[j].category);
        } else if !pj && pk {
            assert(r[j] == fs[j]);
            assert(r[k].owner == fs[k].owner && r[k].category == fs[k].category);
        } else {
            assert(r[j] == fs[j]);
            assert(r[k] == fs[k]);
        }
    }
}

} // verus!
