//! Skirmish `Unit Count`: the free starting units of a side, alternating
//! the cheapest infantry and the cheapest vehicle it may start with.

use vstd::prelude::*;

use crate::command_checks::TechnoClass;
use crate::key_order::{compare_keys, key_lt, lemma_key_order, KeyOrder};

verus! {

/// A producible type as the starting pools read it.
#[derive(Clone, Debug)]
pub struct StartCandidate {
    pub id: u32,
    pub class: TechnoClass,
    pub naval: bool,
    /// `AllowedToStartInMultiplayer=`.
    pub allowed_to_start: bool,
    /// A base unit (MCV and the like).
    pub base_unit: bool,
    pub tech_level: i32,
    /// Its `Owner=`, required and forbidden houses let the house have it.
    pub owner_ok: bool,
    pub cost: i32,
    pub type_key: String,
}

/// A pool entry as plain values.
pub struct StartView {
    pub id: u32,
    pub cost: i32,
    pub key: Seq<char>,
}

/// A candidate as a pool entry.
pub open spec fn start_view(c: StartCandidate) -> StartView {
    StartView { id: c.id, cost: c.cost, key: c.type_key@ }
}

/// The candidates as pool entries.
pub open spec fn start_views(cs: Seq<StartCandidate>) -> Seq<StartView> {
    cs.map_values(|c: StartCandidate| start_view(c))
}

/// A candidate may start for a house of tech level `tech` in pool `class`:
/// a land type of that class allowed to start, not a base unit, of a tech
/// level from 0 to `tech`, and allowed for the house.
pub open spec fn starts_in(c: StartCandidate, tech: i32, class: TechnoClass) -> bool {
    &&& c.class == class
    &&& !c.naval
    &&& c.allowed_to_start
    &&& !c.base_unit
    &&& 0 <= c.tech_level <= tech
    &&& c.owner_ok
}

/// The candidates of pool `class`, in order.
pub open spec fn pool_of(cs: Seq<StartCandidate>, tech: i32, class: TechnoClass) -> Seq<StartView>
    decreases cs.len(),
{
    if cs.len() == 0 {
        Seq::empty()
    } else {
        let rest = pool_of(cs.drop_last(), tech, class);
        if starts_in(cs.last(), tech, class) {
            rest.push(start_view(cs.last()))
        } else {
            rest
        }
    }
}

/// `a` comes before `b`: it is cheaper, or as cheap with a smaller key.
pub open spec fn start_before(a: StartView, b: StartView) -> bool {
    a.cost < b.cost || (a.cost == b.cost && key_lt(a.key, b.key))
}

/// Entries in (cost, key) order.
pub open spec fn start_sorted(s: Seq<StartView>) -> bool {
    forall|i: int, j: int| 0 <= i < j < s.len() ==> !start_before(#[trigger] s[j], #[trigger] s[i])
}

proof fn lemma_start_order(a: StartView, b: StartView, c: StartView)
    ensures
        !start_before(a, a),
        !(start_before(a, b) && start_before(b, a)),
        start_before(a, b) && start_before(b, c) ==> start_before(a, c),
        !start_before(a, b) && !start_before(b, a) ==> a.cost == b.cost && a.key == b.key,
{
    lemma_key_order(a.key, b.key, c.key);
    lemma_key_order(a.key, a.key, a.key);
    lemma_key_order(b.key, a.key, c.key);
}

/// Index of the first entry that `x` comes before.
fn first_after(out: &Vec<StartCandidate>, x: &StartCandidate) -> (p: usize)
    ensures
        p <= out@.len(),
        forall|q: int| 0 <= q < p ==> !start_before(start_view(*x), #[trigger] start_view(out@[q])),
        p < out@.len() ==> start_before(start_view(*x), start_view(out@[p as int])),
{
    let mut p: usize = 0;
    while p < out.len()
        invariant
            p <= out@.len(),
            forall|q: int| 0 <= q < p ==> !start_before(start_view(*x), #[trigger] start_view(out@[q])),
        decreases out@.len() - p,
    {
        let o = &out[p];
        let before = x.cost < o.cost || (x.cost == o.cost && compare_keys(x.type_key.as_str(), o.type_key.as_str())
            == KeyOrder::Before);
        if before {
            return p;
        }
        p = p + 1;
    }
    p
}

/// Sorts a pool by (cost, key); entries equal in both keep their order.
fn sort_pool(items: Vec<StartCandidate>) -> (sorted: Vec<StartCandidate>)
    ensures
        start_sorted(start_views(sorted@)),
        start_views(sorted@).to_multiset() == start_views(items@).to_multiset(),
{
    broadcast use vstd::seq_lib::group_to_multiset_ensures;

    let ghost all = start_views(items@);
    let mut out: Vec<StartCandidate> = Vec::new();
    let mut k: usize = 0;
    assert(start_views(out@) =~= Seq::<StartView>::empty());
    assert(all.take(0) =~= Seq::<StartView>::empty());
    while k < items.len()
        invariant
            k <= items@.len(),
            all == start_views(items@),
            start_sorted(start_views(out@)),
            start_views(out@).to_multiset() == all.take(k as int).to_multiset(),
        decreases items@.len() - k,
    {
        let x = &items[k];
        let p = first_after(&out, x);
        let ghost before = start_views(out@);
        let ghost xv = start_view(*x);
        let c = StartCandidate {
            id: x.id,
            class: x.class,
            naval: x.naval,
            allowed_to_start: x.allowed_to_start,
            base_unit: x.base_unit,
            tech_level: x.tech_level,
            owner_ok: x.owner_ok,
            cost: x.cost,
            type_key: x.type_key.as_str().to_owned(),
        };
        out.insert(p, c);
        proof {
            let after = start_views(out@);
            assert(after =~= before.insert(p as int, xv));
            vstd::seq_lib::to_multiset_insert(before, p as int, xv);
            assert forall|i: int, j: int| 0 <= i < j < after.len() implies !start_before(
                #[trigger] after[j],
                #[trigger] after[i],
            ) by {
                if j < p {
                    assert(after[i] == before[i]);
                    assert(after[j] == before[j]);
                } else if i < p && j == p {
                    assert(after[i] == before[i]);
                    assert(!start_before(xv, before[i]));
                } else if i < p && j > p {
                    assert(after[i] == before[i]);
                    assert(after[j] == before[j - 1]);
                } else if i == p {
                    assert(after[j] == before[j - 1]);
                    assert(start_before(xv, before[p as int]));
                    lemma_start_order(before[j - 1], xv, before[p as int]);
                    if j - 1 > p {
                        assert(!start_before(before[j - 1], before[p as int]));
                    }
                } else {
                    assert(after[i] == before[i - 1]);
                    assert(after[j] == before[j - 1]);
                }
            }
            assert(all.take(k + 1) =~= all.take(k as int).push(xv));
            vstd::seq_lib::to_multiset_build(all.take(k as int), xv);
        }
        k = k + 1;
    }
    assert(all.take(k as int) =~= all);
    out
}

fn pool_candidates(cs: &[StartCandidate], tech: i32, infantry: bool) -> (r: Vec<StartCandidate>)
    ensures
        start_views(r@) == pool_of(cs@, tech, if infantry {
            TechnoClass::Infantry
        } else {
            TechnoClass::Vehicle
        }),
{
    let ghost class = if infantry {
        TechnoClass::Infantry
    } else {
        TechnoClass::Vehicle
    };
    let mut r: Vec<StartCandidate> = Vec::new();
    let mut i: usize = 0;
    while i < cs.len()
        invariant
            i <= cs@.len(),
            class == (if infantry {
                TechnoClass::Infantry
            } else {
                TechnoClass::Vehicle
            }),
            start_views(r@) == pool_of(cs@.take(i as int), tech, class),
        decreases cs@.len() - i,
    {
        proof {
            assert(cs@.take(i + 1).drop_last() =~= cs@.take(i as int));
            assert(cs@.take(i + 1).last() == cs@[i as int]);
        }
        let c = &cs[i];
        let class_ok = match c.class {
            TechnoClass::Infantry => infantry,
            TechnoClass::Vehicle => !infantry,
            _ => false,
        };
        if class_ok && !c.naval && c.allowed_to_start && !c.base_unit && c.tech_level >= 0 && c.tech_level <= tech
            && c.owner_ok {
            let ghost r0 = start_views(r@);
            r.push(
                StartCandidate {
                    id: c.id,
                    class: c.class,
                    naval: c.naval,
                    allowed_to_start: c.allowed_to_start,
                    base_unit: c.base_unit,
                    tech_level: c.tech_level,
                    owner_ok: c.owner_ok,
                    cost: c.cost,
                    type_key: c.type_key.as_str().to_owned(),
                },
            );
            assert(start_views(r@) =~= r0.push(start_view(cs@[i as int])));
        }
        i = i + 1;
    }
    assert(cs@.take(i as int) =~= cs@);
    r
}

/// The starting pools of a house of tech level `tech`: its infantry and
/// its land vehicles that may start (see [`starts_in`]), each by cost, then
/// type key.
pub fn starting_unit_pools(cs: &[StartCandidate], tech: i32) -> (r: (Vec<StartCandidate>, Vec<StartCandidate>))
    ensures
        start_sorted(start_views(r.0@)),
        start_views(r.0@).to_multiset() == pool_of(cs@, tech, TechnoClass::Infantry).to_multiset(),
        start_sorted(start_views(r.1@)),
        start_views(r.1@).to_multiset() == pool_of(cs@, tech, TechnoClass::Vehicle).to_multiset(),
{
    let inf = sort_pool(pool_candidates(cs, tech, true));
    let veh = sort_pool(pool_candidates(cs, tech, false));
    (inf, veh)
}

/// The starting units: `unit_count` of them (none for a count below 1),
/// alternating the first infantry and the first vehicle, infantry first; a
/// missing pool is stood in for by the other; none when both are empty.
pub open spec fn starting_ids(infantry: Seq<u32>, vehicles: Seq<u32>, unit_count: i32) -> Seq<u32> {
    if unit_count <= 0 || (infantry.len() == 0 && vehicles.len() == 0) {
        Seq::empty()
    } else {
        Seq::new(
            unit_count as nat,
            |i: int|
                if i % 2 == 0 {
                    if infantry.len() > 0 {
                        infantry[0]
                    } else {
                        vehicles[0]
                    }
                } else {
                    if vehicles.len() > 0 {
                        vehicles[0]
                    } else {
                        infantry[0]
                    }
                },
        )
    }
}

/// The starting units of a side (see [`starting_ids`]).
pub fn compose_starting_unit_ids(infantry: &[u32], vehicles: &[u32], unit_count: i32) -> (ids: Vec<u32>)
    ensures
        ids@ == starting_ids(infantry@, vehicles@, unit_count),
{
    if unit_count <= 0 || (infantry.len() == 0 && vehicles.len() == 0) {
        let none: Vec<u32> = Vec::new();
        assert(none@ =~= starting_ids(infantry@, vehicles@, unit_count));
        return none;
    }
    let first_inf: u32 = if infantry.len() > 0 {
        infantry[0]
    } else {
        vehicles[0]
    };
    let first_veh: u32 = if vehicles.len() > 0 {
        vehicles[0]
    } else {
        infantry[0]
    };
    let n = unit_count as u32;
    let mut out: Vec<u32> = Vec::new();
    let mut i: u32 = 0;
    while i < n
        invariant
            i <= n,
            n == unit_count,
            out@.len() == i,
            forall|k: int| 0 <= k < i ==> #[trigger] out@[k] == starting_ids(infantry@, vehicles@, unit_count)[k],
            unit_count > 0,
            infantry@.len() > 0 || vehicles@.len() > 0,
            first_inf == (if infantry@.len() > 0 {
                infantry@[0]
            } else {
                vehicles@[0]
            }),
            first_veh == (if vehicles@.len() > 0 {
                vehicles@[0]
            } else {
                infantry@[0]
            }),
        decreases n - i,
    {
        if i % 2 == 0 {
            out.push(first_inf);
        } else {
            out.push(first_veh);
        }
        i = i + 1;
    }
    assert(out@ =~= starting_ids(infantry@, vehicles@, unit_count));
    out
}

/// What the ring search for a starting unit's cell reads.
pub struct RingEnv {
    /// Cells where a unit may be placed.
    pub free: crate::repath::MoveGrid,
    /// Cells already tried and refused.
    pub blocked: Seq<(u16, u16)>,
    /// The slot's waypoint.
    pub ox: u16,
    pub oy: u16,
    /// The construction yard's footprint (each side at least 1), kept clear.
    pub cw: u16,
    pub ch: u16,
}

/// `a + b` held at `u16::MAX`.
pub open spec fn plus_u16(a: u16, b: u16) -> int {
    if a + b > u16::MAX {
        u16::MAX as int
    } else {
        a + b
    }
}

/// The cell at offset `(dx, dy)` on ring `r`, when a starting unit may go
/// there: on the ring, not negative, outside the yard's footprint at the
/// waypoint, not refused before, and free.
pub open spec fn ring_cell(env: RingEnv, r: int, dy: int, dx: int) -> Option<(u16, u16)> {
    let ax = if dx >= 0 {
        dx
    } else {
        -dx
    };
    let ay = if dy >= 0 {
        dy
    } else {
        -dy
    };
    let x = env.ox + dx;
    let y = env.oy + dy;
    if (if ax >= ay {
        ax
    } else {
        ay
    }) != r || x < 0 || y < 0 {
        None
    } else {
        let c = ((x as u16), (y as u16));
        if c.0 >= env.ox && c.1 >= env.oy && c.0 < plus_u16(env.ox, env.cw) && c.1 < plus_u16(env.oy, env.ch) {
            None
        } else if env.blocked.contains(c) {
            None
        } else if !env.free.passable(c.0 as int, c.1 as int) {
            None
        } else {
            Some(c)
        }
    }
}

/// First cell of row `dy` of ring `r` from column `dx` on.
pub open spec fn ring_row(env: RingEnv, r: int, dy: int, dx: int) -> Option<(u16, u16)>
    decreases r + 1 - dx,
{
    if dx > r {
        None
    } else {
        match ring_cell(env, r, dy, dx) {
            Some(c) => Some(c),
            None => ring_row(env, r, dy, dx + 1),
        }
    }
}

/// First cell of ring `r` from row `dy` on.
pub open spec fn ring_rows(env: RingEnv, r: int, dy: int) -> Option<(u16, u16)>
    decreases r + 1 - dy,
{
    if dy > r {
        None
    } else {
        match ring_row(env, r, dy, -r) {
            Some(c) => Some(c),
            None => ring_rows(env, r, dy + 1),
        }
    }
}

/// First cell from ring `r` out to ring `last`.
pub open spec fn rings_from(env: RingEnv, r: int, last: int) -> Option<(u16, u16)>
    decreases last + 1 - r,
{
    if r > last {
        None
    } else {
        match ring_rows(env, r, -r) {
            Some(c) => Some(c),
            None => rings_from(env, r + 1, last),
        }
    }
}

/// The cell for the next starting unit around waypoint `(ox, oy)`: the
/// first in ring order from the ring just outside the yard's footprint
/// (`max(cw, ch)`) out to 24 rings further.
pub open spec fn starting_cell(env: RingEnv) -> Option<(u16, u16)> {
    let m: int = if env.cw >= env.ch {
        env.cw as int
    } else {
        env.ch as int
    };
    rings_from(env, m, m + 24)
}

/// Cell for the next starting unit (see [`starting_cell`]); the yard's
/// footprint sides are taken as at least 1.
pub fn find_starting_unit_cell(
    free: &crate::repath::MoveGrid,
    ox: u16,
    oy: u16,
    clear_w: u16,
    clear_h: u16,
    blocked: &[(u16, u16)],
) -> (r: Option<(u16, u16)>)
    requires
        free.wf(),
    ensures
        r == starting_cell(
            RingEnv {
                free: *free,
                blocked: blocked@,
                ox,
                oy,
                cw: if clear_w > 1 {
                    clear_w
                } else {
                    1
                },
                ch: if clear_h > 1 {
                    clear_h
                } else {
                    1
                },
            },
        ),
{
    let cw: u16 = if clear_w > 1 {
        clear_w
    } else {
        1
    };
    let ch: u16 = if clear_h > 1 {
        clear_h
    } else {
        1
    };
    let ghost env = RingEnv { free: *free, blocked: blocked@, ox, oy, cw, ch };
    let min_r: i32 = if cw >= ch {
        cw as i32
    } else {
        ch as i32
    };
    let max_r: i32 = min_r + 24;
    let xe: u32 = if ox as u32 + cw as u32 > u16::MAX as u32 {
        u16::MAX as u32
    } else {
        ox as u32 + cw as u32
    };
    let ye: u32 = if oy as u32 + ch as u32 > u16::MAX as u32 {
        u16::MAX as u32
    } else {
        oy as u32 + ch as u32
    };
    let mut r: i32 = min_r;
    while r <= max_r
        invariant
            1 <= min_r <= r <= max_r + 1,
            max_r == min_r + 24,
            min_r <= 0xffff,
            min_r == (if cw >= ch {
                cw as int
            } else {
                ch as int
            }),
            env == (RingEnv { free: *free, blocked: blocked@, ox, oy, cw, ch }),
            cw == (if clear_w > 1 { clear_w } else { 1 }),
            ch == (if clear_h > 1 { clear_h } else { 1 }),
            xe as int == plus_u16(ox, cw),
            ye as int == plus_u16(oy, ch),
            free.wf(),
            starting_cell(env) == rings_from(env, r as int, max_r as int),
        decreases max_r + 1 - r,
    {
        let mut dy: i32 = -r;
        while dy <= r
            invariant
                1 <= min_r <= r <= max_r,
                max_r == min_r + 24,
                min_r <= 0xffff,
                -r <= dy <= r + 1,
                env == (RingEnv { free: *free, blocked: blocked@, ox, oy, cw, ch }),
                cw == (if clear_w > 1 { clear_w } else { 1 }),
                ch == (if clear_h > 1 { clear_h } else { 1 }),
                xe as int == plus_u16(ox, cw),
                ye as int == plus_u16(oy, ch),
                free.wf(),
                starting_cell(env) == match ring_rows(env, r as int, -r as int) {
                    Some(c) => Some(c),
                    None => rings_from(env, r + 1, max_r as int),
                },
                ring_rows(env, r as int, -r as int) == ring_rows(env, r as int, dy as int),
            decreases r + 1 - dy,
        {
            let mut dx: i32 = -r;
            while dx <= r
                invariant
                    1 <= min_r <= r <= max_r,
                    max_r == min_r + 24,
                    min_r <= 0xffff,
                    -r <= dy <= r,
                    -r <= dx <= r + 1,
                    env == (RingEnv { free: *free, blocked: blocked@, ox, oy, cw, ch }),
                    cw == (if clear_w > 1 { clear_w } else { 1 }),
                    ch == (if clear_h > 1 { clear_h } else { 1 }),
                    xe as int == plus_u16(ox, cw),
                    ye as int == plus_u16(oy, ch),
                    free.wf(),
                    starting_cell(env) == match ring_rows(env, r as int, -r as int) {
                        Some(c) => Some(c),
                        None => rings_from(env, r + 1, max_r as int),
                    },
                    ring_rows(env, r as int, -r as int) == match ring_row(env, r as int, dy as int, -r as int) {
                        Some(c) => Some(c),
                        None => ring_rows(env, r as int, dy + 1),
                    },
                    ring_row(env, r as int, dy as int, -r as int) == ring_row(env, r as int, dy as int, dx as int),
                decreases r + 1 - dx,
            {
                let ax: i32 = if dx >= 0 {
                    dx
                } else {
                    -dx
                };
                let ay: i32 = if dy >= 0 {
                    dy
                } else {
                    -dy
                };
                let ring = if ax >= ay {
                    ax
                } else {
                    ay
                };
                let x: i32 = ox as i32 + dx;
                let y: i32 = oy as i32 + dy;
                if ring == r && x >= 0 && y >= 0 {
                    let cx: u16 = #[verifier::truncate] (x as u16);
                    let cy: u16 = #[verifier::truncate] (y as u16);
                    let in_yard = cx >= ox && cy >= oy && (cx as u32) < xe && (cy as u32) < ye;
                    if !in_yard {
                        let mut seen = false;
                        let mut k: usize = 0;
                        while k < blocked.len()
                            invariant
                                k <= blocked@.len(),
                                seen == exists|q: int| 0 <= q < k && blocked@[q] == (cx, cy),
                            decreases blocked@.len() - k,
                        {
                            let b = blocked[k];
                            if b.0 == cx && b.1 == cy {
                                seen = true;
                            }
                            k = k + 1;
                        }
                        if !seen && free.is_passable(cx, cy) {
                            proof {
                                assert(ring_cell(env, r as int, dy as int, dx as int) == Some((cx, cy)));
                                assert(ring_row(env, r as int, dy as int, dx as int) == Some((cx, cy)));
                                assert(ring_rows(env, r as int, -r as int) == Some((cx, cy)));
                            }
                            return Some((cx, cy));
                        }
                        proof {
                            if seen {
                                let q = choose|q: int| 0 <= q < k && blocked@[q] == (cx, cy);
                                assert(env.blocked.contains((cx, cy)));
                            } else {
                                assert(!env.blocked.contains((cx, cy)));
                            }
                        }
                    }
                }
                dx = dx + 1;
            }
            dy = dy + 1;
        }
        r = r + 1;
    }
    None
}

} // verus!
