//! Trigger actions that reach every entity of a house or of a tag: destroy,
//! change owner, hunt, and the entities a waypoint blast hits.

use vstd::prelude::*;

use crate::ai::{find_house_with_id, first_house_with_id, HouseTypeKey};
use crate::entities::{is_mobile, mobile, EntityKind};
use crate::powers::LIGHTNING_STRIKE_RADIUS;
use crate::players::{house_list_allows, houses_are_allied, allied, list_has_house, PlayerState};
use crate::text::{eq_ignore_ascii_case, text_eq_ignore_ascii_case};

verus! {

/// An entity as the house-wide actions read it.
#[derive(Clone, Copy, Debug)]
pub struct ActorEntity {
    pub id: u64,
    /// Has health and is not dead.
    pub alive: bool,
    /// Owning house id, if any.
    pub owner: Option<u32>,
    /// Kind from its identity (none: no identity).
    pub kind: Option<EntityKind>,
    /// Tag the map attached to it.
    pub tag: Option<u32>,
    pub cell: Option<(u16, u16)>,
}

/// Which entities of a house a destroy action takes.
#[derive(Clone, Copy, Debug, PartialEq, Eq, Structural)]
pub enum DestroyFilter {
    All,
    Buildings,
    LandUnits,
}

/// Entity `e` is destroyed by a destroy action on house `house` with
/// `filter`: alive, owned by that house, with an identity of a kind the
/// filter takes.
pub open spec fn destroyed_by(e: ActorEntity, house: Option<u32>, filter: DestroyFilter) -> bool {
    &&& e.alive
    &&& e.owner is Some && e.owner == house
    &&& e.kind matches Some(k) && match filter {
        DestroyFilter::All => true,
        DestroyFilter::Buildings => k == EntityKind::Structure,
        DestroyFilter::LandUnits => k == EntityKind::Unit || k == EntityKind::Infantry,
    }
}

/// Destroys the entities of house `house` (its id, if known) that `filter`
/// takes.
pub fn destroy_house_entities(es: &mut Vec<ActorEntity>, house: Option<u32>, filter: DestroyFilter)
    ensures
        final(es)@.len() == old(es)@.len(),
        forall|i: int|
            0 <= i < old(es)@.len() ==> #[trigger] final(es)@[i] == if destroyed_by(old(es)@[i], house, filter) {
                ActorEntity { alive: false, ..old(es)@[i] }
            } else {
                old(es)@[i]
            },
{
    let mut i: usize = 0;
    while i < es.len()
        invariant
            i <= es@.len(),
            es@.len() == old(es)@.len(),
            forall|k: int|
                0 <= k < i ==> #[trigger] es@[k] == if destroyed_by(old(es)@[k], house, filter) {
                    ActorEntity { alive: false, ..old(es)@[k] }
                } else {
                    old(es)@[k]
                },
            forall|k: int| i <= k < es@.len() ==> #[trigger] es@[k] == old(es)@[k],
        decreases es@.len() - i,
    {
        let e = es[i];
        let owned = match (e.owner, house) {
            (Some(o), Some(h)) => o == h,
            _ => false,
        };
        if e.alive && owned {
            let take = match e.kind {
                Some(k) => match filter {
                    DestroyFilter::All => true,
                    DestroyFilter::Buildings => match k {
                        EntityKind::Structure => true,
                        _ => false,
                    },
                    DestroyFilter::LandUnits => match k {
                        EntityKind::Unit => true,
                        EntityKind::Infantry => true,
                        _ => false,
                    },
                },
                None => false,
            };
            if take {
                es.set(i, ActorEntity { alive: false, ..e });
            }
        }
        i = i + 1;
    }
}

/// Entity `e` carries one of `tags` and is alive.
pub open spec fn tagged_with(e: ActorEntity, tags: Seq<u32>) -> bool {
    e.alive && (e.tag matches Some(t) && tags.contains(t))
}

/// Destroys the living entities carrying one of `tags` (the tags of a
/// trigger, or a single tag).
pub fn destroy_tagged(es: &mut Vec<ActorEntity>, tags: &[u32])
    ensures
        final(es)@.len() == old(es)@.len(),
        forall|i: int|
            0 <= i < old(es)@.len() ==> #[trigger] final(es)@[i] == if tagged_with(old(es)@[i], tags@) {
                ActorEntity { alive: false, ..old(es)@[i] }
            } else {
                old(es)@[i]
            },
{
    let mut i: usize = 0;
    while i < es.len()
        invariant
            i <= es@.len(),
            es@.len() == old(es)@.len(),
            forall|k: int|
                0 <= k < i ==> #[trigger] es@[k] == if tagged_with(old(es)@[k], tags@) {
                    ActorEntity { alive: false, ..old(es)@[k] }
                } else {
                    old(es)@[k]
                },
            forall|k: int| i <= k < es@.len() ==> #[trigger] es@[k] == old(es)@[k],
        decreases es@.len() - i,
    {
        let e = es[i];
        if e.alive {
            if let Some(t) = e.tag {
                let mut found = false;
                let mut j: usize = 0;
                while j < tags.len()
                    invariant
                        j <= tags@.len(),
                        found == exists|q: int| 0 <= q < j && tags@[q] == t,
                    decreases tags@.len() - j,
                {
                    if tags[j] == t {
                        found = true;
                    }
                    j = j + 1;
                }
                if found {
                    es.set(i, ActorEntity { alive: false, ..e });
                }
            }
        }
        i = i + 1;
    }
}

/// Hands every living entity of house `from_house` to `new_house`; nothing
/// when the two are the same house (ASCII case ignored) or either id is
/// unknown.
pub fn change_all_house_entities(
    es: &mut Vec<ActorEntity>,
    from_house: &str,
    new_house: &str,
    from_id: Option<u32>,
    new_id: Option<u32>,
)
    ensures
        final(es)@.len() == old(es)@.len(),
        text_eq_ignore_ascii_case(from_house@, new_house@) || from_id is None || new_id is None ==> final(es)@
            == old(es)@,
        !(text_eq_ignore_ascii_case(from_house@, new_house@) || from_id is None || new_id is None) ==> forall|i: int|
            0 <= i < old(es)@.len() ==> #[trigger] final(es)@[i] == if old(es)@[i].alive && old(es)@[i].owner == from_id {
                ActorEntity { owner: new_id, ..old(es)@[i] }
            } else {
                old(es)@[i]
            },
{
    if eq_ignore_ascii_case(from_house, new_house) {
        return;
    }
    let (f, n) = match (from_id, new_id) {
        (Some(f), Some(n)) => (f, n),
        _ => {
            return;
        },
    };
    let mut i: usize = 0;
    while i < es.len()
        invariant
            i <= es@.len(),
            es@.len() == old(es)@.len(),
            from_id == Some(f),
            new_id == Some(n),
            forall|k: int|
                0 <= k < i ==> #[trigger] es@[k] == if old(es)@[k].alive && old(es)@[k].owner == from_id {
                    ActorEntity { owner: new_id, ..old(es)@[k] }
                } else {
                    old(es)@[k]
                },
            forall|k: int| i <= k < es@.len() ==> #[trigger] es@[k] == old(es)@[k],
        decreases es@.len() - i,
    {
        let e = es[i];
        let owned = match e.owner {
            Some(o) => o == f,
            None => false,
        };
        if e.alive && owned {
            es.set(i, ActorEntity { owner: Some(n), ..e });
        }
        i = i + 1;
    }
}

/// Key of house `id` (empty for an unknown house).
pub open spec fn house_key(houses: Seq<HouseTypeKey>, id: u32) -> Seq<char> {
    match first_house_with_id(houses, id) {
        Some(h) => h.type_key@,
        None => Seq::empty(),
    }
}

/// Entity `e` is a target for house `house`: alive, owned by a house that
/// is neither allied to `house` nor ambient, and placed.
pub open spec fn hostile_to(
    e: ActorEntity,
    houses: Seq<HouseTypeKey>,
    players: Seq<PlayerState>,
    ambient: Seq<String>,
    house: Seq<char>,
) -> bool {
    &&& e.alive
    &&& e.owner matches Some(o) && !allied(players, house, house_key(houses, o)) && !list_has_house(
        ambient,
        house_key(houses, o),
    )
    &&& e.cell is Some
}

/// Manhattan distance between two cells.
pub open spec fn manhattan(ax: u16, ay: u16, bx: u16, by: u16) -> int {
    (if ax >= bx {
        ax - bx
    } else {
        bx - ax
    }) + (if ay >= by {
        ay - by
    } else {
        by - ay
    })
}

/// The first hostile entity nearest to `(cx, cy)` (Manhattan distance),
/// with its distance.
pub open spec fn nearest_hostile(
    es: Seq<ActorEntity>,
    houses: Seq<HouseTypeKey>,
    players: Seq<PlayerState>,
    ambient: Seq<String>,
    house: Seq<char>,
    cx: u16,
    cy: u16,
) -> Option<(int, u64)>
    decreases es.len(),
{
    if es.len() == 0 {
        None
    } else {
        let b = nearest_hostile(es.drop_last(), houses, players, ambient, house, cx, cy);
        let e = es.last();
        if hostile_to(e, houses, players, ambient, house) {
            let d = manhattan(cx, cy, e.cell.unwrap().0, e.cell.unwrap().1);
            match b {
                Some(bd) => if d < bd.0 {
                    Some((d, e.id))
                } else {
                    b
                },
                None => Some((d, e.id)),
            }
        } else {
            b
        }
    }
}

fn key_of_house(houses: &[HouseTypeKey], id: u32) -> (k: String)
    ensures
        k@ == house_key(houses@, id),
{
    match find_house_with_id(houses, id) {
        Some(i) => houses[i].type_key.as_str().to_owned(),
        None => {
            let k = String::new();
            assert(k@ =~= Seq::<char>::empty());
            k
        },
    }
}

/// Id of the hostile entity nearest to `(cx, cy)` for house `house` (see
/// [`nearest_hostile`]).
pub fn nearest_hostile_from(
    es: &[ActorEntity],
    houses: &[HouseTypeKey],
    players: &[PlayerState],
    ambient: &[String],
    house: &str,
    cx: u16,
    cy: u16,
) -> (r: Option<u64>)
    ensures
        r == match nearest_hostile(es@, houses@, players@, ambient@, house@, cx, cy) {
            Some(b) => Some(b.1),
            None => None::<u64>,
        },
{
    let mut best: Option<(u32, u64)> = None;
    let mut i: usize = 0;
    while i < es.len()
        invariant
            i <= es@.len(),
            match best {
                Some(b) => nearest_hostile(es@.take(i as int), houses@, players@, ambient@, house@, cx, cy) == Some(
                    (b.0 as int, b.1),
                ),
                None => nearest_hostile(es@.take(i as int), houses@, players@, ambient@, house@, cx, cy) is None,
            },
        decreases es@.len() - i,
    {
        proof {
            assert(es@.take(i + 1).drop_last() =~= es@.take(i as int));
            assert(es@.take(i + 1).last() == es@[i as int]);
        }
        let e = es[i];
        if e.alive {
            if let Some(o) = e.owner {
                if let Some(c) = e.cell {
                    let key = key_of_house(houses, o);
                    if !houses_are_allied(players, house, key.as_str()) && !house_list_allows(ambient, key.as_str()) {
                        let dx: u32 = if cx >= c.0 {
                            (cx - c.0) as u32
                        } else {
                            (c.0 - cx) as u32
                        };
                        let dy: u32 = if cy >= c.1 {
                            (cy - c.1) as u32
                        } else {
                            (c.1 - cy) as u32
                        };
                        let d = dx + dy;
                        let take = match best {
                            Some(b) => d < b.0,
                            None => true,
                        };
                        if take {
                            best = Some((d, e.id));
                        }
                    }
                }
            }
        }
        i = i + 1;
    }
    assert(es@.take(i as int) =~= es@);
    match best {
        Some(b) => Some(b.1),
        None => None,
    }
}

/// Entity `e` hunts for house `house`: a living mobile unit of it.
pub open spec fn hunter_of(e: ActorEntity, house: Option<u32>) -> bool {
    e.alive && e.owner is Some && e.owner == house && (e.kind matches Some(k) && mobile(k))
}

/// The attack orders of a hunt by house `house`: each placed hunter, in
/// order, against the hostile entity nearest to it, when there is one.
pub open spec fn hunt_orders(
    es: Seq<ActorEntity>,
    k: int,
    houses: Seq<HouseTypeKey>,
    players: Seq<PlayerState>,
    ambient: Seq<String>,
    house: Seq<char>,
    house_id: Option<u32>,
) -> Seq<(u64, u64)>
    decreases k,
{
    if k <= 0 {
        Seq::empty()
    } else {
        let rest = hunt_orders(es, k - 1, houses, players, ambient, house, house_id);
        let e = es[k - 1];
        if hunter_of(e, house_id) && e.cell is Some {
            match nearest_hostile(es, houses, players, ambient, house, e.cell.unwrap().0, e.cell.unwrap().1) {
                Some(t) => rest.push((e.id, t.1)),
                None => rest,
            }
        } else {
            rest
        }
    }
}

/// The attack orders of house `house` (its id, if known) hunting (see
/// [`hunt_orders`]); none when no player plays that house.
pub fn all_house_units_hunt(
    es: &[ActorEntity],
    houses: &[HouseTypeKey],
    players: &[PlayerState],
    ambient: &[String],
    house: &str,
    house_id: Option<u32>,
) -> (orders: Vec<(u64, u64)>)
    ensures
        orders@ == if crate::players::player_of_from(players@, house@, 0) is Some {
            hunt_orders(es@, es@.len() as int, houses@, players@, ambient@, house@, house_id)
        } else {
            Seq::empty()
        },
{
    let mut orders: Vec<(u64, u64)> = Vec::new();
    if crate::players::find_player(players, house).is_none() {
        return orders;
    }
    let mut i: usize = 0;
    while i < es.len()
        invariant
            i <= es@.len(),
            crate::players::player_of_from(players@, house@, 0) is Some,
            orders@ == hunt_orders(es@, i as int, houses@, players@, ambient@, house@, house_id),
        decreases es@.len() - i,
    {
        let e = es[i];
        let owned = match (e.owner, house_id) {
            (Some(o), Some(h)) => o == h,
            _ => false,
        };
        let mob = match e.kind {
            Some(k) => is_mobile(k),
            None => false,
        };
        if e.alive && owned && mob {
            if let Some(c) = e.cell {
                if let Some(t) = nearest_hostile_from(es, houses, players, ambient, house, c.0, c.1) {
                    orders.push((e.id, t));
                }
            }
        }
        i = i + 1;
    }
    orders
}

/// Entity `e` is hit by a blast on cell `(wx, wy)`: a structure whose
/// footprint `fw` by `fh` (see `footprint`) covers the cell, or anything
/// else standing on it; only living, placed entities.
pub open spec fn blast_hits(e: ActorEntity, wx: u16, wy: u16, fw: int, fh: int) -> bool {
    &&& e.alive
    &&& e.cell matches Some(c) && if e.kind == Some(EntityKind::Structure) {
        c.0 <= wx && c.1 <= wy && wx < crate::placement::add_u16_capped(c.0, fw) && wy < crate::placement::add_u16_capped(
            c.1,
            fh,
        )
    } else {
        c.0 == wx && c.1 == wy
    }
}

/// Indices of the entities a blast on `(wx, wy)` hits, in order;
/// `footprints[i]` is entity `i`'s footprint (each side at least 1).
pub fn blast_targets(es: &[ActorEntity], footprints: &[(u16, u16)], wx: u16, wy: u16) -> (r: Vec<usize>)
    requires
        footprints@.len() == es@.len(),
    ensures
        forall|k: int| 0 <= k < r@.len() ==> #[trigger] r@[k] < es@.len(),
        forall|k1: int, k2: int| 0 <= k1 < k2 < r@.len() ==> #[trigger] r@[k1] < #[trigger] r@[k2],
        forall|i: int|
            0 <= i < es@.len() ==> (r@.contains(i as usize) <==> blast_hits(
                #[trigger] es@[i],
                wx,
                wy,
                footprints@[i].0 as int,
                footprints@[i].1 as int,
            )),
{
    let mut r: Vec<usize> = Vec::new();
    let mut i: usize = 0;
    while i < es.len()
        invariant
            i <= es@.len(),
            footprints@.len() == es@.len(),
            forall|k: int| 0 <= k < r@.len() ==> #[trigger] r@[k] < i,
            forall|k1: int, k2: int| 0 <= k1 < k2 < r@.len() ==> #[trigger] r@[k1] < #[trigger] r@[k2],
            forall|j: int|
                0 <= j < i ==> (r@.contains(j as usize) <==> blast_hits(
                    #[trigger] es@[j],
                    wx,
                    wy,
                    footprints@[j].0 as int,
                    footprints@[j].1 as int,
                )),
        decreases es@.len() - i,
    {
        let e = es[i];
        let (fw, fh) = footprints[i];
        let hit = if e.alive {
            match e.cell {
                Some(c) => {
                    let structure = match e.kind {
                        Some(EntityKind::Structure) => true,
                        _ => false,
                    };
                    if structure {
                        let xe: u16 = if c.0 as u32 + fw as u32 > u16::MAX as u32 {
                            u16::MAX
                        } else {
                            c.0 + fw
                        };
                        let ye: u16 = if c.1 as u32 + fh as u32 > u16::MAX as u32 {
                            u16::MAX
                        } else {
                            c.1 + fh
                        };
                        c.0 <= wx && c.1 <= wy && wx < xe && wy < ye
                    } else {
                        c.0 == wx && c.1 == wy
                    }
                },
                None => false,
            }
        } else {
            false
        };
        let ghost r0 = r@;
        if hit {
            r.push(i);
        }
        proof {
            assert forall|j: int|
                0 <= j < i + 1 implies (r@.contains(j as usize) <==> blast_hits(
                #[trigger] es@[j],
                wx,
                wy,
                footprints@[j].0 as int,
                footprints@[j].1 as int,
            )) by {
                if j < i {
                    if r@.contains(j as usize) && !r0.contains(j as usize) {
                        assert(r@.last() == i);
                    }
                    if r0.contains(j as usize) {
                        let q = choose|q: int| 0 <= q < r0.len() && r0[q] == j as usize;
                        assert(r@[q] == j as usize);
                    }
                } else {
                    if hit {
                        assert(r@[r@.len() - 1] == i);
                    } else {
                        if r@.contains(j as usize) {
                            let q = choose|q: int| 0 <= q < r@.len() && r@[q] == j as usize;
                            assert(r@[q] < i);
                        }
                    }
                }
            }
        }
        i = i + 1;
    }
    r
}

/// `v` held within `[lo, hi]`.
pub open spec fn clamp_int(v: int, lo: int, hi: int) -> int {
    if v < lo {
        lo
    } else if v > hi {
        hi
    } else {
        v
    }
}

/// Entity `e` is hit by a strike on `(cx, cy)`: a living, placed entity
/// within the strike radius (Chebyshev distance); for a structure, the
/// nearest cell of its footprint `fw` by `fh` counts.
pub open spec fn strike_hits(e: ActorEntity, cx: u16, cy: u16, fw: int, fh: int) -> bool {
    &&& e.alive
    &&& e.cell matches Some(c) && {
        let (nx, ny) = if e.kind == Some(EntityKind::Structure) {
            (clamp_int(cx as int, c.0 as int, c.0 + fw - 1), clamp_int(cy as int, c.1 as int, c.1 + fh - 1))
        } else {
            (c.0 as int, c.1 as int)
        };
        let dx = if nx >= cx {
            nx - cx
        } else {
            cx - nx
        };
        let dy = if ny >= cy {
            ny - cy
        } else {
            cy - ny
        };
        (if dx >= dy {
            dx
        } else {
            dy
        }) <= LIGHTNING_STRIKE_RADIUS
    }
}

fn strike_hit(e: &ActorEntity, fw: u16, fh: u16, cx: u16, cy: u16) -> (r: bool)
    requires
        fw >= 1,
        fh >= 1,
    ensures
        r == strike_hits(*e, cx, cy, fw as int, fh as int),
{
    if !e.alive {
        return false;
    }
    let c = match e.cell {
        Some(c) => c,
        None => {
            return false;
        },
    };
    let structure = match e.kind {
        Some(EntityKind::Structure) => true,
        _ => false,
    };
    let (nx, ny): (i32, i32) = if structure {
        let left = c.0 as i32;
        let top = c.1 as i32;
        let right = left + fw as i32 - 1;
        let bottom = top + fh as i32 - 1;
        let x = cx as i32;
        let y = cy as i32;
        (if x < left {
            left
        } else if x > right {
            right
        } else {
            x
        }, if y < top {
            top
        } else if y > bottom {
            bottom
        } else {
            y
        })
    } else {
        (c.0 as i32, c.1 as i32)
    };
    let dx: i32 = if nx >= cx as i32 {
        nx - cx as i32
    } else {
        cx as i32 - nx
    };
    let dy: i32 = if ny >= cy as i32 {
        ny - cy as i32
    } else {
        cy as i32 - ny
    };
    let d = if dx >= dy {
        dx
    } else {
        dy
    };
    d <= LIGHTNING_STRIKE_RADIUS
}

/// Indices of the entities a lightning strike on `(cx, cy)` hits, in order
/// (see [`strike_hits`]); `footprints[i]` is entity `i`'s footprint (each
/// side at least 1).
pub fn strike_targets(es: &[ActorEntity], footprints: &[(u16, u16)], cx: u16, cy: u16) -> (r: Vec<usize>)
    requires
        footprints@.len() == es@.len(),
        forall|i: int| 0 <= i < footprints@.len() ==> #[trigger] footprints@[i].0 >= 1 && footprints@[i].1 >= 1,
    ensures
        forall|k: int| 0 <= k < r@.len() ==> #[trigger] r@[k] < es@.len(),
        forall|k1: int, k2: int| 0 <= k1 < k2 < r@.len() ==> #[trigger] r@[k1] < #[trigger] r@[k2],
        forall|i: int|
            0 <= i < es@.len() ==> (r@.contains(i as usize) <==> strike_hits(
                #[trigger] es@[i],
                cx,
                cy,
                footprints@[i].0 as int,
                footprints@[i].1 as int,
            )),
{
    let mut r: Vec<usize> = Vec::new();
    let mut i: usize = 0;
    while i < es.len()
        invariant
            i <= es@.len(),
            footprints@.len() == es@.len(),
            forall|i: int| 0 <= i < footprints@.len() ==> #[trigger] footprints@[i].0 >= 1 && footprints@[i].1 >= 1,
            forall|k: int| 0 <= k < r@.len() ==> #[trigger] r@[k] < i,
            forall|k1: int, k2: int| 0 <= k1 < k2 < r@.len() ==> #[trigger] r@[k1] < #[trigger] r@[k2],
            forall|j: int|
                0 <= j < i ==> (r@.contains(j as usize) <==> strike_hits(
                    #[trigger] es@[j],
                    cx,
                    cy,
                    footprints@[j].0 as int,
                    footprints@[j].1 as int,
                )),
        decreases es@.len() - i,
    {
        let (fw, fh) = footprints[i];
        let hit = strike_hit(&es[i], fw, fh, cx, cy);
        let ghost r0 = r@;
        if hit {
            r.push(i);
        }
        proof {
            assert forall|j: int|
                0 <= j < i + 1 implies (r@.contains(j as usize) <==> strike_hits(
                #[trigger] es@[j],
                cx,
                cy,
                footprints@[j].0 as int,
                footprints@[j].1 as int,
            )) by {
                if j < i {
                    if r@.contains(j as usize) && !r0.contains(j as usize) {
                        assert(r@.last() == i);
                    }
                    if r0.contains(j as usize) {
                        let q = choose|q: int| 0 <= q < r0.len() && r0[q] == j as usize;
                        assert(r@[q] == j as usize);
                    }
                } else {
                    if hit {
                        assert(r@[r@.len() - 1] == i);
                    } else {
                        if r@.contains(j as usize) {
                            let q = choose|q: int| 0 <= q < r@.len() && r@[q] == j as usize;
                            assert(r@[q] < i);
                        }
                    }
                }
            }
        }
        i = i + 1;
    }
    r
}

} // verus!
