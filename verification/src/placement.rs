//! Where an AI house places a finished building: the best open spot near
//! its construction yard (near ore first for a refinery).

use vstd::prelude::*;

use crate::ai::{chebyshev, chebyshev_u16};
use crate::economy::{nearest_harvestable_ore, nearest_ore, OreCell};
use crate::repath::MoveGrid;

verus! {

/// Ore distance used when no ore is left.
pub const NO_ORE_DISTANCE: u32 = 10_000;

/// What the search reads.
pub struct SearchEnv {
    /// Cells where the building's top-left corner may go.
    pub placeable: MoveGrid,
    pub ore: Seq<OreCell>,
    /// Cells a unit may stand on (for the ore lookup).
    pub pass: MoveGrid,
    /// Footprint of the building (each side at least 1).
    pub fw: u16,
    pub fh: u16,
    /// Search origin (the yard's centre).
    pub ox: u16,
    pub oy: u16,
    pub radius: int,
    /// Score by the distance to ore first (refineries).
    pub prefer_ore: bool,
}

/// Score of a spot: lower is better, compared in order.
pub struct Rank {
    pub first: int,
    pub second: int,
    pub x: u16,
    pub y: u16,
}

/// `a` scores better than `b`.
pub open spec fn rank_lt(a: Rank, b: Rank) -> bool {
    a.first < b.first || (a.first == b.first && (a.second < b.second || (a.second == b.second && (a.x < b.x || (a.x
        == b.x && a.y < b.y)))))
}

/// `a + b` held at `u16::MAX`.
pub open spec fn add_u16_capped(a: u16, b: int) -> u16 {
    if a + b > u16::MAX {
        u16::MAX
    } else {
        (a + b) as u16
    }
}

/// Score of top-left corner `(x, y)`: distances from the footprint's
/// centre to the origin and, for refineries, first to the nearest ore
/// (`NO_ORE_DISTANCE` without ore); ties go to the smaller `x`, then `y`.
pub open spec fn rank_of(env: SearchEnv, x: u16, y: u16) -> Rank {
    let cx = add_u16_capped(x, (env.fw - 1) / 2);
    let cy = add_u16_capped(y, (env.fh - 1) / 2);
    let yard = chebyshev(cx, cy, env.ox, env.oy);
    if env.prefer_ore {
        let ore = match nearest_ore(env.ore, env.pass, cx, cy) {
            Some(o) => chebyshev(cx, cy, o.0, o.1),
            None => NO_ORE_DISTANCE as int,
        };
        Rank { first: ore, second: yard, x, y }
    } else {
        Rank { first: yard, second: 0, x, y }
    }
}

/// The best rank after also looking at offset `(dx, dy)` from the origin.
pub open spec fn consider(env: SearchEnv, best: Option<Rank>, dx: int, dy: int) -> Option<Rank> {
    let x = env.ox + dx;
    let y = env.oy + dy;
    if x < 0 || y < 0 || !env.placeable.passable((x as u16) as int, (y as u16) as int) {
        best
    } else {
        let k = rank_of(env, x as u16, y as u16);
        match best {
            Some(b) => if rank_lt(k, b) {
                Some(k)
            } else {
                best
            },
            None => Some(k),
        }
    }
}

/// The best rank after the offsets `(dx, dy)`, `dy` from `dy` to the
/// radius.
pub open spec fn scan_column(env: SearchEnv, best: Option<Rank>, dx: int, dy: int) -> Option<Rank>
    decreases env.radius + 1 - dy,
{
    if dy > env.radius {
        best
    } else {
        scan_column(env, consider(env, best, dx, dy), dx, dy + 1)
    }
}

/// The best rank after the columns from `dx` to the radius.
pub open spec fn scan_columns(env: SearchEnv, best: Option<Rank>, dx: int) -> Option<Rank>
    decreases env.radius + 1 - dx,
{
    if dx > env.radius {
        best
    } else {
        scan_columns(env, scan_column(env, best, dx, -env.radius), dx + 1)
    }
}

/// The best spot within `radius` of the origin (both offsets from `-radius`
/// to `radius`, columns first), if any.
pub open spec fn best_spot(env: SearchEnv) -> Option<(u16, u16)> {
    match scan_columns(env, None, -env.radius) {
        Some(r) => Some((r.x, r.y)),
        None => None,
    }
}

/// The building's footprint, the search origin and what it may stand on.
pub struct PlacementQuery<'a> {
    pub placeable: &'a MoveGrid,
    pub ore: &'a Vec<OreCell>,
    pub pass: &'a MoveGrid,
    pub fw: u16,
    pub fh: u16,
    pub ox: u16,
    pub oy: u16,
    pub radius: i32,
    pub prefer_ore: bool,
}

/// The search environment of a query.
pub open spec fn env_of(q: PlacementQuery) -> SearchEnv {
    SearchEnv {
        placeable: *q.placeable,
        ore: q.ore@,
        pass: *q.pass,
        fw: q.fw,
        fh: q.fh,
        ox: q.ox,
        oy: q.oy,
        radius: q.radius as int,
        prefer_ore: q.prefer_ore,
    }
}

/// An exec rank.
#[derive(Clone, Copy)]
struct ExecRank {
    first: u32,
    second: u32,
    x: u16,
    y: u16,
}

spec fn rank_view(r: ExecRank) -> Rank {
    Rank { first: r.first as int, second: r.second as int, x: r.x, y: r.y }
}

spec fn opt_rank(r: Option<ExecRank>) -> Option<Rank> {
    match r {
        Some(b) => Some(rank_view(b)),
        None => None,
    }
}

fn better(a: &ExecRank, b: &ExecRank) -> (r: bool)
    ensures
        r == rank_lt(rank_view(*a), rank_view(*b)),
{
    a.first < b.first || (a.first == b.first && (a.second < b.second || (a.second == b.second && (a.x < b.x || (a.x
        == b.x && a.y < b.y)))))
}

fn rank_at(q: &PlacementQuery, x: u16, y: u16) -> (r: ExecRank)
    requires
        q.pass.wf(),
        q.fw >= 1,
        q.fh >= 1,
    ensures
        rank_view(r) == rank_of(env_of(*q), x, y),
{
    let hx = (q.fw - 1) / 2;
    let hy = (q.fh - 1) / 2;
    let cx: u16 = if x as u32 + hx as u32 > u16::MAX as u32 {
        u16::MAX
    } else {
        x + hx
    };
    let cy: u16 = if y as u32 + hy as u32 > u16::MAX as u32 {
        u16::MAX
    } else {
        y + hy
    };
    let yard = chebyshev_u16(cx, cy, q.ox, q.oy);
    if q.prefer_ore {
        let ore = match nearest_harvestable_ore(q.ore, q.pass, cx, cy) {
            Some(o) => chebyshev_u16(cx, cy, o.0, o.1),
            None => NO_ORE_DISTANCE,
        };
        ExecRank { first: ore, second: yard, x, y }
    } else {
        ExecRank { first: yard, second: 0, x, y }
    }
}

/// The best open spot for the query (see [`best_spot`]): offsets run
/// column by column from `-radius` to `radius`; negative coordinates are
/// skipped and the others taken as `u16`.
pub fn find_best_open_with_gap(q: &PlacementQuery) -> (r: Option<(u16, u16)>)
    requires
        q.placeable.wf(),
        q.pass.wf(),
        q.fw >= 1,
        q.fh >= 1,
        q.radius <= 0x7fff_0000,
    ensures
        r == best_spot(env_of(*q)),
{
    let ghost env = env_of(*q);
    let r = q.radius;
    let mut best: Option<ExecRank> = None;
    if r < 0 {
        return None;
    }
    let mut dx: i32 = -r;
    while dx <= r
        invariant
            -r <= dx <= r + 1,
            0 <= r <= 0x7fff_0000,
            r == q.radius,
            env == env_of(*q),
            q.placeable.wf(),
            q.pass.wf(),
            q.fw >= 1,
            q.fh >= 1,
            scan_columns(env, None, -env.radius) == scan_columns(env, opt_rank(best), dx as int),
        decreases r + 1 - dx,
    {
        let mut dy: i32 = -r;
        let ghost b0 = opt_rank(best);
        while dy <= r
            invariant
                -r <= dy <= r + 1,
                -r <= dx <= r,
                0 <= r <= 0x7fff_0000,
                r == q.radius,
                env == env_of(*q),
                q.placeable.wf(),
                q.pass.wf(),
                q.fw >= 1,
                q.fh >= 1,
                scan_columns(env, None, -env.radius) == scan_columns(env, scan_column(env, b0, dx as int, -env.radius), dx + 1),
                scan_column(env, b0, dx as int, -env.radius) == scan_column(env, opt_rank(best), dx as int, dy as int),
            decreases r + 1 - dy,
        {
            let x: i32 = q.ox as i32 + dx;
            let y: i32 = q.oy as i32 + dy;
            if x >= 0 && y >= 0 {
                let cx: u16 = #[verifier::truncate] (x as u16);
                let cy: u16 = #[verifier::truncate] (y as u16);
                if q.placeable.is_passable(cx, cy) {
                    let k = rank_at(q, cx, cy);
                    let take = match &best {
                        Some(b) => better(&k, b),
                        None => true,
                    };
                    if take {
                        best = Some(k);
                    }
                }
            }
            dy = dy + 1;
        }
        dx = dx + 1;
    }
    match best {
        Some(b) => Some((b.x, b.y)),
        None => None,
    }
}

/// The spot for a building: with `extra` (the spots that keep the extra
/// space the type wants), the best of those first; else, or when there is
/// none, the best of `q`'s.
pub fn find_best_open(q: &PlacementQuery, extra: Option<&MoveGrid>) -> (r: Option<(u16, u16)>)
    requires
        q.placeable.wf(),
        q.pass.wf(),
        q.fw >= 1,
        q.fh >= 1,
        q.radius <= 0x7fff_0000,
        extra matches Some(g) ==> g.wf(),
    ensures
        r == match extra {
            Some(g) => match best_spot(SearchEnv { placeable: *g, ..env_of(*q) }) {
                Some(c) => Some(c),
                None => best_spot(env_of(*q)),
            },
            None => best_spot(env_of(*q)),
        },
{
    if let Some(g) = extra {
        let wide = PlacementQuery {
            placeable: g,
            ore: q.ore,
            pass: q.pass,
            fw: q.fw,
            fh: q.fh,
            ox: q.ox,
            oy: q.oy,
            radius: q.radius,
            prefer_ore: q.prefer_ore,
        };
        assert(env_of(wide) == (SearchEnv { placeable: *g, ..env_of(*q) }));
        if let Some(c) = find_best_open_with_gap(&wide) {
            return Some(c);
        }
    }
    find_best_open_with_gap(q)
}

} // verus!
