//! Choosing where a unit paths to: the passability grid a path search runs
//! on, the free cell nearest an occupied destination, and the clean-up of a
//! found path.

use vstd::prelude::*;

use crate::entities::{is_mobile, mobile, EntityRecord};

verus! {

/// Passability of the map cells for one path search (row-major; a cell
/// outside the map is never passable).
#[derive(Clone, Debug)]
pub struct MoveGrid {
    width: u16,
    height: u16,
    cells: Vec<bool>,
}

impl MoveGrid {
    /// Width of the grid in cells.
    pub closed spec fn width(&self) -> int {
        self.width as int
    }

    /// Height of the grid in cells.
    pub closed spec fn height(&self) -> int {
        self.height as int
    }

    /// Whether cell `(x, y)` is inside the grid.
    pub open spec fn in_bounds(&self, x: int, y: int) -> bool {
        0 <= x < self.width() && 0 <= y < self.height()
    }

    /// Whether cell `(x, y)` may be walked on.
    pub closed spec fn passable(&self, x: int, y: int) -> bool {
        self.in_bounds(x, y) && self.cells@[y * (self.width as int) + x]
    }

    /// The walkable cells, as a predicate.
    pub open spec fn pass_fn(&self) -> spec_fn(int, int) -> bool {
        |x: int, y: int| self.passable(x, y)
    }

    /// Internal shape: one entry per cell.
    pub closed spec fn wf(&self) -> bool {
        self.cells@.len() == (self.width as int) * (self.height as int)
    }

    proof fn lemma_index(&self, x: int, y: int)
        requires
            self.wf(),
            self.in_bounds(x, y),
        ensures
            0 <= y * (self.width as int) + x < self.cells@.len(),
    {
        let w = self.width as int;
        let h = self.height as int;
        assert(0 <= y * w + x < h * w) by (nonlinear_arith)
            requires
                0 <= x < w,
                0 <= y < h,
        ;
        assert(h * w == w * h) by (nonlinear_arith);
    }

    proof fn lemma_index_distinct(&self, x1: int, y1: int, x2: int, y2: int)
        requires
            self.wf(),
            self.in_bounds(x1, y1),
            self.in_bounds(x2, y2),
            x1 != x2 || y1 != y2,
        ensures
            y1 * (self.width as int) + x1 != y2 * (self.width as int) + x2,
    {
        let w = self.width as int;
        if y1 == y2 {
        } else if y1 < y2 {
            assert(y1 * w + x1 < y2 * w + x2) by (nonlinear_arith)
                requires
                    0 <= x1 < w,
                    0 <= x2,
                    y1 + 1 <= y2,
            ;
        } else {
            assert(y2 * w + x2 < y1 * w + x1) by (nonlinear_arith)
                requires
                    0 <= x2 < w,
                    0 <= x1,
                    y2 + 1 <= y1,
            ;
        }
    }

    /// A `width` by `height` grid whose cells are all `passable` or all
    /// blocked.
    pub fn new(width: u16, height: u16, passable: bool) -> (g: Self)
        ensures
            g.wf(),
            g.width() == width,
            g.height() == height,
            forall|x: int, y: int| #[trigger] g.passable(x, y) == (g.in_bounds(x, y) && passable),
    {
        assert((width as int) * (height as int) <= 0xffff * 0xffff) by (nonlinear_arith)
            requires
                width <= 0xffff,
                height <= 0xffff,
        ;
        let n: usize = (width as usize) * (height as usize);
        let mut cells: Vec<bool> = Vec::new();
        let mut i: usize = 0;
        while i < n
            invariant
                i <= n,
                cells@.len() == i,
                forall|k: int| 0 <= k < i ==> cells@[k] == passable,
            decreases n - i,
        {
            cells.push(passable);
            i = i + 1;
        }
        let g = MoveGrid { width, height, cells };
        assert forall|x: int, y: int| #[trigger] g.passable(x, y) == (g.in_bounds(x, y) && passable) by {
            if g.in_bounds(x, y) {
                g.lemma_index(x, y);
            }
        }
        g
    }

    /// A copy of the grid.
    pub fn copy(&self) -> (g: Self)
        requires
            self.wf(),
        ensures
            g.wf(),
            g.width() == self.width(),
            g.height() == self.height(),
            g.pass_fn() == self.pass_fn(),
    {
        let mut cells: Vec<bool> = Vec::new();
        let mut i: usize = 0;
        while i < self.cells.len()
            invariant
                i <= self.cells@.len(),
                cells@ == self.cells@.take(i as int),
            decreases self.cells@.len() - i,
        {
            cells.push(self.cells[i]);
            i = i + 1;
            assert(cells@ =~= self.cells@.take(i as int));
        }
        assert(cells@ =~= self.cells@);
        let g = MoveGrid { width: self.width, height: self.height, cells };
        assert(g.pass_fn() =~= self.pass_fn());
        g
    }

    /// Whether cell `(x, y)` may be walked on.
    pub fn is_passable(&self, x: u16, y: u16) -> (r: bool)
        requires
            self.wf(),
        ensures
            r == self.passable(x as int, y as int),
    {
        if x < self.width && y < self.height {
            let len = self.cells.len();
            proof {
                self.lemma_index(x as int, y as int);
            }
            self.cells[(y as usize) * (self.width as usize) + (x as usize)]
        } else {
            false
        }
    }

    /// Marks cell `(x, y)` walkable or blocked; a cell outside the grid is
    /// left alone.
    pub fn set_passable(&mut self, x: u16, y: u16, passable: bool)
        requires
            old(self).wf(),
        ensures
            final(self).wf(),
            final(self).width() == old(self).width(),
            final(self).height() == old(self).height(),
            forall|a: int, b: int| #[trigger]
                final(self).passable(a, b) == if a == x && b == y && old(self).in_bounds(a, b) {
                    passable
                } else {
                    old(self).passable(a, b)
                },
    {
        if x < self.width && y < self.height {
            let len = self.cells.len();
            proof {
                self.lemma_index(x as int, y as int);
            }
            let ghost before = *self;
            let idx = (y as usize) * (self.width as usize) + (x as usize);
            self.cells.set(idx, passable);
            proof {
                assert forall|a: int, b: int| #[trigger]
                    self.passable(a, b) == if a == x && b == y && before.in_bounds(a, b) {
                        passable
                    } else {
                        before.passable(a, b)
                    } by {
                    if before.in_bounds(a, b) && !(a == x && b == y) {
                        before.lemma_index(a, b);
                        before.lemma_index_distinct(a, b, x as int, y as int);
                    }
                }
            }
        }
    }
}


/// Largest ring searched around an unwalkable destination.
pub const GOAL_SEARCH_RADIUS: i32 = 8;

/// Absolute value.
pub open spec fn abs(v: int) -> int {
    if v < 0 {
        -v
    } else {
        v
    }
}

/// Offset `(dx, dy)` lies on the square ring of radius `r`.
pub open spec fn on_ring(r: int, dx: int, dy: int) -> bool {
    &&& -r <= dx <= r
    &&& -r <= dy <= r
    &&& (abs(dx) == r || abs(dy) == r)
}

/// Cell reached from `(tx, ty)` by offset `(dx, dy)`, as the game narrows it
/// to cell coordinates.
pub open spec fn offset_cell(tx: u16, ty: u16, dx: int, dy: int) -> (u16, u16) {
    ((tx + dx) as u16, (ty + dy) as u16)
}

/// Offset `(dx, dy)` on ring `r` around `(tx, ty)` is a walkable cell (by
/// `pass`) at non-negative coordinates.
pub open spec fn ring_candidate(pass: spec_fn(int, int) -> bool, tx: u16, ty: u16, r: int, dx: int, dy: int) -> bool {
    &&& on_ring(r, dx, dy)
    &&& tx + dx >= 0
    &&& ty + dy >= 0
    &&& pass(offset_cell(tx, ty, dx, dy).0 as int, offset_cell(tx, ty, dx, dy).1 as int)
}

/// Squared distance from `(sx, sy)` to `(x, y)`.
pub open spec fn dist2(sx: u16, sy: u16, x: int, y: int) -> int {
    (x - sx) * (x - sx) + (y - sy) * (y - sy)
}

/// Candidate `a` ranks before candidate `b`: nearer the start, then the
/// smaller cell X, then the smaller cell Y.
pub open spec fn goal_before(sx: u16, sy: u16, tx: u16, ty: u16, a: (int, int), b: (int, int)) -> bool {
    let da = dist2(sx, sy, tx + a.0, ty + a.1);
    let db = dist2(sx, sy, tx + b.0, ty + b.1);
    let ca = offset_cell(tx, ty, a.0, a.1);
    let cb = offset_cell(tx, ty, b.0, b.1);
    da < db || (da == db && (ca.0 < cb.0 || (ca.0 == cb.0 && ca.1 < cb.1)))
}

/// Some ring of radius `1..=limit` around the target has a candidate.
pub open spec fn candidate_within(pass: spec_fn(int, int) -> bool, tx: u16, ty: u16, limit: int) -> bool {
    exists|r: int, dx: int, dy: int| 1 <= r <= limit && #[trigger] ring_candidate(pass, tx, ty, r, dx, dy)
}

/// `c` is the cell of a best-ranked candidate on ring `r`.
pub open spec fn best_on_ring_is(
    pass: spec_fn(int, int) -> bool,
    sx: u16,
    sy: u16,
    tx: u16,
    ty: u16,
    r: int,
    c: (u16, u16),
) -> bool {
    exists|dx: int, dy: int|
        {
            &&& #[trigger] ring_candidate(pass, tx, ty, r, dx, dy)
            &&& c == offset_cell(tx, ty, dx, dy)
            &&& forall|ex: int, ey: int| #[trigger]
                ring_candidate(pass, tx, ty, r, ex, ey) ==> !goal_before(sx, sy, tx, ty, (ex, ey), (dx, dy))
        }
}

/// `c` is where a unit heading for `(tx, ty)` from `(sx, sy)` paths to, on
/// the cells that `pass` marks walkable: the destination itself when
/// walkable; else, on the nearest ring (radius 1 to 8) around it that has
/// walkable cells, the best-ranked one; else the destination unchanged.
pub open spec fn is_free_goal(pass: spec_fn(int, int) -> bool, sx: u16, sy: u16, tx: u16, ty: u16, c: (u16, u16)) -> bool {
    &&& pass(tx as int, ty as int) ==> c == (tx, ty)
    &&& !pass(tx as int, ty as int) && !candidate_within(pass, tx, ty, GOAL_SEARCH_RADIUS as int) ==> c == (tx, ty)
    &&& !pass(tx as int, ty as int) && candidate_within(pass, tx, ty, GOAL_SEARCH_RADIUS as int) ==> exists|r: int|
        1 <= r <= GOAL_SEARCH_RADIUS && !candidate_within(pass, tx, ty, r - 1) && #[trigger] best_on_ring_is(
            pass,
            sx,
            sy,
            tx,
            ty,
            r,
            c,
        )
}

/// The start lies close enough to the target that the squared distance of
/// every cell searched fits an `i32`.
pub open spec fn goal_search_fits(sx: u16, sy: u16, tx: u16, ty: u16) -> bool {
    (abs(tx - sx) + 8) * (abs(tx - sx) + 8) + (abs(ty - sy) + 8) * (abs(ty - sy) + 8) <= 0x7fff_ffff
}

/// The best-ranked walkable cell on ring `r` around `(tx, ty)`, if any.
fn best_on_ring(g: &MoveGrid, sx: u16, sy: u16, tx: u16, ty: u16, r: i32) -> (c: Option<(u16, u16)>)
    requires
        g.wf(),
        1 <= r <= GOAL_SEARCH_RADIUS,
    ensures
        match c {
            Some(c) => best_on_ring_is(g.pass_fn(), sx, sy, tx, ty, r as int, c),
            None => forall|dx: int, dy: int| !#[trigger] ring_candidate(g.pass_fn(), tx, ty, r as int, dx, dy),
        },
{
    let mut best: Option<(i64, u16, u16)> = None;
    let ghost mut bdx: int = 0;
    let ghost mut bdy: int = 0;
    let mut dy: i32 = -r;
    while dy <= r
        invariant
            g.wf(),
            1 <= r <= GOAL_SEARCH_RADIUS,
            -r <= dy <= r + 1,
            match best {
                None => forall|ex: int, ey: int| ey < dy ==> !#[trigger] ring_candidate(g.pass_fn(), tx, ty, r as int, ex, ey),
                Some((bd, bx, by)) => {
                    &&& ring_candidate(g.pass_fn(), tx, ty, r as int, bdx, bdy)
                    &&& bd == dist2(sx, sy, tx + bdx, ty + bdy)
                    &&& (bx, by) == offset_cell(tx, ty, bdx, bdy)
                    &&& forall|ex: int, ey: int|
                        ey < dy && #[trigger] ring_candidate(g.pass_fn(), tx, ty, r as int, ex, ey) ==> !goal_before(
                            sx,
                            sy,
                            tx,
                            ty,
                            (ex, ey),
                            (bdx, bdy),
                        )
                },
            },
        decreases r + 1 - dy,
    {
        let mut dx: i32 = -r;
        while dx <= r
            invariant
                g.wf(),
                1 <= r <= GOAL_SEARCH_RADIUS,
                -r <= dy <= r,
                -r <= dx <= r + 1,
                match best {
                    None => forall|ex: int, ey: int|
                        (ey < dy || (ey == dy && ex < dx)) ==> !#[trigger] ring_candidate(g.pass_fn(), tx, ty, r as int, ex, ey),
                    Some((bd, bx, by)) => {
                        &&& ring_candidate(g.pass_fn(), tx, ty, r as int, bdx, bdy)
                        &&& bd == dist2(sx, sy, tx + bdx, ty + bdy)
                        &&& (bx, by) == offset_cell(tx, ty, bdx, bdy)
                        &&& forall|ex: int, ey: int|
                            (ey < dy || (ey == dy && ex < dx)) && #[trigger] ring_candidate(g.pass_fn(), tx, ty, r as int, ex, ey)
                                ==> !goal_before(sx, sy, tx, ty, (ex, ey), (bdx, bdy))
                    },
                },
            decreases r + 1 - dx,
        {
            let on = dx == -r || dx == r || dy == -r || dy == r;
            let x: i32 = tx as i32 + dx;
            let y: i32 = ty as i32 + dy;
            let ghost before = best;
            if on && x >= 0 && y >= 0 {
                let xu = #[verifier::truncate] (x as u16);
                let yu = #[verifier::truncate] (y as u16);
                if g.is_passable(xu, yu) {
                    let ddx: i64 = x as i64 - sx as i64;
                    let ddy: i64 = y as i64 - sy as i64;
                    proof {
                        assert(ddx * ddx <= 0x1_0010 * 0x1_0010) by (nonlinear_arith)
                            requires
                                -0x1_0010 <= ddx <= 0x1_0010,
                        ;
                        assert(ddy * ddy <= 0x1_0010 * 0x1_0010) by (nonlinear_arith)
                            requires
                                -0x1_0010 <= ddy <= 0x1_0010,
                        ;
                        assert(ddx * ddx >= 0) by (nonlinear_arith);
                        assert(ddy * ddy >= 0) by (nonlinear_arith);
                    }
                    let d: i64 = ddx * ddx + ddy * ddy;
                    let better = match best {
                        None => true,
                        Some((bd, bx, by)) => d < bd || (d == bd && (xu < bx || (xu == bx && yu < by))),
                    };
                    proof {
                        assert(ring_candidate(g.pass_fn(), tx, ty, r as int, dx as int, dy as int));
                        assert(d == dist2(sx, sy, tx + dx, ty + dy));
                    }
                    if better {
                        best = Some((d, xu, yu));
                        proof {
                            bdx = dx as int;
                            bdy = dy as int;
                        }
                    }
                }
            }
            dx = dx + 1;
        }
        dy = dy + 1;
    }
    match best {
        Some((_, bx, by)) => {
            assert(best_on_ring_is(g.pass_fn(), sx, sy, tx, ty, r as int, (bx, by))) by {
                assert forall|ex: int, ey: int| #[trigger]
                    ring_candidate(g.pass_fn(), tx, ty, r as int, ex, ey) implies !goal_before(sx, sy, tx, ty, (ex, ey), (bdx, bdy)) by {
                    assert(ey < dy);
                }
            }
            Some((bx, by))
        },
        None => {
            assert forall|ex: int, ey: int| !#[trigger] ring_candidate(g.pass_fn(), tx, ty, r as int, ex, ey) by {
                if ring_candidate(g.pass_fn(), tx, ty, r as int, ex, ey) {
                    assert(ey < dy);
                }
            }
            None
        },
    }
}


/// Where a unit heading for `(tx, ty)` from `(sx, sy)` should path to: the
/// destination itself when walkable; else, on the nearest ring (radius 1 to
/// 8) around it that has walkable cells, the one nearest the start (then the
/// smaller X, then the smaller Y); else the destination unchanged.
pub fn nearest_free_goal(g: &MoveGrid, sx: u16, sy: u16, tx: u16, ty: u16) -> (c: (u16, u16))
    requires
        g.wf(),
        goal_search_fits(sx, sy, tx, ty),
    ensures
        is_free_goal(g.pass_fn(), sx, sy, tx, ty, c),
{
    if g.is_passable(tx, ty) {
        return (tx, ty);
    }
    assert(!g.pass_fn()(tx as int, ty as int));
    let mut radius: i32 = 1;
    while radius <= GOAL_SEARCH_RADIUS
        invariant
            g.wf(),
            1 <= radius <= GOAL_SEARCH_RADIUS + 1,
            !g.passable(tx as int, ty as int),
            !candidate_within(g.pass_fn(), tx, ty, radius - 1),
        decreases GOAL_SEARCH_RADIUS + 1 - radius,
    {
        match best_on_ring(g, sx, sy, tx, ty, radius) {
            Some(c) => {
                assert(best_on_ring_is(g.pass_fn(), sx, sy, tx, ty, radius as int, c));
                assert(candidate_within(g.pass_fn(), tx, ty, GOAL_SEARCH_RADIUS as int)) by {
                    let (dx, dy) = choose|dx: int, dy: int|
                        {
                            &&& #[trigger] ring_candidate(g.pass_fn(), tx, ty, radius as int, dx, dy)
                            &&& c == offset_cell(tx, ty, dx, dy)
                            &&& forall|ex: int, ey: int| #[trigger]
                                ring_candidate(g.pass_fn(), tx, ty, radius as int, ex, ey) ==> !goal_before(
                                    sx,
                                    sy,
                                    tx,
                                    ty,
                                    (ex, ey),
                                    (dx, dy),
                                )
                        };
                    assert(ring_candidate(g.pass_fn(), tx, ty, radius as int, dx, dy));
                }
                return c;
            },
            None => {
                assert(!candidate_within(g.pass_fn(), tx, ty, radius as int)) by {
                    if candidate_within(g.pass_fn(), tx, ty, radius as int) {
                        let (r, dx, dy) = choose|r: int, dx: int, dy: int|
                            1 <= r <= radius && #[trigger] ring_candidate(g.pass_fn(), tx, ty, r, dx, dy);
                        if r < radius {
                            assert(candidate_within(g.pass_fn(), tx, ty, radius - 1));
                        }
                    }
                }
            },
        }
        radius = radius + 1;
    }
    (tx, ty)
}


/// A living mobile entity other than entity `mover` stands on `(x, y)`.
pub open spec fn occupied_by_other(es: Seq<EntityRecord>, mover: int, x: int, y: int) -> bool {
    exists|j: int|
        0 <= j < es.len() && j != mover && {
            let e = #[trigger] es[j];
            &&& e.alive
            &&& e.identity matches Some(i) && mobile(i.kind)
            &&& e.cell matches Some(c) && c.0 == x && c.1 == y
        }
}

/// Blocks on `grid` every cell on which a living mobile entity other than
/// entity `mover` stands (a path search does not walk through units).
pub fn block_other_mobiles(grid: &mut MoveGrid, entities: &[EntityRecord], mover: usize)
    requires
        old(grid).wf(),
    ensures
        final(grid).wf(),
        final(grid).width() == old(grid).width(),
        final(grid).height() == old(grid).height(),
        forall|x: int, y: int| #[trigger]
            final(grid).passable(x, y) == (old(grid).passable(x, y) && !occupied_by_other(entities@, mover as int, x, y)),
{
    let ghost g0 = *grid;
    let mut j: usize = 0;
    while j < entities.len()
        invariant
            j <= entities@.len(),
            grid.wf(),
            grid.width() == g0.width(),
            grid.height() == g0.height(),
            forall|x: int, y: int| #[trigger]
                grid.passable(x, y) == (g0.passable(x, y) && !occupied_by_other(entities@.take(j as int), mover as int, x, y)),
        decreases entities@.len() - j,
    {
        let ghost before = *grid;
        let e = &entities[j];
        let moving = match &e.identity {
            Some(i) => is_mobile(i.kind),
            None => false,
        };
        if j != mover && e.alive && moving {
            match e.cell {
                Some((cx, cy)) => {
                    grid.set_passable(cx, cy, false);
                },
                None => {},
            }
        }
        proof {
            let t0 = entities@.take(j as int);
            let t1 = entities@.take(j + 1);
            assert forall|x: int, y: int| #[trigger]
                grid.passable(x, y) == (g0.passable(x, y) && !occupied_by_other(t1, mover as int, x, y)) by {
                if occupied_by_other(t0, mover as int, x, y) {
                    let k = choose|k: int| 0 <= k < t0.len() && k != mover && {
                        let e = #[trigger] t0[k];
                        &&& e.alive
                        &&& e.identity matches Some(i) && mobile(i.kind)
                        &&& e.cell matches Some(c) && c.0 == x && c.1 == y
                    };
                    assert(t1[k] == t0[k]);
                }
                if occupied_by_other(t1, mover as int, x, y) {
                    let k = choose|k: int| 0 <= k < t1.len() && k != mover && {
                        let e = #[trigger] t1[k];
                        &&& e.alive
                        &&& e.identity matches Some(i) && mobile(i.kind)
                        &&& e.cell matches Some(c) && c.0 == x && c.1 == y
                    };
                    if k < j {
                        assert(t0[k] == t1[k]);
                    } else {
                        assert(t1[k] == entities@[j as int]);
                        assert(!grid.passable(x, y));
                    }
                }
                if !occupied_by_other(t1, mover as int, x, y) && before.passable(x, y) {
                    if j != mover && e.alive && moving {
                        if let Some((cx, cy)) = e.cell {
                            if x == cx && y == cy {
                                assert(t1[j as int] == entities@[j as int]);
                                assert(occupied_by_other(t1, mover as int, x, y));
                            }
                        }
                    }
                }
            }
        }
        j = j + 1;
    }
    assert(entities@.take(j as int) =~= entities@);
}

/// The cells of `pass` with `(x, y)` made walkable (when inside `g`).
pub open spec fn opened(pass: spec_fn(int, int) -> bool, g: MoveGrid, x: int, y: int) -> spec_fn(int, int) -> bool {
    |a: int, b: int| pass(a, b) || (a == x && b == y && g.in_bounds(a, b))
}

/// Where a unit at `(sx, sy)` heading for `(tx, ty)` paths to on `grid`: the
/// start cell is opened (a unit may leave a cell it should not stand on),
/// the goal is chosen by [`nearest_free_goal`], and a goal still blocked is
/// opened too, except for a naval unit, which then gets no path (`None`).
pub fn plan_repath_goal(grid: &mut MoveGrid, sx: u16, sy: u16, tx: u16, ty: u16, naval: bool) -> (goal: Option<(u16, u16)>)
    requires
        old(grid).wf(),
        goal_search_fits(sx, sy, tx, ty),
    ensures
        final(grid).wf(),
        final(grid).width() == old(grid).width(),
        final(grid).height() == old(grid).height(),
        ({
            let p1 = opened(old(grid).pass_fn(), *old(grid), sx as int, sy as int);
            exists|c: (u16, u16)|
                {
                    &&& #[trigger] is_free_goal(p1, sx, sy, tx, ty, c)
                    &&& if p1(c.0 as int, c.1 as int) {
                        goal == Some(c) && final(grid).pass_fn() == p1
                    } else if naval {
                        goal is None && final(grid).pass_fn() == p1
                    } else {
                        goal == Some(c) && final(grid).pass_fn() == opened(p1, *old(grid), c.0 as int, c.1 as int)
                    }
                }
        }),
{
    let ghost g0 = *grid;
    let ghost p1 = opened(g0.pass_fn(), g0, sx as int, sy as int);
    grid.set_passable(sx, sy, true);
    assert(grid.pass_fn() =~= p1);
    let c = nearest_free_goal(grid, sx, sy, tx, ty);
    assert(is_free_goal(p1, sx, sy, tx, ty, c));
    if !grid.is_passable(c.0, c.1) {
        if naval {
            return None;
        }
        let ghost g1 = *grid;
        grid.set_passable(c.0, c.1, true);
        assert(grid.pass_fn() =~= opened(p1, g0, c.0 as int, c.1 as int));
    }
    Some(c)
}

/// Whether every cell of `p` is water, as `water` marks it.
pub open spec fn keep_water(p: Seq<(u16, u16)>, water: spec_fn(int, int) -> bool) -> Seq<(u16, u16)>
    decreases p.len(),
{
    if p.len() == 0 {
        p
    } else {
        let rest = keep_water(p.drop_last(), water);
        if water(p.last().0 as int, p.last().1 as int) {
            rest.push(p.last())
        } else {
            rest
        }
    }
}

/// A found path made ready to follow: nothing when none was found; the
/// start cell dropped when the path begins with it; for a naval unit only
/// the cells that are water.
pub open spec fn finished_path(
    path: Option<Seq<(u16, u16)>>,
    sx: u16,
    sy: u16,
    naval: bool,
    water: spec_fn(int, int) -> bool,
) -> Seq<(u16, u16)> {
    match path {
        None => Seq::empty(),
        Some(p) => {
            let q = if p.len() > 0 && p[0] == (sx, sy) {
                p.drop_first()
            } else {
                p
            };
            if naval {
                keep_water(q, water)
            } else {
                q
            }
        },
    }
}

/// Makes a found path ready to follow (see [`finished_path`]).
pub fn finish_repath(path: Option<Vec<(u16, u16)>>, sx: u16, sy: u16, naval: bool, water: &MoveGrid) -> (steps: Vec<(u16, u16)>)
    requires
        water.wf(),
    ensures
        steps@ == finished_path(
            match path {
                Some(p) => Some(p@),
                None => None,
            },
            sx,
            sy,
            naval,
            water.pass_fn(),
        ),
{
    let mut p = match path {
        Some(p) => p,
        None => {
            return Vec::new();
        },
    };
    let ghost p0 = p@;
    if p.len() > 0 && p[0].0 == sx && p[0].1 == sy {
        p.remove(0);
        assert(p@ =~= p0.drop_first());
    }
    if !naval {
        return p;
    }
    let ghost q = p@;
    let mut kept: Vec<(u16, u16)> = Vec::new();
    let mut k: usize = 0;
    while k < p.len()
        invariant
            water.wf(),
            k <= q.len(),
            p@ == q,
            kept@ == keep_water(q.take(k as int), water.pass_fn()),
        decreases q.len() - k,
    {
        let c = p[k];
        proof {
            assert(q.take(k + 1).drop_last() =~= q.take(k as int));
            assert(q.take(k + 1).last() == c);
        }
        if water.is_passable(c.0, c.1) {
            kept.push(c);
        }
        k = k + 1;
    }
    assert(q.take(k as int) =~= q);
    kept
}


/// The cells a unit `mover` at `(sx, sy)` may path over on `grid`: those not
/// taken by another living mobile entity, with its own start cell opened.
pub open spec fn repath_cells(grid: MoveGrid, es: Seq<EntityRecord>, mover: int, sx: u16, sy: u16) -> spec_fn(int, int) -> bool {
    opened(|a: int, b: int| grid.passable(a, b) && !occupied_by_other(es, mover, a, b), grid, sx as int, sy as int)
}

/// The cells the path search runs on once goal `c` is chosen: `c` opened
/// when still blocked.
pub open spec fn search_cells(cells: spec_fn(int, int) -> bool, grid: MoveGrid, c: (u16, u16)) -> spec_fn(int, int) -> bool {
    if cells(c.0 as int, c.1 as int) {
        cells
    } else {
        opened(cells, grid, c.0 as int, c.1 as int)
    }
}

/// Path for entity `i` toward `destination`, computed without moving it.
/// Nothing when it has no destination or no cell. Else the grid (`grid`, the
/// map's passability for this kind of unit) has the cells of the other
/// living mobile entities blocked and the start opened; the goal is chosen
/// by [`plan_repath_goal`]; a naval unit whose goal stays blocked gets
/// nothing; otherwise `find_path` searches the grid from the start to the
/// goal, and what it found is made ready by [`finish_repath`] (`water`: the
/// water cells).
pub fn compute_repath_at<F>(
    entities: &[EntityRecord],
    i: usize,
    destination: Option<(u16, u16)>,
    naval: bool,
    grid: &MoveGrid,
    water: &MoveGrid,
    find_path: F,
) -> (steps: Vec<(u16, u16)>) where F: Fn(&MoveGrid, u16, u16, u16, u16) -> Option<Vec<(u16, u16)>>
    requires
        i < entities@.len(),
        grid.wf(),
        water.wf(),
        forall|g: &MoveGrid, a: u16, b: u16, c: u16, d: u16| call_requires(find_path, (g, a, b, c, d)),
        match (destination, entities@[i as int].cell) {
            (Some(t), Some(s)) => goal_search_fits(s.0, s.1, t.0, t.1),
            _ => true,
        },
    ensures
        match (destination, entities@[i as int].cell) {
            (Some(t), Some(s)) => {
                let cells = repath_cells(*grid, entities@, i as int, s.0, s.1);
                exists|c: (u16, u16)|
                    {
                        &&& #[trigger] is_free_goal(cells, s.0, s.1, t.0, t.1, c)
                        &&& if !cells(c.0 as int, c.1 as int) && naval {
                            steps@ == Seq::<(u16, u16)>::empty()
                        } else {
                            exists|g2: MoveGrid, found: Option<Vec<(u16, u16)>>|
                                {
                                    &&& g2.pass_fn() == search_cells(cells, *grid, c)
                                    &&& #[trigger] call_ensures(find_path, (&g2, s.0, s.1, c.0, c.1), found)
                                    &&& steps@ == finished_path(
                                        match found {
                                            Some(p) => Some(p@),
                                            None => None,
                                        },
                                        s.0,
                                        s.1,
                                        naval,
                                        water.pass_fn(),
                                    )
                                }
                        }
                    }
            },
            _ => steps@ == Seq::<(u16, u16)>::empty(),
        },
{
    let (tx, ty) = match destination {
        Some(t) => t,
        None => {
            return Vec::new();
        },
    };
    let (sx, sy) = match entities[i].cell {
        Some(s) => s,
        None => {
            return Vec::new();
        },
    };
    let ghost cells = repath_cells(*grid, entities@, i as int, sx, sy);
    let mut g = grid.copy();
    let ghost gc = g;
    block_other_mobiles(&mut g, entities, i);
    let ghost gb = g;
    proof {
        assert forall|a: int, b: int| #[trigger] gb.passable(a, b) == (grid.passable(a, b) && !occupied_by_other(entities@, i as int, a, b)) by {
            assert(gc.pass_fn()(a, b) == grid.pass_fn()(a, b));
        }
        assert(gb.pass_fn() =~= (|a: int, b: int| grid.passable(a, b) && !occupied_by_other(entities@, i as int, a, b)));
        assert(opened(gb.pass_fn(), gb, sx as int, sy as int) =~= cells);
    }
    let goal = plan_repath_goal(&mut g, sx, sy, tx, ty, naval);
    let ghost c = choose|c: (u16, u16)|
        {
            &&& #[trigger] is_free_goal(cells, sx, sy, tx, ty, c)
            &&& if cells(c.0 as int, c.1 as int) {
                goal == Some(c) && g.pass_fn() == cells
            } else if naval {
                goal is None && g.pass_fn() == cells
            } else {
                goal == Some(c) && g.pass_fn() == opened(cells, gb, c.0 as int, c.1 as int)
            }
        };
    proof {
        assert(opened(cells, gb, c.0 as int, c.1 as int) =~= opened(cells, *grid, c.0 as int, c.1 as int));
    }
    let (gx, gy) = match goal {
        Some(c) => c,
        None => {
            assert(is_free_goal(cells, sx, sy, tx, ty, c));
            return Vec::new();
        },
    };
    let found = find_path(&g, sx, sy, gx, gy);
    let steps = finish_repath(found, sx, sy, naval, water);
    proof {
        assert(g.pass_fn() == search_cells(cells, *grid, c));
        assert(call_ensures(find_path, (&g, sx, sy, c.0, c.1), found));
        assert(is_free_goal(cells, sx, sy, tx, ty, c));
    }
    steps
}


/// The goal rules pick one cell: two cells that both meet them are the same.
pub proof fn law_free_goal_is_determined(
    pass: spec_fn(int, int) -> bool,
    sx: u16,
    sy: u16,
    tx: u16,
    ty: u16,
    c1: (u16, u16),
    c2: (u16, u16),
)
    requires
        is_free_goal(pass, sx, sy, tx, ty, c1),
        is_free_goal(pass, sx, sy, tx, ty, c2),
    ensures
        c1 == c2,
{
    if !pass(tx as int, ty as int) && candidate_within(pass, tx, ty, GOAL_SEARCH_RADIUS as int) {
        let r1 = choose|r: int|
            1 <= r <= GOAL_SEARCH_RADIUS && !candidate_within(pass, tx, ty, r - 1) && #[trigger] best_on_ring_is(
                pass,
                sx,
                sy,
                tx,
                ty,
                r,
                c1,
            );
        let r2 = choose|r: int|
            1 <= r <= GOAL_SEARCH_RADIUS && !candidate_within(pass, tx, ty, r - 1) && #[trigger] best_on_ring_is(
                pass,
                sx,
                sy,
                tx,
                ty,
                r,
                c2,
            );
        let (ax, ay) = choose|dx: int, dy: int|
            {
                &&& #[trigger] ring_candidate(pass, tx, ty, r1, dx, dy)
                &&& c1 == offset_cell(tx, ty, dx, dy)
                &&& forall|ex: int, ey: int| #[trigger]
                    ring_candidate(pass, tx, ty, r1, ex, ey) ==> !goal_before(sx, sy, tx, ty, (ex, ey), (dx, dy))
            };
        let (bx, by) = choose|dx: int, dy: int|
            {
                &&& #[trigger] ring_candidate(pass, tx, ty, r2, dx, dy)
                &&& c2 == offset_cell(tx, ty, dx, dy)
                &&& forall|ex: int, ey: int| #[trigger]
                    ring_candidate(pass, tx, ty, r2, ex, ey) ==> !goal_before(sx, sy, tx, ty, (ex, ey), (dx, dy))
            };
        if r1 < r2 {
            assert(candidate_within(pass, tx, ty, r2 - 1));
        } else if r2 < r1 {
            assert(candidate_within(pass, tx, ty, r1 - 1));
        } else {
            assert(!goal_before(sx, sy, tx, ty, (bx, by), (ax, ay)));
            assert(!goal_before(sx, sy, tx, ty, (ax, ay), (bx, by)));
        }
    }
}

/// The goal is a walkable cell, or the destination itself (when no walkable
/// cell lies within reach of it).
pub proof fn law_free_goal_is_walkable_or_destination(
    pass: spec_fn(int, int) -> bool,
    sx: u16,
    sy: u16,
    tx: u16,
    ty: u16,
    c: (u16, u16),
)
    requires
        is_free_goal(pass, sx, sy, tx, ty, c),
    ensures
        c == (tx, ty) || pass(c.0 as int, c.1 as int),
{
    if !pass(tx as int, ty as int) && candidate_within(pass, tx, ty, GOAL_SEARCH_RADIUS as int) {
        let r = choose|r: int|
            1 <= r <= GOAL_SEARCH_RADIUS && !candidate_within(pass, tx, ty, r - 1) && #[trigger] best_on_ring_is(
                pass,
                sx,
                sy,
                tx,
                ty,
                r,
                c,
            );
        let (dx, dy) = choose|dx: int, dy: int|
            {
                &&& #[trigger] ring_candidate(pass, tx, ty, r, dx, dy)
                &&& c == offset_cell(tx, ty, dx, dy)
                &&& forall|ex: int, ey: int| #[trigger]
                    ring_candidate(pass, tx, ty, r, ex, ey) ==> !goal_before(sx, sy, tx, ty, (ex, ey), (dx, dy))
            };
        assert(ring_candidate(pass, tx, ty, r, dx, dy));
    }
}

} // verus!
