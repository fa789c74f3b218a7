//! Movement helpers on cells: facing, Manhattan distances to points and
//! building footprints, and stepping along a path.

use vstd::prelude::*;

use crate::ai::abs_diff;

verus! {

/// Facing after turning `current` toward `desired` by at most `step` units
/// (256 units per turn), the short way round (a half turn goes forward).
pub open spec fn turned(current: u8, desired: u8, step: u8) -> u8 {
    if current == desired || step == 0 {
        current
    } else {
        let d = (desired as int - current as int) % 256;
        let delta = if d > 128 {
            d - 256
        } else {
            d
        };
        let moved = if delta > 0 {
            if delta <= step {
                delta
            } else {
                step as int
            }
        } else {
            if delta >= -(step as int) {
                delta
            } else {
                -(step as int)
            }
        };
        ((current as int + moved) % 256) as u8
    }
}

/// Turns `current` toward `desired` by at most `step`.
pub fn turn_facing_toward(current: &mut u8, desired: u8, step: u8)
    ensures
        *final(current) == turned(*old(current), desired, step),
{
    if *current == desired || step == 0 {
        return;
    }
    let cur = *current as i16;
    let want = desired as i16;
    let raw = want - cur;
    let mut delta = if raw < 0 { raw + 256 } else { raw };
    if delta > 128 {
        delta = delta - 256;
    }
    let moved = if delta > 0 {
        if delta <= step as i16 { delta } else { step as i16 }
    } else {
        if delta >= -(step as i16) { delta } else { -(step as i16) }
    };
    let sum = cur + moved;
    let wrapped = if sum < 0 { sum + 256 } else if sum >= 256 { sum - 256 } else { sum };
    *current = wrapped as u8;
}

/// Manhattan distance between two cells.
pub open spec fn manhattan_dist(ax: u16, ay: u16, bx: u16, by: u16) -> int {
    abs_diff(ax as int, bx as int) + abs_diff(ay as int, by as int)
}

/// Manhattan distance between two cells.
pub fn manhattan(ax: u16, ay: u16, bx: u16, by: u16) -> (d: u32)
    ensures
        d == manhattan_dist(ax, ay, bx, by),
{
    let dx: u32 = if ax >= bx { (ax - bx) as u32 } else { (bx - ax) as u32 };
    let dy: u32 = if ay >= by { (ay - by) as u32 } else { (by - ay) as u32 };
    dx + dy
}

/// Last column/row of a footprint starting at `f` with `size` cells (a size
/// of 0 counts as 1; saturating at the map edge).
pub open spec fn footprint_end(f: u16, size: u16) -> int {
    let s = if size >= 1 {
        size as int
    } else {
        1
    };
    if f + s - 1 > u16::MAX {
        u16::MAX as int
    } else {
        f + s - 1
    }
}

/// `v` clamped into `[lo, hi]`.
pub open spec fn clamp(v: int, lo: int, hi: int) -> int {
    if v < lo {
        lo
    } else if v > hi {
        hi
    } else {
        v
    }
}

/// Manhattan distance from a cell to the nearest cell of a footprint
/// (0 inside it).
pub open spec fn footprint_dist(px: u16, py: u16, fx: u16, fy: u16, width: u16, height: u16) -> int {
    abs_diff(px as int, clamp(px as int, fx as int, footprint_end(fx, width)))
        + abs_diff(py as int, clamp(py as int, fy as int, footprint_end(fy, height)))
}

/// Manhattan distance from `(px, py)` to the footprint whose top-left cell is
/// `(fx, fy)`; 0 inside it.
pub fn manhattan_to_footprint(px: u16, py: u16, fx: u16, fy: u16, width: u16, height: u16) -> (d: u32)
    ensures
        d == footprint_dist(px, py, fx, fy, width, height),
{
    let width = if width >= 1 { width } else { 1 };
    let height = if height >= 1 { height } else { 1 };
    let x2 = fx.saturating_add(width - 1);
    let y2 = fy.saturating_add(height - 1);
    let cx = if px < fx { fx } else if px > x2 { x2 } else { px };
    let cy = if py < fy { fy } else if py > y2 { y2 } else { py };
    manhattan(px, py, cx, cy)
}

/// Whether the cell touches the footprint's outer edge (distance exactly 1).
pub fn is_adjacent_to_footprint(px: u16, py: u16, fx: u16, fy: u16, width: u16, height: u16) -> (adjacent: bool)
    ensures
        adjacent == (footprint_dist(px, py, fx, fy, width, height) == 1),
{
    manhattan_to_footprint(px, py, fx, fy, width, height) == 1
}

/// Cell visited at position `t` of the scan of the ring around a footprint:
/// rows from `fy - 1` to the row below it, each row from `fx - 1` to the
/// column right of it (`None` for a negative coordinate).
pub open spec fn ring_scan_cell(fx: u16, fy: u16, width: u16, height: u16, t: int) -> Option<(u16, u16)> {
    let w = if width >= 1 {
        width as int
    } else {
        1
    };
    let cols = w + 2;
    let x = fx - 1 + t % cols;
    let y = fy - 1 + t / cols;
    if x < 0 || y < 0 {
        None
    } else {
        Some((x as u16, y as u16))
    }
}

/// Number of cells in that scan.
pub open spec fn ring_scan_len(width: u16, height: u16) -> int {
    let w = if width >= 1 {
        width as int
    } else {
        1
    };
    let h = if height >= 1 {
        height as int
    } else {
        1
    };
    (w + 2) * (h + 2)
}

/// Best cell among the first `t` scanned cells: the first adjacent cell of
/// least distance to `(px, py)`, with its distance; `(fx, fy)` and
/// `u32::MAX` while none was found.
pub open spec fn nearest_in_scan(
    px: u16,
    py: u16,
    fx: u16,
    fy: u16,
    width: u16,
    height: u16,
    t: int,
) -> ((u16, u16), int)
    decreases t,
{
    if t <= 0 {
        ((fx, fy), u32::MAX as int)
    } else {
        let (best, best_d) = nearest_in_scan(px, py, fx, fy, width, height, t - 1);
        match ring_scan_cell(fx, fy, width, height, t - 1) {
            None => (best, best_d),
            Some(c) => {
                let w = if width >= 1 { width } else { 1u16 };
                let h = if height >= 1 { height } else { 1u16 };
                if footprint_dist(c.0, c.1, fx, fy, w, h) == 1 && manhattan_dist(px, py, c.0, c.1) < best_d {
                    (c, manhattan_dist(px, py, c.0, c.1))
                } else {
                    (best, best_d)
                }
            },
        }
    }
}

/// The cell on the footprint's outer edge nearest to `(px, py)` (first in
/// scan order on ties), as a move destination; passability is not checked.
pub fn nearest_adjacent_to_footprint(px: u16, py: u16, fx: u16, fy: u16, width: u16, height: u16) -> (c: (u16, u16))
    ensures
        c == nearest_in_scan(px, py, fx, fy, width, height, ring_scan_len(width, height)).0,
{
    let w = if width >= 1 { width } else { 1 };
    let h = if height >= 1 { height } else { 1 };
    let x1 = fx as i32;
    let y1 = fy as i32;
    let x2 = x1 + w as i32 - 1;
    let y2 = y1 + h as i32 - 1;
    let cols = w as i32 + 2;
    let mut best: (u16, u16) = (fx, fy);
    let mut best_d: u32 = u32::MAX;
    let mut y = y1 - 1;
    while y <= y2 + 1
        invariant
            x1 == fx as i32,
            y1 == fy as i32,
            w == (if width >= 1 { width } else { 1u16 }),
            h == (if height >= 1 { height } else { 1u16 }),
            x2 == x1 + w - 1,
            y2 == y1 + h - 1,
            cols == w + 2,
            y1 - 1 <= y <= y2 + 2,
            (best, best_d as int) == nearest_in_scan(px, py, fx, fy, width, height, (y - (y1 - 1)) * cols),
        decreases y2 + 2 - y,
    {
        let mut x = x1 - 1;
        while x <= x2 + 1
            invariant
                x1 == fx as i32,
                y1 == fy as i32,
                w == (if width >= 1 { width } else { 1u16 }),
                h == (if height >= 1 { height } else { 1u16 }),
                x2 == x1 + w - 1,
                y2 == y1 + h - 1,
                cols == w + 2,
                y1 - 1 <= y <= y2 + 1,
                x1 - 1 <= x <= x2 + 2,
                (best, best_d as int) == nearest_in_scan(
                    px,
                    py,
                    fx,
                    fy,
                    width,
                    height,
                    (y - (y1 - 1)) * cols + (x - (x1 - 1)),
                ),
            decreases x2 + 2 - x,
        {
            let ghost t = (y - (y1 - 1)) * cols + (x - (x1 - 1));
            proof {
                assert(t % (cols as int) == x - (x1 - 1) && t / (cols as int) == y - (y1 - 1)) by (nonlinear_arith)
                    requires
                        t == (y - (y1 - 1)) * cols + (x - (x1 - 1)),
                        0 <= x - (x1 - 1) < cols,
                        0 <= y - (y1 - 1),
                ;
            }
            if x >= 0 && y >= 0 {
                let xu = x as u16;
                let yu = y as u16;
                if is_adjacent_to_footprint(xu, yu, fx, fy, w, h) {
                    let d = manhattan(px, py, xu, yu);
                    if d < best_d {
                        best_d = d;
                        best = (xu, yu);
                    }
                }
            }
            x = x + 1;
        }
        proof {
            assert((y - (y1 - 1)) * cols + cols == (y + 1 - (y1 - 1)) * cols) by (nonlinear_arith);
        }
        y = y + 1;
    }
    proof {
        assert((h as int + 2) * cols == ring_scan_len(width, height)) by (nonlinear_arith)
            requires
                cols == w + 2,
                w == (if width >= 1 { width } else { 1u16 }),
                h == (if height >= 1 { height } else { 1u16 }),
        ;
    }
    best
}

/// Facing (0..256, east = 0, clockwise in steps of 32) from one cell toward
/// an adjacent one; 0 for the same cell.
pub open spec fn facing(from_x: u16, from_y: u16, to_x: u16, to_y: u16) -> u8 {
    let sx = if to_x > from_x {
        1int
    } else if to_x < from_x {
        -1int
    } else {
        0int
    };
    let sy = if to_y > from_y {
        1int
    } else if to_y < from_y {
        -1int
    } else {
        0int
    };
    if sx == 1 && sy == 0 {
        0
    } else if sx == 1 && sy == 1 {
        32
    } else if sx == 0 && sy == 1 {
        64
    } else if sx == -1 && sy == 1 {
        96
    } else if sx == -1 && sy == 0 {
        128
    } else if sx == -1 && sy == -1 {
        160
    } else if sx == 0 && sy == -1 {
        192
    } else if sx == 1 && sy == -1 {
        224
    } else {
        0
    }
}

/// Facing from one cell toward another.
pub fn facing_toward(from_x: u16, from_y: u16, to_x: u16, to_y: u16) -> (f: u8)
    ensures
        f == facing(from_x, from_y, to_x, to_y),
{
    let sx: i32 = if to_x > from_x { 1 } else if to_x < from_x { -1 } else { 0 };
    let sy: i32 = if to_y > from_y { 1 } else if to_y < from_y { -1 } else { 0 };
    if sx == 1 && sy == 0 {
        0
    } else if sx == 1 && sy == 1 {
        32
    } else if sx == 0 && sy == 1 {
        64
    } else if sx == -1 && sy == 1 {
        96
    } else if sx == -1 && sy == 0 {
        128
    } else if sx == -1 && sy == -1 {
        160
    } else if sx == 0 && sy == -1 {
        192
    } else if sx == 1 && sy == -1 {
        224
    } else {
        0
    }
}

/// Pops the first cell of the path and returns it with the facing from
/// `(from_x, from_y)` toward it; an empty path gives `None`.
pub fn take_path_step(path: &mut Vec<(u16, u16)>, from_x: u16, from_y: u16) -> (step: Option<(u16, u16, u8)>)
    ensures
        old(path)@.len() == 0 ==> step is None && final(path)@ == old(path)@,
        old(path)@.len() > 0 ==> step == Some(
            (old(path)@[0].0, old(path)@[0].1, facing(from_x, from_y, old(path)@[0].0, old(path)@[0].1)),
        ) && final(path)@ == old(path)@.drop_first(),
{
    if path.len() == 0 {
        return None;
    }
    let (x, y) = path.remove(0);
    proof {
        assert(old(path)@.remove(0) =~= old(path)@.drop_first());
    }
    let f = facing_toward(from_x, from_y, x, y);
    Some((x, y, f))
}

/// Turning never overshoots: the turned facing is within `step` of the start
/// and, once the remaining turn is within `step`, lands on the target.
pub proof fn law_turn_reaches_target(current: u8, desired: u8, step: u8)
    ensures
        ({
            let d = (desired as int - current as int) % 256;
            let dist = if d > 128 {
                256 - d
            } else {
                d
            };
            dist <= step ==> turned(current, desired, step) == desired
        }),
{
    let d = (desired as int - current as int) % 256;
    if current != desired && step != 0 {
        if d > 128 {
            assert(((current as int + (d - 256)) % 256) == desired as int);
        } else {
            assert(((current as int + d) % 256) == desired as int);
        }
    }
}

/// A cell's distance to a footprint is 0 exactly when it lies inside it,
/// and never more than its distance to the footprint's anchor cell.
pub proof fn law_footprint_distance(px: u16, py: u16, fx: u16, fy: u16, width: u16, height: u16)
    ensures
        footprint_dist(px, py, fx, fy, width, height) <= manhattan_dist(px, py, fx, fy),
        (footprint_dist(px, py, fx, fy, width, height) == 0) == (fx <= px <= footprint_end(fx, width)
            && fy <= py <= footprint_end(fy, height)),
        footprint_dist(px, py, fx, fy, 1, 1) == manhattan_dist(px, py, fx, fy),
{
}

} // verus!
