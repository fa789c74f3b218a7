//! Where the scan for the cell beside a footprint ends: the first edge cell
//! of least distance.

use vstd::prelude::*;

use crate::navigation::{footprint_dist, manhattan_dist, nearest_in_scan, ring_scan_cell, ring_scan_len};

verus! {

/// The cell scanned at position `t` when it lies on the footprint's outer
/// edge.
#[verifier::opaque]
pub open spec fn scan_hit(fx: u16, fy: u16, width: u16, height: u16, t: int) -> Option<(u16, u16)> {
    match ring_scan_cell(fx, fy, width, height, t) {
        Some(c) => {
            let w = if width >= 1 { width } else { 1u16 };
            let h = if height >= 1 { height } else { 1u16 };
            if footprint_dist(c.0, c.1, fx, fy, w, h) == 1 {
                Some(c)
            } else {
                None
            }
        },
        None => None,
    }
}

/// Distance from `(px, py)` to the edge cell scanned at position `t` (0
/// where that cell is not on the edge).
pub open spec fn hit_dist(px: u16, py: u16, fx: u16, fy: u16, width: u16, height: u16, t: int) -> int {
    match scan_hit(fx, fy, width, height, t) {
        Some(q) => manhattan_dist(px, py, q.0, q.1),
        None => 0,
    }
}

/// No edge cell among the first `t` scanned.
pub open spec fn no_hit(fx: u16, fy: u16, width: u16, height: u16, t: int) -> bool {
    forall|j: int| 0 <= j < t ==> #[trigger] scan_hit(fx, fy, width, height, j) is None
}

/// Every edge cell scanned at a position in `[from, to)` is at distance
/// more than `d` (`strict`) or at least `d`.
pub open spec fn hits_beyond(
    px: u16,
    py: u16,
    fx: u16,
    fy: u16,
    width: u16,
    height: u16,
    from: int,
    to: int,
    d: int,
    strict: bool,
) -> bool {
    forall|j: int|
        from <= j < to && #[trigger] scan_hit(fx, fy, width, height, j) is Some ==> if strict {
            hit_dist(px, py, fx, fy, width, height, j) > d
        } else {
            hit_dist(px, py, fx, fy, width, height, j) >= d
        }
}

/// The edge cell scanned at `k` is `best` at distance `d`, every earlier
/// edge cell is farther and no later one (before `t`) is nearer.
pub open spec fn best_at(
    px: u16,
    py: u16,
    fx: u16,
    fy: u16,
    width: u16,
    height: u16,
    t: int,
    k: int,
    best: (u16, u16),
    d: int,
) -> bool {
    &&& 0 <= k < t
    &&& scan_hit(fx, fy, width, height, k) == Some(best)
    &&& d == manhattan_dist(px, py, best.0, best.1)
    &&& hits_beyond(px, py, fx, fy, width, height, 0, k, d, true)
    &&& hits_beyond(px, py, fx, fy, width, height, k, t, d, false)
}

/// The best cell among the first `t` scanned ones: `(fx, fy)` at distance
/// `u32::MAX` while no edge cell was scanned, else the first edge cell of
/// least distance.
pub open spec fn scan_best(
    px: u16,
    py: u16,
    fx: u16,
    fy: u16,
    width: u16,
    height: u16,
    t: int,
    best: (u16, u16),
    d: int,
) -> bool {
    if no_hit(fx, fy, width, height, t) {
        best == (fx, fy) && d == u32::MAX as int
    } else {
        exists|k: int| #[trigger] best_at(px, py, fx, fy, width, height, t, k, best, d)
    }
}

/// One scan step in terms of the edge cell scanned.
proof fn lemma_scan_step(px: u16, py: u16, fx: u16, fy: u16, width: u16, height: u16, t: int)
    requires
        t > 0,
    ensures
        nearest_in_scan(px, py, fx, fy, width, height, t) == match scan_hit(fx, fy, width, height, t - 1) {
            Some(c) => if manhattan_dist(px, py, c.0, c.1) < nearest_in_scan(px, py, fx, fy, width, height, t - 1).1 {
                (c, manhattan_dist(px, py, c.0, c.1))
            } else {
                nearest_in_scan(px, py, fx, fy, width, height, t - 1)
            },
            None => nearest_in_scan(px, py, fx, fy, width, height, t - 1),
        },
{
    reveal(scan_hit);
}

proof fn lemma_dist_bound(px: u16, py: u16, c: (u16, u16))
    ensures
        0 <= manhattan_dist(px, py, c.0, c.1) < u32::MAX as int,
{
}

proof fn lemma_nearest_in_scan(px: u16, py: u16, fx: u16, fy: u16, width: u16, height: u16, t: int)
    requires
        t >= 0,
    ensures
        scan_best(
            px,
            py,
            fx,
            fy,
            width,
            height,
            t,
            nearest_in_scan(px, py, fx, fy, width, height, t).0,
            nearest_in_scan(px, py, fx, fy, width, height, t).1,
        ),
    decreases t,
{
    if t > 0 {
        lemma_nearest_in_scan(px, py, fx, fy, width, height, t - 1);
        lemma_scan_step(px, py, fx, fy, width, height, t);
        let (b0, d0) = nearest_in_scan(px, py, fx, fy, width, height, t - 1);
        let (b1, d1) = nearest_in_scan(px, py, fx, fy, width, height, t);
        let m = t - 1;
        match scan_hit(fx, fy, width, height, m) {
            None => {
                if no_hit(fx, fy, width, height, m) {
                    assert(no_hit(fx, fy, width, height, t));
                } else {
                    let k = choose|k: int| #[trigger] best_at(px, py, fx, fy, width, height, m, k, b0, d0);
                    assert(best_at(px, py, fx, fy, width, height, t, k, b1, d1));
                    assert(!no_hit(fx, fy, width, height, t)) by {
                        assert(scan_hit(fx, fy, width, height, k) is Some);
                    }
                }
            },
            Some(c) => {
                lemma_dist_bound(px, py, c);
                assert(!no_hit(fx, fy, width, height, t)) by {
                    assert(scan_hit(fx, fy, width, height, m) is Some);
                }
                if no_hit(fx, fy, width, height, m) {
                    assert(best_at(px, py, fx, fy, width, height, t, m, b1, d1));
                } else {
                    let k = choose|k: int| #[trigger] best_at(px, py, fx, fy, width, height, m, k, b0, d0);
                    if manhattan_dist(px, py, c.0, c.1) < d0 {
                        assert(hits_beyond(px, py, fx, fy, width, height, 0, m, d1, true)) by {
                            assert forall|j: int|
                                0 <= j < m && #[trigger] scan_hit(fx, fy, width, height, j) is Some implies hit_dist(
                                px,
                                py,
                                fx,
                                fy,
                                width,
                                height,
                                j,
                            ) > d1 by {
                                if j >= k {
                                    assert(k <= j < m);
                                }
                            }
                        }
                        assert(best_at(px, py, fx, fy, width, height, t, m, b1, d1));
                    } else {
                        assert(best_at(px, py, fx, fy, width, height, t, k, b1, d1));
                    }
                }
            },
        }
    }
}

/// The cell a unit is sent to beside a footprint is, among the scanned
/// cells on the footprint's outer edge, one of least distance to the unit,
/// and the first such in scan order (rows top to bottom, each left to
/// right); with no edge cell scanned it is the footprint's own corner.
pub proof fn law_nearest_adjacent(px: u16, py: u16, fx: u16, fy: u16, width: u16, height: u16)
    ensures
        scan_best(
            px,
            py,
            fx,
            fy,
            width,
            height,
            ring_scan_len(width, height),
            nearest_in_scan(px, py, fx, fy, width, height, ring_scan_len(width, height)).0,
            nearest_in_scan(px, py, fx, fy, width, height, ring_scan_len(width, height)).1,
        ),
{
    lemma_nearest_in_scan(px, py, fx, fy, width, height, ring_scan_len(width, height));
}

} // verus!
