//! The movement phase: every living mobile unit with a speed walks toward
//! its destination one cell per `cell_cost` of accumulated speed, along its
//! path, planning a new path where it has none or where the next cell is
//! taken. It stops short when its attack target is in range, takes the next
//! waypoint on arrival (an attack-move ends with the last one), turns toward
//! the next cell, and a naval unit never steps onto a cell that is not water.
//!
//! One unit's turn is a small machine (`MoveStage`): it runs until it is
//! done or needs a new path; the path found is handed back and the turn goes
//! on from where it stopped.

use vstd::prelude::*;

use crate::ecs::store::copy_vec;
use crate::entities::{EntityIdentity, EntityKind, EntityRecord};
use crate::navigation::{facing, facing_toward, manhattan, manhattan_dist};
use crate::repath::{
    compute_repath_at, finished_path, goal_search_fits, is_free_goal, opened, occupied_by_other, repath_cells,
    search_cells, MoveGrid,
};

verus! {

/// Where a unit is in its turn of the movement phase.
#[derive(Clone, Copy, Debug, PartialEq, Eq, Structural)]
pub enum MoveStage {
    /// The turn has not begun.
    Start,
    /// Arrived and took the next waypoint; waits for a path to it.
    ArrivedRepath,
    /// Had no path; waits for one before setting off.
    FirstRepath,
    /// Ran out of path while stepping; waits for a new one.
    EmptyRepath,
    /// The next cell is not water for a naval unit; waits for a new path.
    NavalRepath,
    /// The next cell is taken; waits for a new path.
    BlockedRepath,
    /// The turn is over.
    Done,
}

/// A unit as the movement phase reads and writes it.
#[derive(Debug)]
pub struct Mover {
    pub id: u64,
    /// Has health and is not dead.
    pub alive: bool,
    /// Of a kind that moves.
    pub mobile: bool,
    pub naval: bool,
    /// Locomotor speed, added to the accumulator each tick.
    pub speed: u32,
    pub cell: (u16, u16),
    pub facing: u8,
    pub destination: Option<(u16, u16)>,
    /// Cells to head for after the destination.
    pub waypoints: Vec<(u16, u16)>,
    /// Cells still to step through toward the destination.
    pub path: Vec<(u16, u16)>,
    pub move_accum: u32,
    /// Its mission is an attack-move.
    pub attack_move: bool,
    /// Its attack target and weapon range.
    pub target: Option<u64>,
    pub range: u32,
    /// Walk animation frame (advances each tick it moves).
    pub walk_frame: u32,
    pub stage: MoveStage,
}

/// A mover as plain values.
#[verifier::ext_equal]
pub struct MoverView {
    pub id: u64,
    pub alive: bool,
    pub mobile: bool,
    pub naval: bool,
    pub speed: u32,
    pub cell: (u16, u16),
    pub facing: u8,
    pub destination: Option<(u16, u16)>,
    pub waypoints: Seq<(u16, u16)>,
    pub path: Seq<(u16, u16)>,
    pub move_accum: u32,
    pub attack_move: bool,
    pub target: Option<u64>,
    pub range: u32,
    pub walk_frame: u32,
    pub stage: MoveStage,
}

impl View for Mover {
    type V = MoverView;

    open spec fn view(&self) -> MoverView {
        MoverView {
            id: self.id,
            alive: self.alive,
            mobile: self.mobile,
            naval: self.naval,
            speed: self.speed,
            cell: self.cell,
            facing: self.facing,
            destination: self.destination,
            waypoints: self.waypoints@,
            path: self.path@,
            move_accum: self.move_accum,
            attack_move: self.attack_move,
            target: self.target,
            range: self.range,
            walk_frame: self.walk_frame,
            stage: self.stage,
        }
    }
}

/// The stages in which a unit waits for a path.
pub open spec fn waits_for_path(s: MoveStage) -> bool {
    s is ArrivedRepath || s is FirstRepath || s is EmptyRepath || s is NavalRepath || s is BlockedRepath
}

/// `m` moved onto the first cell of its path, facing the way it went.
pub open spec fn take_step(m: MoverView) -> MoverView {
    let n = m.path[0];
    MoverView { cell: n, facing: facing(m.cell.0, m.cell.1, n.0, n.1), path: m.path.drop_first(), ..m }
}

/// `m` setting off: facing the first cell of its path, its speed added to
/// the accumulator (saturating), its walk animation one frame on.
pub open spec fn set_off(m: MoverView) -> MoverView {
    MoverView {
        facing: if m.path.len() > 0 {
            facing(m.cell.0, m.cell.1, m.path[0].0, m.path[0].1)
        } else {
            m.facing
        },
        move_accum: if m.move_accum + m.speed > u32::MAX {
            u32::MAX
        } else {
            (m.move_accum + m.speed) as u32
        },
        walk_frame: if m.walk_frame == u32::MAX {
            0
        } else {
            (m.walk_frame + 1) as u32
        },
        ..m
    }
}

/// Stepping while a whole cell's cost is accumulated: each cell costs
/// `cost`; with no path left, the unit waits for one.
pub open spec fn run_loop(m: MoverView, occ: Seq<(u16, u16)>, water: MoveGrid, cost: u32) -> MoverView
    decreases m.move_accum, 0int,
{
    if cost == 0 || m.move_accum < cost {
        MoverView { stage: MoveStage::Done, ..m }
    } else {
        let m1 = MoverView { move_accum: (m.move_accum - cost) as u32, ..m };
        if m1.path.len() == 0 {
            MoverView { stage: MoveStage::EmptyRepath, ..m1 }
        } else {
            try_step(m1, occ, water, cost)
        }
    }
}

/// One cell's step along the path: refused for a naval unit off water or
/// onto a taken cell (the path is dropped and a new one awaited).
pub open spec fn try_step(m: MoverView, occ: Seq<(u16, u16)>, water: MoveGrid, cost: u32) -> MoverView
    decreases m.move_accum, 1int,
{
    let n = m.path[0];
    if m.naval && !water.passable(n.0 as int, n.1 as int) {
        MoverView { path: Seq::empty(), stage: MoveStage::NavalRepath, ..m }
    } else if occ.contains(n) {
        MoverView { path: Seq::empty(), stage: MoveStage::BlockedRepath, ..m }
    } else {
        run_loop(take_step(m), occ, water, cost)
    }
}

/// The start of a unit's turn (`stop`: its attack target is in range).
pub open spec fn begin_turn(m: MoverView, stop: bool, occ: Seq<(u16, u16)>, water: MoveGrid, cost: u32) -> MoverView {
    if !m.alive || !m.mobile || m.speed == 0 {
        MoverView { stage: MoveStage::Done, ..m }
    } else if stop {
        MoverView { path: Seq::empty(), stage: MoveStage::Done, ..m }
    } else {
        match m.destination {
            None => MoverView { stage: MoveStage::Done, ..m },
            Some(d) => if m.cell == d {
                if m.waypoints.len() > 0 {
                    MoverView {
                        path: Seq::empty(),
                        move_accum: 0,
                        destination: Some(m.waypoints[0]),
                        waypoints: m.waypoints.drop_first(),
                        stage: MoveStage::ArrivedRepath,
                        ..m
                    }
                } else {
                    MoverView {
                        path: Seq::empty(),
                        move_accum: 0,
                        destination: None,
                        attack_move: false,
                        stage: MoveStage::Done,
                        ..m
                    }
                }
            } else if m.path.len() == 0 {
                MoverView { stage: MoveStage::FirstRepath, ..m }
            } else {
                run_loop(set_off(m), occ, water, cost)
            },
        }
    }
}

/// The turn going on with the new path `r` it waited for.
pub open spec fn resume_turn(m: MoverView, r: Seq<(u16, u16)>, occ: Seq<(u16, u16)>, water: MoveGrid, cost: u32) -> MoverView {
    let m1 = MoverView { path: r, ..m };
    match m.stage {
        MoveStage::ArrivedRepath => MoverView { stage: MoveStage::Done, ..m1 },
        MoveStage::FirstRepath => run_loop(set_off(m1), occ, water, cost),
        MoveStage::EmptyRepath => if r.len() == 0 {
            MoverView { stage: MoveStage::Done, ..m1 }
        } else {
            try_step(m1, occ, water, cost)
        },
        MoveStage::NavalRepath => MoverView { stage: MoveStage::Done, ..m1 },
        MoveStage::BlockedRepath => if r.len() == 0 || occ.contains(r[0]) {
            MoverView { stage: MoveStage::Done, ..m1 }
        } else if m.naval && !water.passable(r[0].0 as int, r[0].1 as int) {
            MoverView { path: Seq::empty(), stage: MoveStage::Done, ..m1 }
        } else {
            run_loop(take_step(m1), occ, water, cost)
        },
        _ => m,
    }
}

/// One run of a unit's turn: from the start, or on from a wait with the
/// path found (`None` counts as no path).
#[verifier::opaque]
pub open spec fn mover_stepped(
    m: MoverView,
    stop: bool,
    occ: Seq<(u16, u16)>,
    water: MoveGrid,
    cost: u32,
    repath: Option<Seq<(u16, u16)>>,
) -> MoverView {
    match m.stage {
        MoveStage::Start => begin_turn(m, stop, occ, water, cost),
        MoveStage::Done => m,
        _ => resume_turn(
            m,
            match repath {
                Some(r) => r,
                None => Seq::empty(),
            },
            occ,
            water,
            cost,
        ),
    }
}

fn contains_cell(occ: &[(u16, u16)], c: (u16, u16)) -> (b: bool)
    ensures
        b == occ@.contains(c),
{
    let mut i: usize = 0;
    while i < occ.len()
        invariant
            i <= occ@.len(),
            forall|j: int| 0 <= j < i ==> occ@[j] != c,
        decreases occ@.len() - i,
    {
        if occ[i].0 == c.0 && occ[i].1 == c.1 {
            assert(occ@[i as int] == c);
            return true;
        }
        i = i + 1;
    }
    false
}

fn step_once(m: &mut Mover)
    requires
        old(m).path@.len() > 0,
    ensures
        final(m)@ == take_step(old(m)@),
{
    let n = m.path.remove(0);
    m.facing = facing_toward(m.cell.0, m.cell.1, n.0, n.1);
    m.cell = n;
    assert(m@ =~= take_step(old(m)@));
}

fn set_off_exec(m: &mut Mover)
    ensures
        final(m)@ == set_off(old(m)@),
{
    if m.path.len() > 0 {
        m.facing = facing_toward(m.cell.0, m.cell.1, m.path[0].0, m.path[0].1);
    }
    m.move_accum = m.move_accum.saturating_add(m.speed);
    m.walk_frame = m.walk_frame.wrapping_add(1);
    assert(m@ =~= set_off(old(m)@));
}

fn run_loop_exec(m: &mut Mover, occ: &[(u16, u16)], water: &MoveGrid, cost: u32)
    requires
        water.wf(),
    ensures
        final(m)@ == run_loop(old(m)@, occ@, *water, cost),
{
    let ghost goal = run_loop(m@, occ@, *water, cost);
    loop
        invariant
            water.wf(),
            goal == run_loop(old(m)@, occ@, *water, cost),
            run_loop(m@, occ@, *water, cost) == goal,
        decreases m.move_accum,
    {
        if cost == 0 || m.move_accum < cost {
            m.stage = MoveStage::Done;
            assert(m@ =~= goal);
            return;
        }
        let ghost before = m@;
        m.move_accum = m.move_accum - cost;
        if m.path.len() == 0 {
            m.stage = MoveStage::EmptyRepath;
            assert(m@ =~= goal);
            return;
        }
        let ghost m1 = m@;
        assert(m1 =~= MoverView { move_accum: (before.move_accum - cost) as u32, ..before });
        let n = m.path[0];
        if m.naval && !water.is_passable(n.0, n.1) {
            m.path = Vec::new();
            m.stage = MoveStage::NavalRepath;
            assert(m@ =~= goal);
            return;
        }
        if contains_cell(occ, n) {
            m.path = Vec::new();
            m.stage = MoveStage::BlockedRepath;
            assert(m@ =~= goal);
            return;
        }
        step_once(m);
        assert(run_loop(m@, occ@, *water, cost) == try_step(m1, occ@, *water, cost));
    }
}

fn try_step_exec(m: &mut Mover, occ: &[(u16, u16)], water: &MoveGrid, cost: u32)
    requires
        water.wf(),
        old(m).path@.len() > 0,
    ensures
        final(m)@ == try_step(old(m)@, occ@, *water, cost),
{
    let n = m.path[0];
    if m.naval && !water.is_passable(n.0, n.1) {
        m.path = Vec::new();
        m.stage = MoveStage::NavalRepath;
        assert(m@ =~= try_step(old(m)@, occ@, *water, cost));
        return;
    }
    if contains_cell(occ, n) {
        m.path = Vec::new();
        m.stage = MoveStage::BlockedRepath;
        assert(m@ =~= try_step(old(m)@, occ@, *water, cost));
        return;
    }
    step_once(m);
    run_loop_exec(m, occ, water, cost);
}

fn begin_turn_exec(m: &mut Mover, stop: bool, occ: &[(u16, u16)], water: &MoveGrid, cost: u32)
    requires
        water.wf(),
    ensures
        final(m)@ == begin_turn(old(m)@, stop, occ@, *water, cost),
{
    let ghost goal = begin_turn(m@, stop, occ@, *water, cost);
    if !m.alive || !m.mobile || m.speed == 0 {
        m.stage = MoveStage::Done;
        assert(m@ =~= goal);
        return;
    }
    if stop {
        m.path = Vec::new();
        m.stage = MoveStage::Done;
        assert(m@ =~= goal);
        return;
    }
    let d = match m.destination {
        Some(d) => d,
        None => {
            m.stage = MoveStage::Done;
            assert(m@ =~= goal);
            return;
        },
    };
    if m.cell.0 == d.0 && m.cell.1 == d.1 {
        m.path = Vec::new();
        m.move_accum = 0;
        if m.waypoints.len() > 0 {
            let w = m.waypoints.remove(0);
            m.destination = Some(w);
            m.stage = MoveStage::ArrivedRepath;
        } else {
            m.destination = None;
            m.attack_move = false;
            m.stage = MoveStage::Done;
        }
        assert(m@ =~= goal);
        return;
    }
    if m.path.len() == 0 {
        m.stage = MoveStage::FirstRepath;
        assert(m@ =~= goal);
        return;
    }
    set_off_exec(m);
    run_loop_exec(m, occ, water, cost);
}

/// Runs unit `m`'s turn from where it stands (see [`mover_stepped`]):
/// `stop` tells whether its attack target is in range, `occupied` lists the
/// cells other living mobile units hold, `water` the water cells, `cost` what
/// one cell costs, and `repath` the path found for the wait it stopped at.
pub fn step_mover(
    m: &mut Mover,
    stop: bool,
    occupied: &[(u16, u16)],
    water: &MoveGrid,
    cost: u32,
    repath: Option<Vec<(u16, u16)>>,
)
    requires
        water.wf(),
    ensures
        final(m)@ == mover_stepped(
            old(m)@,
            stop,
            occupied@,
            *water,
            cost,
            match repath {
                Some(r) => Some(r@),
                None => None,
            },
        ),
{
    reveal(mover_stepped);
    let ghost r0 = match &repath {
        Some(r) => r@,
        None => Seq::<(u16, u16)>::empty(),
    };
    match m.stage {
        MoveStage::Start => {
            begin_turn_exec(m, stop, occupied, water, cost);
            return;
        },
        MoveStage::Done => {
            return;
        },
        _ => {},
    }
    let r = match repath {
        Some(r) => r,
        None => Vec::new(),
    };
    assert(r@ == r0);
    let ghost m0 = m@;
    let stage = m.stage;
    m.path = r;
    match stage {
        MoveStage::ArrivedRepath => {
            m.stage = MoveStage::Done;
            assert(m@ =~= resume_turn(m0, r0, occupied@, *water, cost));
        },
        MoveStage::FirstRepath => {
            set_off_exec(m);
            run_loop_exec(m, occupied, water, cost);
        },
        MoveStage::EmptyRepath => {
            if m.path.len() == 0 {
                m.stage = MoveStage::Done;
                assert(m@ =~= resume_turn(m0, r0, occupied@, *water, cost));
            } else {
                try_step_exec(m, occupied, water, cost);
            }
        },
        MoveStage::NavalRepath => {
            m.stage = MoveStage::Done;
            assert(m@ =~= resume_turn(m0, r0, occupied@, *water, cost));
        },
        _ => {
            if m.path.len() == 0 || contains_cell(occupied, m.path[0]) {
                m.stage = MoveStage::Done;
                assert(m@ =~= resume_turn(m0, r0, occupied@, *water, cost));
            } else if m.naval && !water.is_passable(m.path[0].0, m.path[0].1) {
                m.path = Vec::new();
                m.stage = MoveStage::Done;
                assert(m@ =~= resume_turn(m0, r0, occupied@, *water, cost));
            } else {
                step_once(m);
                run_loop_exec(m, occupied, water, cost);
            }
        },
    }
}

/// The views of a list of movers.
pub open spec fn mover_views(ms: Seq<Mover>) -> Seq<MoverView> {
    ms.map_values(|m: Mover| m@)
}

/// Index of the first mover with `id` at or after `k`.
pub open spec fn index_from(ms: Seq<MoverView>, id: u64, k: int) -> Option<int>
    decreases ms.len() - k,
{
    if k < 0 || k >= ms.len() {
        None
    } else if ms[k].id == id {
        Some(k)
    } else {
        index_from(ms, id, k + 1)
    }
}

/// Whether mover `i`'s attack target exists, is alive and within its range.
pub open spec fn stop_in(ms: Seq<MoverView>, i: int) -> bool {
    let m = ms[i];
    match m.target {
        Some(t) => match index_from(ms, t, 0) {
            Some(j) => ms[j].alive && manhattan_dist(m.cell.0, m.cell.1, ms[j].cell.0, ms[j].cell.1) <= m.range,
            None => false,
        },
        None => false,
    }
}

/// The cells that the living mobile movers among the first `n`, other than
/// mover `i`, stand on, in order.
pub open spec fn held(ms: Seq<MoverView>, i: int, n: int) -> Seq<(u16, u16)>
    decreases n,
{
    if n <= 0 {
        Seq::empty()
    } else {
        let rest = held(ms, i, n - 1);
        let o = ms[n - 1];
        if n - 1 != i && o.alive && o.mobile {
            rest.push(o.cell)
        } else {
            rest
        }
    }
}

/// Whether one of `occ` is the cell `(a, b)`.
pub open spec fn occ_at(occ: Seq<(u16, u16)>, a: int, b: int) -> bool {
    exists|j: int| 0 <= j < occ.len() && #[trigger] occ[j].0 == a && occ[j].1 == b
}

/// The cells a unit at `s` may path over: walkable on `grid`, not held by
/// another unit, and its own start cell.
pub open spec fn moving_cells(grid: MoveGrid, occ: Seq<(u16, u16)>, s: (u16, u16)) -> spec_fn(int, int) -> bool {
    opened(|a: int, b: int| grid.passable(a, b) && !occ_at(occ, a, b), grid, s.0 as int, s.1 as int)
}

/// `steps` is what a new path search for `m` may give (the contract of
/// [`compute_repath_at`], with the other units' cells `occ`): the goal is
/// chosen by the free-goal rules, a naval unit whose goal stays blocked gets
/// nothing, otherwise `find_path` searched the cells and its result was made
/// ready. A destination too far for the goal search's arithmetic gives
/// nothing.
#[verifier::opaque]
pub open spec fn repath_ok<F: Fn(&MoveGrid, u16, u16, u16, u16) -> Option<Vec<(u16, u16)>>>(
    m: MoverView,
    occ: Seq<(u16, u16)>,
    grid: MoveGrid,
    water: MoveGrid,
    find_path: F,
    steps: Seq<(u16, u16)>,
) -> bool {
    let s = m.cell;
    match m.destination {
        Some(t) => if goal_search_fits(s.0, s.1, t.0, t.1) {
            let cells = moving_cells(grid, occ, s);
            exists|c: (u16, u16)|
                {
                    &&& #[trigger] is_free_goal(cells, s.0, s.1, t.0, t.1, c)
                    &&& if !cells(c.0 as int, c.1 as int) && m.naval {
                        steps == Seq::<(u16, u16)>::empty()
                    } else {
                        exists|g2: MoveGrid, found: Option<Vec<(u16, u16)>>|
                            {
                                &&& g2.pass_fn() == search_cells(cells, grid, c)
                                &&& #[trigger] call_ensures(find_path, (&g2, s.0, s.1, c.0, c.1), found)
                                &&& steps == finished_path(
                                    match found {
                                        Some(p) => Some(p@),
                                        None => None,
                                    },
                                    s.0,
                                    s.1,
                                    m.naval,
                                    water.pass_fn(),
                                )
                            }
                    }
                }
        } else {
            steps == Seq::<(u16, u16)>::empty()
        },
        None => steps == Seq::<(u16, u16)>::empty(),
    }
}

/// The turn fed the paths `rs`, one per wait, in order.
#[verifier::opaque]
pub open spec fn fed(
    m: MoverView,
    stop: bool,
    occ: Seq<(u16, u16)>,
    water: MoveGrid,
    cost: u32,
    rs: Seq<Seq<(u16, u16)>>,
) -> MoverView
    decreases rs.len(),
{
    if rs.len() == 0 {
        m
    } else {
        mover_stepped(fed(m, stop, occ, water, cost, rs.drop_last()), stop, occ, water, cost, Some(rs.last()))
    }
}

/// Every path `rs` fed to the turn came at a wait and is one a search may
/// give for the unit as it then stood.
#[verifier::opaque]
pub open spec fn trace_ok<F: Fn(&MoveGrid, u16, u16, u16, u16) -> Option<Vec<(u16, u16)>>>(
    first: MoverView,
    stop: bool,
    occ: Seq<(u16, u16)>,
    grid: MoveGrid,
    water: MoveGrid,
    cost: u32,
    find_path: F,
    rs: Seq<Seq<(u16, u16)>>,
) -> bool {
    forall|k: int|
        0 <= k < rs.len() ==> waits_for_path(fed(first, stop, occ, water, cost, rs.take(k)).stage) && repath_ok(
            fed(first, stop, occ, water, cost, rs.take(k)),
            occ,
            grid,
            water,
            find_path,
            #[trigger] rs[k],
        )
}

/// Mover `i`'s turn in the phase: it starts from its state before the phase
/// against the movers before it as they ended their turns and those after
/// it as they were, runs until done, and every path it waited for is one
/// that a search may give (see [`repath_ok`]).
pub open spec fn mover_turn<F: Fn(&MoveGrid, u16, u16, u16, u16) -> Option<Vec<(u16, u16)>>>(
    olds: Seq<MoverView>,
    news: Seq<MoverView>,
    i: int,
    grid: MoveGrid,
    water: MoveGrid,
    cost: u32,
    find_path: F,
) -> bool {
    let ms = news.take(i) + olds.skip(i);
    let stop = stop_in(ms, i);
    let occ = held(ms, i, ms.len() as int);
    let first = mover_stepped(MoverView { stage: MoveStage::Start, ..olds[i] }, stop, occ, water, cost, None);
    exists|rs: Seq<Seq<(u16, u16)>>|
        {
            &&& news[i] == #[trigger] fed(first, stop, occ, water, cost, rs)
            &&& news[i].stage == MoveStage::Done
            &&& trace_ok(first, stop, occ, grid, water, cost, find_path, rs)
        }
}

/// Order of the waits, for the turn's termination.
pub open spec fn wait_phase(s: MoveStage) -> int {
    if s is ArrivedRepath || s is FirstRepath {
        2
    } else if waits_for_path(s) {
        1
    } else {
        0
    }
}

pub open spec fn wait_rank(s: MoveStage) -> int {
    if s is EmptyRepath {
        2
    } else if s is BlockedRepath {
        1
    } else {
        0
    }
}

proof fn lemma_run_loop_shape(m: MoverView, occ: Seq<(u16, u16)>, water: MoveGrid, cost: u32)
    ensures
        ({
            let r = run_loop(m, occ, water, cost);
            r.stage is Done || ((r.stage is EmptyRepath || r.stage is NavalRepath || r.stage is BlockedRepath)
                && r.move_accum < m.move_accum)
        }),
    decreases m.move_accum, 0int,
{
    if !(cost == 0 || m.move_accum < cost) {
        let m1 = MoverView { move_accum: (m.move_accum - cost) as u32, ..m };
        if m1.path.len() != 0 {
            lemma_try_step_shape(m1, occ, water, cost);
        }
    }
}

proof fn lemma_try_step_shape(m: MoverView, occ: Seq<(u16, u16)>, water: MoveGrid, cost: u32)
    ensures
        ({
            let r = try_step(m, occ, water, cost);
            r.stage is Done || ((r.stage is NavalRepath || r.stage is BlockedRepath) && r.move_accum == m.move_accum)
                || ((r.stage is EmptyRepath || r.stage is NavalRepath || r.stage is BlockedRepath) && r.move_accum
                < m.move_accum)
        }),
    decreases m.move_accum, 1int,
{
    let n = m.path[0];
    if !(m.naval && !water.passable(n.0 as int, n.1 as int)) && !occ.contains(n) {
        lemma_run_loop_shape(take_step(m), occ, water, cost);
    }
}

/// A step of the turn never goes back to its start, and a wait is followed
/// by the end of the turn or by a later wait (see [`wait_phase`]).
proof fn lemma_step_progress(m: MoverView, stop: bool, occ: Seq<(u16, u16)>, water: MoveGrid, cost: u32, r: Option<Seq<(u16, u16)>>)
    ensures
        !(mover_stepped(m, stop, occ, water, cost, r).stage is Start),
        waits_for_path(m.stage) ==> {
            let n = mover_stepped(m, stop, occ, water, cost, r);
            n.stage is Done || wait_phase(n.stage) < wait_phase(m.stage) || (wait_phase(n.stage) == wait_phase(m.stage)
                && (n.move_accum < m.move_accum || (n.move_accum == m.move_accum && wait_rank(n.stage) < wait_rank(
                m.stage))))
        },
{
    reveal(mover_stepped);
    let rr = match r {
        Some(x) => x,
        None => Seq::empty(),
    };
    let m1 = MoverView { path: rr, ..m };
    match m.stage {
        MoveStage::Start => {
            if m.alive && m.mobile && m.speed != 0 && !stop {
                if let Some(d) = m.destination {
                    if m.cell != d && m.path.len() != 0 {
                        lemma_run_loop_shape(set_off(m), occ, water, cost);
                    }
                }
            }
        },
        MoveStage::FirstRepath => {
            lemma_run_loop_shape(set_off(m1), occ, water, cost);
        },
        MoveStage::EmptyRepath => {
            if rr.len() != 0 {
                lemma_try_step_shape(m1, occ, water, cost);
            }
        },
        MoveStage::BlockedRepath => {
            if !(rr.len() == 0 || occ.contains(rr[0])) && !(m.naval && !water.passable(rr[0].0 as int, rr[0].1 as int)) {
                lemma_run_loop_shape(take_step(m1), occ, water, cost);
            }
        },
        _ => {},
    }
}

/// One more fed path runs one more step of the turn.
proof fn lemma_fed_step(first: MoverView, stop: bool, occ: Seq<(u16, u16)>, water: MoveGrid, cost: u32, rs: Seq<Seq<(u16, u16)>>, r: Seq<(u16, u16)>)
    ensures
        fed(first, stop, occ, water, cost, rs.push(r)) == mover_stepped(fed(first, stop, occ, water, cost, rs), stop, occ, water, cost, Some(r)),
{
    reveal(fed);
    assert(rs.push(r).drop_last() =~= rs);
}

/// Feeding one more path extends the record of the turn.
proof fn lemma_fed_push<F: Fn(&MoveGrid, u16, u16, u16, u16) -> Option<Vec<(u16, u16)>>>(
    first: MoverView,
    stop: bool,
    occ: Seq<(u16, u16)>,
    grid: MoveGrid,
    water: MoveGrid,
    cost: u32,
    find_path: F,
    rs: Seq<Seq<(u16, u16)>>,
    r: Seq<(u16, u16)>,
)
    requires
        waits_for_path(fed(first, stop, occ, water, cost, rs).stage),
        repath_ok(fed(first, stop, occ, water, cost, rs), occ, grid, water, find_path, r),
        trace_ok(first, stop, occ, grid, water, cost, find_path, rs),
    ensures
        fed(first, stop, occ, water, cost, rs.push(r)) == mover_stepped(fed(first, stop, occ, water, cost, rs), stop, occ, water, cost, Some(r)),
        trace_ok(first, stop, occ, grid, water, cost, find_path, rs.push(r)),
{
    lemma_fed_step(first, stop, occ, water, cost, rs, r);
    reveal(trace_ok);
    let rs2 = rs.push(r);
    assert(rs2.drop_last() =~= rs);
    assert forall|k: int| 0 <= k < rs2.len() implies #[trigger] waits_for_path(fed(first, stop, occ, water, cost, rs2.take(k)).stage) by {
        if k < rs.len() {
            assert(rs2.take(k) =~= rs.take(k));
            assert(rs2[k] == rs[k]);
        } else {
            assert(rs2.take(k) =~= rs);
        }
    }
    assert forall|k: int| 0 <= k < rs2.len() implies repath_ok(fed(first, stop, occ, water, cost, rs2.take(k)), occ, grid, water, find_path, #[trigger] rs2[k]) by {
        if k < rs.len() {
            assert(rs2.take(k) =~= rs.take(k));
            assert(rs2[k] == rs[k]);
        } else {
            assert(rs2.take(k) =~= rs);
            assert(rs2[k] == r);
        }
    }
    assert(trace_ok(first, stop, occ, grid, water, cost, find_path, rs2));
}

fn copy_mover(m: &Mover) -> (c: Mover)
    ensures
        c@ == m@,
{
    let c = Mover {
        id: m.id,
        alive: m.alive,
        mobile: m.mobile,
        naval: m.naval,
        speed: m.speed,
        cell: m.cell,
        facing: m.facing,
        destination: m.destination,
        waypoints: copy_vec(&m.waypoints),
        path: copy_vec(&m.path),
        move_accum: m.move_accum,
        attack_move: m.attack_move,
        target: m.target,
        range: m.range,
        walk_frame: m.walk_frame,
        stage: m.stage,
    };
    assert(c@ =~= m@);
    c
}

/// Whether mover `i`'s attack target is in range (see [`stop_in`]).
fn stop_exec(ms: &Vec<Mover>, i: usize) -> (b: bool)
    requires
        i < ms@.len(),
    ensures
        b == stop_in(mover_views(ms@), i as int),
{
    let ghost vs = mover_views(ms@);
    let m = &ms[i];
    assert(vs[i as int] == m@);
    let t = match m.target {
        Some(t) => t,
        None => {
            return false;
        },
    };
    let mut j: usize = 0;
    while j < ms.len()
        invariant
            j <= ms@.len(),
            vs == mover_views(ms@),
            i < ms@.len(),
            index_from(vs, t, 0) == index_from(vs, t, j as int),
            vs[i as int].target == Some(t),
            vs[i as int].cell == m.cell,
            vs[i as int].range == m.range,
        decreases ms@.len() - j,
    {
        assert(vs[j as int] == ms@[j as int]@);
        if ms[j].id == t {
            assert(index_from(vs, t, j as int) == Some(j as int));
            let o = &ms[j];
            return o.alive && manhattan(m.cell.0, m.cell.1, o.cell.0, o.cell.1) <= m.range;
        }
        j = j + 1;
    }
    false
}

/// The cells other living mobile movers than `i` stand on (see [`held`]).
fn held_exec(ms: &Vec<Mover>, i: usize) -> (occ: Vec<(u16, u16)>)
    ensures
        occ@ == held(mover_views(ms@), i as int, ms@.len() as int),
{
    let ghost vs = mover_views(ms@);
    let mut occ: Vec<(u16, u16)> = Vec::new();
    let mut j: usize = 0;
    while j < ms.len()
        invariant
            j <= ms@.len(),
            vs == mover_views(ms@),
            occ@ == held(vs, i as int, j as int),
        decreases ms@.len() - j,
    {
        let o = &ms[j];
        if j != i && o.alive && o.mobile {
            occ.push(o.cell);
        }
        j = j + 1;
    }
    occ
}

/// Whether a goal search from `s` toward `t` fits its arithmetic.
fn search_fits(sx: u16, sy: u16, tx: u16, ty: u16) -> (b: bool)
    ensures
        b == goal_search_fits(sx, sy, tx, ty),
{
    let dx: u64 = if tx >= sx { (tx - sx) as u64 } else { (sx - tx) as u64 };
    let dy: u64 = if ty >= sy { (ty - sy) as u64 } else { (sy - ty) as u64 };
    assert((dx + 8) * (dx + 8) <= 65543 * 65543) by (nonlinear_arith)
        requires
            dx <= 65535,
    ;
    assert((dy + 8) * (dy + 8) <= 65543 * 65543) by (nonlinear_arith)
        requires
            dy <= 65535,
    ;
    (dx + 8) * (dx + 8) + (dy + 8) * (dy + 8) <= 0x7fff_ffff
}

/// A new path for `m` among the units standing on `occ` (see
/// [`repath_ok`]), searched with [`compute_repath_at`].
fn repath_mover<F>(m: &Mover, occ: &Vec<(u16, u16)>, grid: &MoveGrid, water: &MoveGrid, find_path: F) -> (steps: Vec<(u16, u16)>)
    where
        F: Fn(&MoveGrid, u16, u16, u16, u16) -> Option<Vec<(u16, u16)>>,
    requires
        grid.wf(),
        water.wf(),
        forall|g: &MoveGrid, a: u16, b: u16, c: u16, d: u16| call_requires(find_path, (g, a, b, c, d)),
    ensures
        repath_ok(m@, occ@, *grid, *water, find_path, steps@),
{
    reveal(repath_ok);
    let t = match m.destination {
        Some(t) => t,
        None => {
            return Vec::new();
        },
    };
    if !search_fits(m.cell.0, m.cell.1, t.0, t.1) {
        return Vec::new();
    }
    let mut records: Vec<EntityRecord> = Vec::new();
    let mut j: usize = 0;
    while j < occ.len()
        invariant
            j <= occ@.len(),
            records@.len() == j,
            forall|k: int|
                0 <= k < j ==> ((#[trigger] records@[k]).alive && (records@[k].identity matches Some(id) && id.kind
                    == EntityKind::Unit) && records@[k].cell == Some(occ@[k])),
        decreases occ@.len() - j,
    {
        records.push(
            EntityRecord {
                alive: true,
                owner: None,
                identity: Some(EntityIdentity { kind: EntityKind::Unit, type_id: String::new(), tag: None }),
                cell: Some(occ[j]),
            },
        );
        j = j + 1;
    }
    let n = occ.len();
    records.push(
        EntityRecord {
            alive: true,
            owner: None,
            identity: Some(EntityIdentity { kind: EntityKind::Unit, type_id: String::new(), tag: None }),
            cell: Some(m.cell),
        },
    );
    let ghost rs = records@;
    proof {
        assert forall|a: int, b: int| occupied_by_other(rs, n as int, a, b) == occ_at(occ@, a, b) by {
            if occupied_by_other(rs, n as int, a, b) {
                let k = choose|k: int|
                    0 <= k < rs.len() && k != n && {
                        let e = #[trigger] rs[k];
                        &&& e.alive
                        &&& e.identity matches Some(i) && crate::entities::mobile(i.kind)
                        &&& e.cell matches Some(c) && c.0 == a && c.1 == b
                    };
                assert(occ@[k].0 == a && occ@[k].1 == b);
            }
            if occ_at(occ@, a, b) {
                let k = choose|k: int| 0 <= k < occ@.len() && #[trigger] occ@[k].0 == a && occ@[k].1 == b;
                assert(rs[k].alive);
                assert(k != n);
                assert(rs[k].identity matches Some(i) && crate::entities::mobile(i.kind));
            }
        }
        let f1 = |a: int, b: int| grid.passable(a, b) && !occupied_by_other(rs, n as int, a, b);
        let f2 = |a: int, b: int| grid.passable(a, b) && !occ_at(occ@, a, b);
        assert(f1 =~= f2);
        assert(repath_cells(*grid, rs, n as int, m.cell.0, m.cell.1) == moving_cells(*grid, occ@, m.cell));
    }
    compute_repath_at(&records, n, m.destination, m.naval, grid, water, find_path)
}

/// The movement phase: each mover in order takes its turn (see
/// [`mover_turn`]) against the cells the others hold as they stand at that
/// moment; `grid` is the map's walkable cells, `water` its water cells,
/// `cost` what one cell costs, `find_path` the path search.
pub fn advance_movement<F>(movers: &mut Vec<Mover>, grid: &MoveGrid, water: &MoveGrid, cost: u32, find_path: F)
    where
        F: Fn(&MoveGrid, u16, u16, u16, u16) -> Option<Vec<(u16, u16)>> + Copy,
    requires
        grid.wf(),
        water.wf(),
        forall|g: &MoveGrid, a: u16, b: u16, c: u16, d: u16| call_requires(find_path, (g, a, b, c, d)),
    ensures
        final(movers)@.len() == old(movers)@.len(),
        forall|i: int|
            0 <= i < old(movers)@.len() ==> #[trigger] mover_turn(
                mover_views(old(movers)@),
                mover_views(final(movers)@),
                i,
                *grid,
                *water,
                cost,
                find_path,
            ),
{
    let ghost olds = mover_views(movers@);
    let n = movers.len();
    let mut i: usize = 0;
    while i < n
        invariant
            grid.wf(),
            water.wf(),
            forall|g: &MoveGrid, a: u16, b: u16, c: u16, d: u16| call_requires(find_path, (g, a, b, c, d)),
            n == olds.len(),
            olds == mover_views(old(movers)@),
            movers@.len() == n,
            i <= n,
            forall|j: int| i <= j < n ==> (#[trigger] movers@[j])@ == olds[j],
            forall|j: int| 0 <= j < i ==> #[trigger] mover_turn(olds, mover_views(movers@), j, *grid, *water, cost, find_path),
        decreases n - i,
    {
        let ghost cur = mover_views(movers@);
        let stop = stop_exec(movers, i);
        let occ = held_exec(movers, i);
        let mut m = copy_mover(&movers[i]);
        m.stage = MoveStage::Start;
        let ghost start = m@;
        assert(start =~= MoverView { stage: MoveStage::Start, ..olds[i as int] });
        step_mover(&mut m, stop, &occ, water, cost, None);
        proof {
            lemma_step_progress(start, stop, occ@, *water, cost, None);
        }
        let ghost first = m@;
        let ghost mut rs: Seq<Seq<(u16, u16)>> = Seq::empty();
        proof {
            reveal(trace_ok);
            reveal(fed);
        }
        while m.stage != MoveStage::Done
            invariant
                grid.wf(),
                water.wf(),
                forall|g: &MoveGrid, a: u16, b: u16, c: u16, d: u16| call_requires(find_path, (g, a, b, c, d)),
                !(m.stage is Start),
                m@ == fed(first, stop, occ@, *water, cost, rs),
                trace_ok(first, stop, occ@, *grid, *water, cost, find_path, rs),
            decreases wait_phase(m.stage), m.move_accum, wait_rank(m.stage),
        {
            let ghost before = m@;
            let steps = repath_mover(&m, &occ, grid, water, find_path);
            let ghost r = steps@;
            step_mover(&mut m, stop, &occ, water, cost, Some(steps));
            proof {
                lemma_step_progress(before, stop, occ@, *water, cost, Some(r));
                lemma_fed_push(first, stop, occ@, *grid, *water, cost, find_path, rs, r);
                rs = rs.push(r);
            }
        }
        let ghost done = m@;
        movers.set(i, m);
        proof {
            let nw = mover_views(movers@);
            assert(nw.take(i as int) + olds.skip(i as int) =~= cur);
            assert(nw[i as int] == done);
            assert(nw[i as int] == fed(first, stop, occ@, *water, cost, rs));
            assert(mover_turn(olds, nw, i as int, *grid, *water, cost, find_path));
            assert forall|j: int| 0 <= j < i implies #[trigger] mover_turn(olds, nw, j, *grid, *water, cost, find_path) by {
                assert(nw.take(j) =~= cur.take(j));
                assert(nw[j] == cur[j]);
                assert(mover_turn(olds, cur, j, *grid, *water, cost, find_path));
            }
        }
        i = i + 1;
    }
}

} // verus!
