//! Ore harvesting: empty harvesters mine the ore under them, full ones
//! unload next to a living refinery of their house and earn its income;
//! idle ones head for the nearest ore or unload cell.

use vstd::prelude::*;

use crate::ai::{chebyshev, chebyshev_u16};
use crate::repairs::{account_of, account_views, find_account, AccountView, HouseAccount};
use crate::repath::MoveGrid;
use crate::key_order::{compare_keys, KeyOrder};

verus! {

/// An overlay cell of the map.
#[derive(Clone, Copy, Debug, PartialEq, Eq, Structural)]
pub struct OreCell {
    pub x: u16,
    pub y: u16,
    /// Its overlay type can be harvested.
    pub harvestable: bool,
    /// Ore left (density).
    pub data: u8,
}

/// What a harvester carries and how far its current load has come.
#[derive(Clone, Copy, Debug, PartialEq, Eq, Structural)]
pub struct HarvestState {
    /// Ticks spent mining the current load.
    pub accum: u32,
    /// Loads carried.
    pub cargo: u32,
}

/// A unit's movement orders as the idle test reads them.
#[derive(Clone, Copy, Debug, PartialEq, Eq, Structural)]
pub struct MoveFacts {
    /// Steps left on its path.
    pub path_len: usize,
    pub dest_x: Option<u16>,
    pub dest_y: Option<u16>,
}

/// A living harvester with an owner and a position.
#[derive(Clone, Debug)]
pub struct Harvester {
    pub owner: String,
    pub x: u16,
    pub y: u16,
    /// Its harvest state, when it has one.
    pub state: Option<HarvestState>,
    /// Its movement orders, when it has any.
    pub movement: Option<MoveFacts>,
}

/// An entity as the refinery lookups read it.
#[derive(Clone, Debug)]
pub struct RefinerySite {
    pub alive: bool,
    pub owner: Option<String>,
    /// A structure whose type is a refinery.
    pub refinery: bool,
    pub cell: Option<(u16, u16)>,
}

/// A harvester as plain values.
pub struct HarvesterView {
    pub owner: Seq<char>,
    pub x: u16,
    pub y: u16,
    pub state: Option<HarvestState>,
    pub movement: Option<MoveFacts>,
}

/// The harvesters as plain values.
pub open spec fn harvester_views(hs: Seq<Harvester>) -> Seq<HarvesterView> {
    hs.map_values(
        |h: Harvester| HarvesterView { owner: h.owner@, x: h.x, y: h.y, state: h.state, movement: h.movement },
    )
}

/// A refinery site as plain values.
pub struct SiteView {
    pub alive: bool,
    pub owner: Option<Seq<char>>,
    pub refinery: bool,
    pub cell: Option<(u16, u16)>,
}

/// The sites as plain values.
pub open spec fn site_views(rs: Seq<RefinerySite>) -> Seq<SiteView> {
    rs.map_values(
        |r: RefinerySite|
            SiteView {
                alive: r.alive,
                owner: match r.owner {
                    Some(o) => Some(o@),
                    None => None,
                },
                refinery: r.refinery,
                cell: r.cell,
            },
    )
}

/// A unit is idle at `(x, y)`: no path left, and no destination or one
/// reached (a unit without movement orders is idle).
pub open spec fn movement_idle(m: Option<MoveFacts>, x: u16, y: u16) -> bool {
    match m {
        None => true,
        Some(f) => f.path_len == 0 && match (f.dest_x, f.dest_y) {
            (Some(dx), Some(dy)) => dx == x && dy == y,
            _ => true,
        },
    }
}

fn is_movement_idle(m: Option<MoveFacts>, x: u16, y: u16) -> (r: bool)
    ensures
        r == movement_idle(m, x, y),
{
    match m {
        None => true,
        Some(f) => {
            if f.path_len != 0 {
                return false;
            }
            match (f.dest_x, f.dest_y) {
                (Some(dx), Some(dy)) => dx == x && dy == y,
                _ => true,
            }
        },
    }
}

/// Index of the first harvestable overlay on `(x, y)`.
pub open spec fn ore_index(ore: Seq<OreCell>, x: u16, y: u16) -> Option<int>
    decreases ore.len(),
{
    if ore.len() == 0 {
        None
    } else {
        match ore_index(ore.drop_last(), x, y) {
            Some(i) => Some(i),
            None => if ore.last().x == x && ore.last().y == y && ore.last().harvestable {
                Some(ore.len() - 1)
            } else {
                None
            },
        }
    }
}

proof fn lemma_ore_index(ore: Seq<OreCell>, x: u16, y: u16)
    ensures
        ore_index(ore, x, y) matches Some(i) ==> 0 <= i < ore.len() && ore[i].x == x && ore[i].y == y
            && ore[i].harvestable,
    decreases ore.len(),
{
    if ore.len() > 0 {
        lemma_ore_index(ore.drop_last(), x, y);
    }
}

fn find_ore(ore: &Vec<OreCell>, x: u16, y: u16) -> (r: Option<usize>)
    ensures
        match r {
            Some(i) => ore_index(ore@, x, y) == Some(i as int) && i < ore@.len(),
            None => ore_index(ore@, x, y) is None,
        },
{
    let mut i: usize = 0;
    while i < ore.len()
        invariant
            i <= ore@.len(),
            ore_index(ore@.take(i as int), x, y) is None,
        decreases ore@.len() - i,
    {
        proof {
            assert(ore@.take(i + 1).drop_last() =~= ore@.take(i as int));
            assert(ore@.take(i + 1).last() == ore@[i as int]);
        }
        let c = ore[i];
        if c.x == x && c.y == y && c.harvestable {
            proof {
                lemma_ore_index_prefix(ore@, x, y, i + 1);
            }
            return Some(i);
        }
        i = i + 1;
    }
    assert(ore@.take(i as int) =~= ore@);
    None
}

proof fn lemma_ore_index_prefix(ore: Seq<OreCell>, x: u16, y: u16, k: int)
    requires
        0 <= k <= ore.len(),
        ore_index(ore.take(k), x, y) is Some,
    ensures
        ore_index(ore, x, y) == ore_index(ore.take(k), x, y),
    decreases ore.len() - k,
{
    if k < ore.len() {
        assert(ore.take(k + 1).drop_last() =~= ore.take(k));
        lemma_ore_index_prefix(ore, x, y, k + 1);
    } else {
        assert(ore.take(k) =~= ore);
    }
}

/// The overlays after one load is mined on `(x, y)`, and whether there was
/// ore: the first harvestable overlay there loses one unit of density and
/// goes once it has none left.
pub open spec fn consumed(ore: Seq<OreCell>, x: u16, y: u16) -> (Seq<OreCell>, bool) {
    match ore_index(ore, x, y) {
        None => (ore, false),
        Some(i) => {
            let c = ore[i];
            let d: u8 = if c.data > 0 {
                (c.data - 1) as u8
            } else {
                0
            };
            if d == 0 {
                (ore.remove(i), true)
            } else {
                (ore.update(i, OreCell { data: d, ..c }), true)
            }
        },
    }
}

/// Mines one load on `(x, y)` (see [`consumed`]).
pub fn consume_one_ore_at(ore: &mut Vec<OreCell>, x: u16, y: u16) -> (took: bool)
    ensures
        (final(ore)@, took) == consumed(old(ore)@, x, y),
{
    let i = match find_ore(ore, x, y) {
        Some(i) => i,
        None => {
            return false;
        },
    };
    let c = ore[i];
    let d: u8 = if c.data > 0 {
        c.data - 1
    } else {
        0
    };
    if d == 0 {
        ore.remove(i);
    } else {
        ore.set(i, OreCell { data: d, ..c });
    }
    true
}

/// Cells holding harvestable ore that a unit may stand on, in order.
pub open spec fn ore_targets(ore: Seq<OreCell>, grid: MoveGrid) -> Seq<(u16, u16)>
    decreases ore.len(),
{
    if ore.len() == 0 {
        Seq::empty()
    } else {
        let rest = ore_targets(ore.drop_last(), grid);
        let c = ore.last();
        if c.harvestable && grid.passable(c.x as int, c.y as int) {
            rest.push((c.x, c.y))
        } else {
            rest
        }
    }
}

/// The first of `cells` closest to `(fx, fy)` (Chebyshev distance), with
/// its distance.
pub open spec fn closest(cells: Seq<(u16, u16)>, fx: u16, fy: u16) -> Option<(int, (u16, u16))>
    decreases cells.len(),
{
    if cells.len() == 0 {
        None
    } else {
        let b = closest(cells.drop_last(), fx, fy);
        let c = cells.last();
        let d = chebyshev(c.0, c.1, fx, fy);
        match b {
            Some(bd) => if d < bd.0 {
                Some((d, c))
            } else {
                b
            },
            None => Some((d, c)),
        }
    }
}

/// The cell of `closest`, if any.
pub open spec fn closest_cell(cells: Seq<(u16, u16)>, fx: u16, fy: u16) -> Option<(u16, u16)> {
    match closest(cells, fx, fy) {
        Some(b) => Some(b.1),
        None => None,
    }
}

/// The first of `cells` closest to `(fx, fy)`.
fn closest_of(cells: &Vec<(u16, u16)>, fx: u16, fy: u16) -> (r: Option<(u16, u16)>)
    ensures
        r == closest_cell(cells@, fx, fy),
{
    let mut best: Option<(u32, (u16, u16))> = None;
    let mut i: usize = 0;
    while i < cells.len()
        invariant
            i <= cells@.len(),
            match best {
                Some(b) => closest(cells@.take(i as int), fx, fy) == Some((b.0 as int, b.1)),
                None => closest(cells@.take(i as int), fx, fy) is None,
            },
        decreases cells@.len() - i,
    {
        proof {
            assert(cells@.take(i + 1).drop_last() =~= cells@.take(i as int));
            assert(cells@.take(i + 1).last() == cells@[i as int]);
        }
        let c = cells[i];
        let d = chebyshev_u16(c.0, c.1, fx, fy);
        let better = match best {
            Some(b) => d < b.0,
            None => true,
        };
        if better {
            best = Some((d, c));
        }
        i = i + 1;
    }
    assert(cells@.take(i as int) =~= cells@);
    match best {
        Some(b) => Some(b.1),
        None => None,
    }
}

/// Nearest cell with harvestable ore that a unit may stand on.
pub open spec fn nearest_ore(ore: Seq<OreCell>, grid: MoveGrid, fx: u16, fy: u16) -> Option<(u16, u16)> {
    closest_cell(ore_targets(ore, grid), fx, fy)
}

/// The nearest harvestable ore cell (see [`nearest_ore`]).
pub fn nearest_harvestable_ore(ore: &Vec<OreCell>, grid: &MoveGrid, fx: u16, fy: u16) -> (r: Option<(u16, u16)>)
    requires
        grid.wf(),
    ensures
        r == nearest_ore(ore@, *grid, fx, fy),
{
    let mut cells: Vec<(u16, u16)> = Vec::new();
    let mut i: usize = 0;
    while i < ore.len()
        invariant
            i <= ore@.len(),
            grid.wf(),
            cells@ == ore_targets(ore@.take(i as int), *grid),
        decreases ore@.len() - i,
    {
        proof {
            assert(ore@.take(i + 1).drop_last() =~= ore@.take(i as int));
            assert(ore@.take(i + 1).last() == ore@[i as int]);
        }
        let c = ore[i];
        if c.harvestable && grid.is_passable(c.x, c.y) {
            cells.push((c.x, c.y));
        }
        i = i + 1;
    }
    assert(ore@.take(i as int) =~= ore@);
    closest_of(&cells, fx, fy)
}

/// The `k`-th cell tried around a refinery: its own, then right, down,
/// left, up and the diagonals.
pub open spec fn approach_delta(k: int) -> (int, int) {
    if k == 0 {
        (0, 0)
    } else if k == 1 {
        (1, 0)
    } else if k == 2 {
        (0, 1)
    } else if k == 3 {
        (-1, 0)
    } else if k == 4 {
        (0, -1)
    } else if k == 5 {
        (1, 1)
    } else if k == 6 {
        (-1, 1)
    } else if k == 7 {
        (-1, -1)
    } else {
        (1, -1)
    }
}

/// The cells among the first `k` tried around `(rx, ry)` that a unit may
/// stand on (coordinates taken as `u16`, negative ones skipped).
pub open spec fn approach_cells(grid: MoveGrid, rx: u16, ry: u16, k: int) -> Seq<(u16, u16)>
    decreases k,
{
    if k <= 0 {
        Seq::empty()
    } else {
        let rest = approach_cells(grid, rx, ry, k - 1);
        let x = rx + approach_delta(k - 1).0;
        let y = ry + approach_delta(k - 1).1;
        if x >= 0 && y >= 0 && grid.passable((x as u16) as int, (y as u16) as int) {
            rest.push((x as u16, y as u16))
        } else {
            rest
        }
    }
}

fn approach(k: usize) -> (d: (i32, i32))
    requires
        k < 9,
    ensures
        d.0 as int == approach_delta(k as int).0,
        d.1 as int == approach_delta(k as int).1,
{
    if k == 0 {
        (0, 0)
    } else if k == 1 {
        (1, 0)
    } else if k == 2 {
        (0, 1)
    } else if k == 3 {
        (-1, 0)
    } else if k == 4 {
        (0, -1)
    } else if k == 5 {
        (1, 1)
    } else if k == 6 {
        (-1, 1)
    } else if k == 7 {
        (-1, -1)
    } else {
        (1, -1)
    }
}

/// Appends the approach cells of a refinery at `(rx, ry)` to `out`.
fn push_approach_cells(grid: &MoveGrid, rx: u16, ry: u16, out: &mut Vec<(u16, u16)>)
    requires
        grid.wf(),
    ensures
        final(out)@ == old(out)@ + approach_cells(*grid, rx, ry, 9),
{
    let mut k: usize = 0;
    while k < 9
        invariant
            k <= 9,
            grid.wf(),
            out@ == old(out)@ + approach_cells(*grid, rx, ry, k as int),
        decreases 9 - k,
    {
        let (dx, dy) = approach(k);
        let x: i32 = rx as i32 + dx;
        let y: i32 = ry as i32 + dy;
        let ghost before = out@;
        if x >= 0 && y >= 0 {
            let cx: u16 = #[verifier::truncate] (x as u16);
            let cy: u16 = #[verifier::truncate] (y as u16);
            if grid.is_passable(cx, cy) {
                out.push((cx, cy));
                assert(out@ =~= old(out)@ + approach_cells(*grid, rx, ry, k + 1));
            }
        }
        assert(out@ =~= old(out)@ + approach_cells(*grid, rx, ry, k + 1));
        k = k + 1;
    }
}

/// A site is a living refinery of house `house`, exactly named, with a
/// position.
pub open spec fn refinery_of(s: SiteView, house: Seq<char>) -> bool {
    s.alive && s.owner == Some(house) && s.refinery && s.cell is Some
}

/// The approach cells of the refineries of `house`, refinery by refinery.
pub open spec fn unload_targets(rs: Seq<SiteView>, grid: MoveGrid, house: Seq<char>) -> Seq<(u16, u16)>
    decreases rs.len(),
{
    if rs.len() == 0 {
        Seq::empty()
    } else {
        let rest = unload_targets(rs.drop_last(), grid, house);
        let r = rs.last();
        if refinery_of(r, house) {
            rest + approach_cells(grid, r.cell.unwrap().0, r.cell.unwrap().1, 9)
        } else {
            rest
        }
    }
}

/// Nearest cell next to a refinery of `house` where a harvester unloads.
pub open spec fn nearest_unload(rs: Seq<SiteView>, grid: MoveGrid, house: Seq<char>, fx: u16, fy: u16) -> Option<(u16, u16)> {
    closest_cell(unload_targets(rs, grid, house), fx, fy)
}

fn owned_by(owner: &Option<String>, house: &str) -> (r: bool)
    ensures
        r == (match owner {
            Some(o) => o@ == house@,
            None => false,
        }),
{
    match owner {
        Some(o) => compare_keys(o.as_str(), house) == KeyOrder::Same,
        None => false,
    }
}

/// The nearest unload cell of `house` (see [`nearest_unload`]).
pub fn nearest_unload_cell(rs: &Vec<RefinerySite>, grid: &MoveGrid, house: &str, fx: u16, fy: u16) -> (r: Option<(u16, u16)>)
    requires
        grid.wf(),
    ensures
        r == nearest_unload(site_views(rs@), *grid, house@, fx, fy),
{
    let ghost v = site_views(rs@);
    let mut cells: Vec<(u16, u16)> = Vec::new();
    let mut i: usize = 0;
    while i < rs.len()
        invariant
            i <= rs@.len(),
            grid.wf(),
            v == site_views(rs@),
            cells@ == unload_targets(v.take(i as int), *grid, house@),
        decreases rs@.len() - i,
    {
        proof {
            assert(v.take(i + 1).drop_last() =~= v.take(i as int));
            assert(v.take(i + 1).last() == v[i as int]);
        }
        let r = &rs[i];
        if r.alive && r.refinery && owned_by(&r.owner, house) {
            if let Some(c) = r.cell {
                push_approach_cells(grid, c.0, c.1, &mut cells);
            }
        }
        i = i + 1;
    }
    assert(v.take(i as int) =~= v);
    closest_of(&cells, fx, fy)
}

/// A living refinery of `house` stands within one cell of `(x, y)`.
pub open spec fn refinery_near(rs: Seq<SiteView>, house: Seq<char>, x: u16, y: u16) -> bool {
    exists|i: int|
        0 <= i < rs.len() && refinery_of(#[trigger] rs[i], house) && chebyshev(
            rs[i].cell.unwrap().0,
            rs[i].cell.unwrap().1,
            x,
            y,
        ) <= 1
}

/// Whether a living refinery of `house` stands within one cell of `(x, y)`.
pub fn house_has_living_refinery_near(rs: &Vec<RefinerySite>, house: &str, x: u16, y: u16) -> (r: bool)
    ensures
        r == refinery_near(site_views(rs@), house@, x, y),
{
    let ghost v = site_views(rs@);
    let mut i: usize = 0;
    while i < rs.len()
        invariant
            i <= rs@.len(),
            v == site_views(rs@),
            forall|j: int|
                0 <= j < i ==> !(refinery_of(#[trigger] v[j], house@) && chebyshev(
                    v[j].cell.unwrap().0,
                    v[j].cell.unwrap().1,
                    x,
                    y,
                ) <= 1),
        decreases rs@.len() - i,
    {
        let r = &rs[i];
        if r.alive && r.refinery && owned_by(&r.owner, house) {
            if let Some(c) = r.cell {
                if chebyshev_u16(c.0, c.1, x, y) <= 1 {
                    assert(refinery_of(v[i as int], house@));
                    return true;
                }
            }
        }
        i = i + 1;
    }
    false
}

/// What one harvester does on a tick.
pub struct HarvestStep {
    pub state: Option<HarvestState>,
    pub ore: Seq<OreCell>,
    /// It unloaded a load at a refinery.
    pub deliver: bool,
    /// Cell it is sent to, if any.
    pub goto: Option<(u16, u16)>,
}

/// `a + 1` held at `u32::MAX`.
pub open spec fn inc_capped(a: u32) -> u32 {
    if a == u32::MAX {
        a
    } else {
        (a + 1) as u32
    }
}

/// One tick of harvester `h` (`trip`: ticks of mining per load): an empty
/// harvester off ore drops its mining progress and, when idle, heads for the
/// nearest ore; one on ore mines, taking a load once the progress reaches
/// `trip` and the cell still has ore. A loaded harvester next to a living
/// refinery of its house unloads; an idle one heads for the nearest unload
/// cell.
pub open spec fn harvester_step(h: HarvesterView, ore: Seq<OreCell>, rs: Seq<SiteView>, grid: MoveGrid, trip: u32) -> HarvestStep {
    let cargo = match h.state {
        Some(s) => s.cargo,
        None => 0,
    };
    if cargo == 0 {
        if ore_index(ore, h.x, h.y) is None {
            HarvestStep {
                state: match h.state {
                    Some(s) => Some(HarvestState { accum: 0, ..s }),
                    None => None,
                },
                ore,
                deliver: false,
                goto: if movement_idle(h.movement, h.x, h.y) {
                    nearest_ore(ore, grid, h.x, h.y)
                } else {
                    None
                },
            }
        } else {
            match h.state {
                None => HarvestStep { state: None, ore, deliver: false, goto: None },
                Some(s) => {
                    let a = inc_capped(s.accum);
                    if a >= trip {
                        let (ore2, took) = consumed(ore, h.x, h.y);
                        HarvestStep {
                            state: Some(HarvestState { accum: 0, cargo: if took { 1 } else { s.cargo } }),
                            ore: ore2,
                            deliver: false,
                            goto: None,
                        }
                    } else {
                        HarvestStep { state: Some(HarvestState { accum: a, ..s }), ore, deliver: false, goto: None }
                    }
                },
            }
        }
    } else if refinery_near(rs, h.owner, h.x, h.y) {
        HarvestStep { state: Some(HarvestState { accum: 0, cargo: 0 }), ore, deliver: true, goto: None }
    } else if movement_idle(h.movement, h.x, h.y) {
        HarvestStep { state: h.state, ore, deliver: false, goto: nearest_unload(rs, grid, h.owner, h.x, h.y) }
    } else {
        HarvestStep { state: h.state, ore, deliver: false, goto: None }
    }
}

/// Harvesters, ore, unloading houses and moves after the first `k`
/// harvesters took their step, in order.
pub struct HarvestTick {
    pub hs: Seq<HarvesterView>,
    pub ore: Seq<OreCell>,
    pub deliveries: Seq<Seq<char>>,
    pub moves: Seq<(int, (u16, u16))>,
}

/// The first `k` harvesters of `hs0` step in order (see
/// [`harvester_step`]).
pub open spec fn harvest_fold(
    hs0: Seq<HarvesterView>,
    ore: Seq<OreCell>,
    rs: Seq<SiteView>,
    grid: MoveGrid,
    trip: u32,
    k: int,
) -> HarvestTick
    decreases k,
{
    if k <= 0 {
        HarvestTick { hs: hs0, ore, deliveries: Seq::empty(), moves: Seq::empty() }
    } else {
        let t = harvest_fold(hs0, ore, rs, grid, trip, k - 1);
        let h = hs0[k - 1];
        let st = harvester_step(h, t.ore, rs, grid, trip);
        HarvestTick {
            hs: t.hs.update(k - 1, HarvesterView { state: st.state, ..h }),
            ore: st.ore,
            deliveries: if st.deliver {
                t.deliveries.push(h.owner)
            } else {
                t.deliveries
            },
            moves: match st.goto {
                Some(c) => t.moves.push((k - 1, c)),
                None => t.moves,
            },
        }
    }
}

/// `a + b` held at `i32::MAX` (`b` not negative).
pub open spec fn add_funds(a: i32, b: i32) -> i32 {
    if a + b > i32::MAX {
        i32::MAX
    } else {
        (a + b) as i32
    }
}

/// The purses after `income` was paid to the house of each delivery, in
/// order (a house without a purse gets nothing).
pub open spec fn credited(accts: Seq<AccountView>, deliveries: Seq<Seq<char>>, income: i32) -> Seq<AccountView>
    decreases deliveries.len(),
{
    if deliveries.len() == 0 {
        accts
    } else {
        let a1 = credited(accts, deliveries.drop_last(), income);
        match account_of(a1, deliveries.last()) {
            Some(p) => a1.update(p, AccountView { funds: add_funds(a1[p].funds, income), ..a1[p] }),
            None => a1,
        }
    }
}

fn step_harvester(h: &Harvester, ore: &mut Vec<OreCell>, rs: &Vec<RefinerySite>, grid: &MoveGrid, trip: u32) -> (r: (
    Option<HarvestState>,
    bool,
    Option<(u16, u16)>,
))
    requires
        grid.wf(),
    ensures
        ({
            let st = harvester_step(harvester_views(seq![*h])[0], old(ore)@, site_views(rs@), *grid, trip);
            &&& r.0 == st.state
            &&& final(ore)@ == st.ore
            &&& r.1 == st.deliver
            &&& r.2 == st.goto
        }),
{
    assert(harvester_views(seq![*h])[0] == HarvesterView {
        owner: h.owner@,
        x: h.x,
        y: h.y,
        state: h.state,
        movement: h.movement,
    });
    let cargo = match h.state {
        Some(s) => s.cargo,
        None => 0,
    };
    if cargo == 0 {
        if find_ore(ore, h.x, h.y).is_none() {
            let state = match h.state {
                Some(s) => Some(HarvestState { accum: 0, ..s }),
                None => None,
            };
            let goto = if is_movement_idle(h.movement, h.x, h.y) {
                nearest_harvestable_ore(ore, grid, h.x, h.y)
            } else {
                None
            };
            return (state, false, goto);
        }
        match h.state {
            None => (None, false, None),
            Some(s) => {
                let a = if s.accum == u32::MAX {
                    s.accum
                } else {
                    s.accum + 1
                };
                if a >= trip {
                    let took = consume_one_ore_at(ore, h.x, h.y);
                    (Some(HarvestState { accum: 0, cargo: if took { 1 } else { s.cargo } }), false, None)
                } else {
                    (Some(HarvestState { accum: a, ..s }), false, None)
                }
            },
        }
    } else if house_has_living_refinery_near(rs, h.owner.as_str(), h.x, h.y) {
        (Some(HarvestState { accum: 0, cargo: 0 }), true, None)
    } else if is_movement_idle(h.movement, h.x, h.y) {
        (h.state, false, nearest_unload_cell(rs, grid, h.owner.as_str(), h.x, h.y))
    } else {
        (h.state, false, None)
    }
}

/// Pays `income` to the purse of `house` (exact name), if it has one.
fn credit(accts: &mut Vec<HouseAccount>, house: &str, income: i32)
    requires
        income >= 0,
    ensures
        account_views(final(accts)@) == credited(account_views(old(accts)@), seq![house@], income),
{
    let ghost a0 = account_views(accts@);
    proof {
        assert(seq![house@].drop_last() =~= Seq::<Seq<char>>::empty());
        assert(credited(a0, Seq::<Seq<char>>::empty(), income) == a0);
    }
    if let Some(p) = find_account(accts, house) {
        let a = &accts[p];
        let funds = if a.funds > i32::MAX - income {
            i32::MAX
        } else {
            a.funds + income
        };
        let na = HouseAccount { house: a.house.as_str().to_owned(), funds, spent: a.spent };
        accts.set(p, na);
        assert(account_views(accts@) =~= a0.update(p as int, AccountView { funds: add_funds(a0[p as int].funds, income), ..a0[p as int] }));
    }
}

proof fn lemma_credited_push(accts: Seq<AccountView>, ds: Seq<Seq<char>>, d: Seq<char>, income: i32)
    ensures
        credited(accts, ds.push(d), income) == credited(credited(accts, ds, income), seq![d], income),
{
    let c = credited(accts, ds, income);
    assert(ds.push(d).drop_last() =~= ds);
    assert(ds.push(d).last() == d);
    assert(seq![d].drop_last() =~= Seq::<Seq<char>>::empty());
    assert(seq![d].last() == d);
    assert(credited(c, seq![d].drop_last(), income) == c);
}

/// One tick of harvesting (see [`harvest_fold`]): the harvesters' states
/// and the ore change, the houses that unloaded are paid `income` per load
/// (see [`credited`]), and the moves sent out are returned (harvester index
/// and target cell, in order) for the caller to order and path.
pub fn advance_refinery_income(
    hs: &mut Vec<Harvester>,
    ore: &mut Vec<OreCell>,
    rs: &Vec<RefinerySite>,
    grid: &MoveGrid,
    accts: &mut Vec<HouseAccount>,
    trip: u32,
    income: i32,
) -> (moves: Vec<(usize, (u16, u16))>)
    requires
        grid.wf(),
        income >= 0,
    ensures
        ({
            let t = harvest_fold(harvester_views(old(hs)@), old(ore)@, site_views(rs@), *grid, trip, old(hs)@.len() as int);
            &&& harvester_views(final(hs)@) == t.hs
            &&& final(ore)@ == t.ore
            &&& account_views(final(accts)@) == credited(account_views(old(accts)@), t.deliveries, income)
            &&& moves@.map_values(|m: (usize, (u16, u16))| (m.0 as int, m.1)) == t.moves
        }),
{
    let ghost hv0 = harvester_views(hs@);
    let ghost a0 = account_views(accts@);
    let ghost o0 = ore@;
    let ghost sv = site_views(rs@);
    let mut moves: Vec<(usize, (u16, u16))> = Vec::new();
    let mut deliveries: Vec<String> = Vec::new();
    let mut i: usize = 0;
    while i < hs.len()
        invariant
            i <= hs@.len(),
            hs@.len() == hv0.len(),
            grid.wf(),
            sv == site_views(rs@),
            forall|k: int| i <= k < hs@.len() ==> #[trigger] harvester_views(hs@)[k] == hv0[k],
            ({
                let t = harvest_fold(hv0, o0, sv, *grid, trip, i as int);
                &&& harvester_views(hs@) == t.hs
                &&& ore@ == t.ore
                &&& deliveries@.map_values(|d: String| d@) == t.deliveries
                &&& moves@.map_values(|m: (usize, (u16, u16))| (m.0 as int, m.1)) == t.moves
            }),
        decreases hv0.len() - i,
    {
        let ghost t0 = harvest_fold(hv0, o0, sv, *grid, trip, i as int);
        let h = &hs[i];
        proof {
            assert(harvester_views(seq![*h])[0] == harvester_views(hs@)[i as int]);
            assert(harvester_views(hs@)[i as int] == hv0[i as int]);
        }
        let (state, deliver, goto) = step_harvester(h, ore, rs, grid, trip);
        let owner = h.owner.as_str().to_owned();
        let nh = Harvester { owner: h.owner.as_str().to_owned(), x: h.x, y: h.y, state, movement: h.movement };
        let ghost hs_before = hs@;
        hs.set(i, nh);
        proof {
            assert(harvester_views(hs@) =~= harvester_views(hs_before).update(
                i as int,
                HarvesterView { state, ..hv0[i as int] },
            ));
        }
        if deliver {
            let ghost d0 = deliveries@;
            deliveries.push(owner);
            proof {
                assert(deliveries@.map_values(|d: String| d@) =~= d0.map_values(|d: String| d@).push(hv0[i as int].owner));
            }
        }
        if let Some(c) = goto {
            let ghost m0 = moves@;
            moves.push((i, c));
            proof {
                assert(moves@.map_values(|m: (usize, (u16, u16))| (m.0 as int, m.1)) =~= m0.map_values(
                    |m: (usize, (u16, u16))| (m.0 as int, m.1),
                ).push((i as int, c)));
            }
        }
        i = i + 1;
    }
    let ghost t = harvest_fold(hv0, o0, sv, *grid, trip, i as int);
    let ghost dv = deliveries@.map_values(|d: String| d@);
    let mut j: usize = 0;
    while j < deliveries.len()
        invariant
            j <= deliveries@.len(),
            income >= 0,
            dv == deliveries@.map_values(|d: String| d@),
            account_views(accts@) == credited(a0, dv.take(j as int), income),
        decreases deliveries@.len() - j,
    {
        let ghost before = account_views(accts@);
        credit(accts, deliveries[j].as_str(), income);
        proof {
            assert(dv.take(j + 1) =~= dv.take(j as int).push(dv[j as int]));
            lemma_credited_push(a0, dv.take(j as int), dv[j as int], income);
        }
        j = j + 1;
    }
    assert(dv.take(j as int) =~= dv);
    moves
}

/// An ore cell a harvester may be sent to: harvestable and walkable.
pub open spec fn minable(c: OreCell, grid: MoveGrid) -> bool {
    c.harvestable && grid.passable(c.x as int, c.y as int)
}

proof fn lemma_closest_is_closest(cells: Seq<(u16, u16)>, fx: u16, fy: u16)
    ensures
        match closest(cells, fx, fy) {
            Some(b) => (exists|k: int| 0 <= k < cells.len() && cells[k] == b.1) && b.0 == chebyshev(b.1.0, b.1.1, fx, fy)
                && forall|k: int| 0 <= k < cells.len() ==> b.0 <= chebyshev(#[trigger] cells[k].0, cells[k].1, fx, fy),
            None => cells.len() == 0,
        },
    decreases cells.len(),
{
    if cells.len() > 0 {
        let init = cells.drop_last();
        lemma_closest_is_closest(init, fx, fy);
        assert forall|k: int| 0 <= k < init.len() implies init[k] == cells[k] by {}
        if let Some(b) = closest(init, fx, fy) {
            let k0 = choose|k: int| 0 <= k < init.len() && init[k] == b.1;
            assert(cells[k0] == b.1);
        }
        assert(cells[cells.len() - 1] == cells.last());
    }
}

proof fn lemma_ore_targets(ore: Seq<OreCell>, grid: MoveGrid)
    ensures
        forall|k: int| #![trigger ore_targets(ore, grid)[k]] 0 <= k < ore_targets(ore, grid).len() ==> exists|i: int| 0 <= i < ore.len() && minable(
            #[trigger] ore[i],
            grid,
        ) && ore_targets(ore, grid)[k] == (ore[i].x, ore[i].y),
        forall|i: int| 0 <= i < ore.len() && minable(#[trigger] ore[i], grid) ==> exists|k: int| 0 <= k < ore_targets(ore, grid).len() && ore_targets(ore, grid)[k] == (ore[i].x, ore[i].y),
    decreases ore.len(),
{
    if ore.len() > 0 {
        let init = ore.drop_last();
        lemma_ore_targets(init, grid);
        let t0 = ore_targets(init, grid);
        let t = ore_targets(ore, grid);
        assert forall|i: int| 0 <= i < init.len() implies init[i] == ore[i] by {}
        assert forall|k: int| #![trigger t[k]] 0 <= k < t.len() implies exists|i: int| 0 <= i < ore.len() && minable(#[trigger] ore[i], grid)
            && t[k] == (ore[i].x, ore[i].y) by {
            if k < t0.len() {
                assert(t[k] == t0[k]);
                let i = choose|i: int| 0 <= i < init.len() && minable(#[trigger] init[i], grid) && t0[k] == (init[i].x, init[i].y);
                assert(ore[i] == init[i]);
            } else {
                assert(ore[ore.len() - 1] == ore.last());
            }
        }
        assert forall|i: int| 0 <= i < ore.len() && minable(#[trigger] ore[i], grid) implies exists|k: int| 0 <= k < t.len() && t[k] == (ore[i].x, ore[i].y) by {
            if i < init.len() {
                assert(minable(init[i], grid));
                let k = choose|k: int| 0 <= k < t0.len() && t0[k] == (init[i].x, init[i].y);
                assert(t[k] == t0[k]);
            } else {
                assert(ore[i] == ore.last());
                assert(t[t.len() - 1] == (ore[i].x, ore[i].y));
            }
        }
    }
}

/// A harvester is sent only to harvestable ore it may stand on, and to the
/// closest such cell (Chebyshev distance from where it is); it is sent
/// nowhere only when there is no such cell.
pub proof fn law_harvesters_go_to_the_nearest_minable_ore(ore: Seq<OreCell>, grid: MoveGrid, fx: u16, fy: u16)
    ensures
        match nearest_ore(ore, grid, fx, fy) {
            Some(c) => (exists|i: int| 0 <= i < ore.len() && minable(#[trigger] ore[i], grid) && c == (ore[i].x, ore[i].y))
                && grid.passable(c.0 as int, c.1 as int) && forall|j: int| 0 <= j < ore.len() && minable(#[trigger] ore[j], grid)
                ==> chebyshev(c.0, c.1, fx, fy) <= chebyshev(ore[j].x, ore[j].y, fx, fy),
            None => forall|j: int| 0 <= j < ore.len() ==> !minable(#[trigger] ore[j], grid),
        },
{
    let t = ore_targets(ore, grid);
    lemma_ore_targets(ore, grid);
    lemma_closest_is_closest(t, fx, fy);
    match closest(t, fx, fy) {
        Some(b) => {
            let k = choose|k: int| 0 <= k < t.len() && t[k] == b.1;
            let i = choose|i: int| 0 <= i < ore.len() && minable(#[trigger] ore[i], grid) && t[k] == (ore[i].x, ore[i].y);
            assert(minable(ore[i], grid));
            assert forall|j: int| 0 <= j < ore.len() && minable(#[trigger] ore[j], grid) implies chebyshev(b.1.0, b.1.1, fx, fy)
                <= chebyshev(ore[j].x, ore[j].y, fx, fy) by {
                let kj = choose|kk: int| 0 <= kk < t.len() && t[kk] == (ore[j].x, ore[j].y);
                assert(b.0 <= chebyshev(t[kj].0, t[kj].1, fx, fy));
            }
        },
        None => {
            assert forall|j: int| 0 <= j < ore.len() implies !minable(#[trigger] ore[j], grid) by {
                if minable(ore[j], grid) {
                    let kj = choose|kk: int| 0 <= kk < t.len() && t[kk] == (ore[j].x, ore[j].y);
                }
            }
        },
    }
}

/// The nearest minable ore by `closest`, read over the ore list itself: a
/// minable cell no earlier cell beats or ties, and no cell beats.
proof fn lemma_first_nearest(ore: Seq<OreCell>, grid: MoveGrid, fx: u16, fy: u16)
    ensures
        match closest(ore_targets(ore, grid), fx, fy) {
            Some(b) => exists|i: int| 0 <= i < ore.len() && minable(#[trigger] ore[i], grid) && b.1 == (ore[i].x, ore[i].y)
                && b.0 == chebyshev(ore[i].x, ore[i].y, fx, fy) && (forall|j: int| 0 <= j < i && minable(#[trigger] ore[j], grid)
                ==> chebyshev(ore[j].x, ore[j].y, fx, fy) > b.0) && (forall|j: int| 0 <= j < ore.len() && minable(
                #[trigger] ore[j],
                grid,
            ) ==> chebyshev(ore[j].x, ore[j].y, fx, fy) >= b.0),
            None => forall|j: int| 0 <= j < ore.len() ==> !minable(#[trigger] ore[j], grid),
        },
    decreases ore.len(),
{
    if ore.len() > 0 {
        let init = ore.drop_last();
        lemma_first_nearest(init, grid, fx, fy);
        assert forall|j: int| 0 <= j < init.len() implies init[j] == ore[j] by {}
        let t0 = ore_targets(init, grid);
        let t = ore_targets(ore, grid);
        let c = ore.last();
        assert(ore[ore.len() - 1] == c);
        if minable(c, grid) {
            assert(t.drop_last() =~= t0);
            assert(t.last() == (c.x, c.y));
            let d = chebyshev(c.x, c.y, fx, fy);
            match closest(t0, fx, fy) {
                Some(b0) => {
                    let i0 = choose|i: int| 0 <= i < init.len() && minable(#[trigger] init[i], grid) && b0.1 == (init[i].x, init[i].y)
                        && b0.0 == chebyshev(init[i].x, init[i].y, fx, fy) && (forall|j: int| 0 <= j < i && minable(#[trigger] init[j], grid)
                        ==> chebyshev(init[j].x, init[j].y, fx, fy) > b0.0) && (forall|j: int| 0 <= j < init.len() && minable(
                        #[trigger] init[j],
                        grid,
                    ) ==> chebyshev(init[j].x, init[j].y, fx, fy) >= b0.0);
                    if d < b0.0 {
                        let i = ore.len() - 1;
                        assert(minable(ore[i], grid));
                        assert forall|j: int| 0 <= j < i && minable(#[trigger] ore[j], grid) implies chebyshev(ore[j].x, ore[j].y, fx, fy) > d by {
                            assert(minable(init[j], grid));
                        }
                        assert forall|j: int| 0 <= j < ore.len() && minable(#[trigger] ore[j], grid) implies chebyshev(ore[j].x, ore[j].y, fx, fy) >= d by {
                            if j < i {
                                assert(minable(init[j], grid));
                            }
                        }
                    } else {
                        assert(minable(ore[i0], grid));
                        assert forall|j: int| 0 <= j < i0 && minable(#[trigger] ore[j], grid) implies chebyshev(ore[j].x, ore[j].y, fx, fy) > b0.0 by {
                            assert(minable(init[j], grid));
                        }
                        assert forall|j: int| 0 <= j < ore.len() && minable(#[trigger] ore[j], grid) implies chebyshev(ore[j].x, ore[j].y, fx, fy) >= b0.0 by {
                            if j < ore.len() - 1 {
                                assert(minable(init[j], grid));
                            }
                        }
                    }
                },
                None => {
                    let i = ore.len() - 1;
                    assert(minable(ore[i], grid));
                    assert forall|j: int| 0 <= j < ore.len() && minable(#[trigger] ore[j], grid) implies j == i by {
                        if j < i {
                            assert(!minable(init[j], grid));
                        }
                    }
                },
            }
        } else {
            assert(t == t0);
            match closest(t0, fx, fy) {
                Some(b0) => {
                    let i0 = choose|i: int| 0 <= i < init.len() && minable(#[trigger] init[i], grid) && b0.1 == (init[i].x, init[i].y)
                        && b0.0 == chebyshev(init[i].x, init[i].y, fx, fy) && (forall|j: int| 0 <= j < i && minable(#[trigger] init[j], grid)
                        ==> chebyshev(init[j].x, init[j].y, fx, fy) > b0.0) && (forall|j: int| 0 <= j < init.len() && minable(
                        #[trigger] init[j],
                        grid,
                    ) ==> chebyshev(init[j].x, init[j].y, fx, fy) >= b0.0);
                    assert(minable(ore[i0], grid));
                    assert forall|j: int| 0 <= j < i0 && minable(#[trigger] ore[j], grid) implies chebyshev(ore[j].x, ore[j].y, fx, fy) > b0.0 by {
                        assert(minable(init[j], grid));
                    }
                    assert forall|j: int| 0 <= j < ore.len() && minable(#[trigger] ore[j], grid) implies chebyshev(ore[j].x, ore[j].y, fx, fy) >= b0.0 by {
                        if j < ore.len() - 1 {
                            assert(minable(init[j], grid));
                        }
                    }
                },
                None => {
                    assert forall|j: int| 0 <= j < ore.len() implies !minable(#[trigger] ore[j], grid) by {
                        if j < ore.len() - 1 {
                            assert(!minable(init[j], grid));
                        }
                    }
                },
            }
        }
    }
}

/// Among equally near minable cells the harvester is sent to the first one
/// listed: every cell listed before the chosen one is farther away or not
/// minable.
pub proof fn law_ties_go_to_the_first_ore_listed(ore: Seq<OreCell>, grid: MoveGrid, fx: u16, fy: u16)
    ensures
        nearest_ore(ore, grid, fx, fy) matches Some(c) ==> exists|i: int| 0 <= i < ore.len() && minable(
            #[trigger] ore[i],
            grid,
        ) && c == (ore[i].x, ore[i].y) && forall|j: int| 0 <= j < i && minable(#[trigger] ore[j], grid) ==> chebyshev(
            ore[j].x,
            ore[j].y,
            fx,
            fy,
        ) > chebyshev(c.0, c.1, fx, fy),
{
    lemma_first_nearest(ore, grid, fx, fy);
}

} // verus!
