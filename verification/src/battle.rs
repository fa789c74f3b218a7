//! The part of the authoritative battle state that the ore trees and the
//! lightning storm read and write, with the per-tick steps on it.

use vstd::prelude::*;

use crate::powers::{
    start_storm, storm_started, storm_ticked, tick_storm, LightingProfile, LightningStormState,
    StormEffect,
};
use crate::terrain_spawn::{
    ore_grown, place_spawned_ore, spawn_sample, step_phase, terrain_spawn_sample, OverlayCell,
    OverlayTypeRegistry, TerrainSpawnerState, TerrainSpawnerTick,
};

verus! {

/// Battle state read by the ore trees and the lightning storm.
#[derive(Debug, Clone)]
pub struct BattleState {
    /// Current logic tick.
    pub tick: u64,
    /// Seed of the match (deterministic rolls).
    pub match_seed: u64,
    /// Map width in cells (passability grid bounds).
    pub map_width: u16,
    /// Map height in cells (passability grid bounds).
    pub map_height: u16,
    /// Overlay cells of the map.
    pub overlays: Vec<OverlayCell>,
    /// Overlay types.
    pub overlay_types: OverlayTypeRegistry,
    /// Ore trees of the map.
    pub terrain_spawners: Vec<TerrainSpawnerState>,
    /// Overlay cells written since the presentation last took them.
    pub overlay_paint_dirty: Vec<(u16, u16)>,
    /// The lightning storm, if one is running.
    pub lightning_storm: Option<LightningStormState>,
    /// Current map lighting.
    pub lighting: LightingProfile,
}

/// Cells of the trees whose tick (with the match roll) comes out as a due
/// spawn, in tree order.
pub open spec fn due_cells(spawners: Seq<TerrainSpawnerState>, seed: u64, tick: u64) -> Seq<(u16, u16)>
    decreases spawners.len(),
{
    if spawners.len() == 0 {
        Seq::empty()
    } else {
        let s = spawners.last();
        let rest = due_cells(spawners.drop_last(), seed, tick);
        if step_phase(
            s.phase,
            s.animation_probability_micros,
            s.animation_rate_ticks,
            s.midpoint_frame,
            spawn_sample(seed, tick, s.x, s.y),
        ).1 == TerrainSpawnerTick::SpawnDue {
            rest.push((s.x, s.y))
        } else {
            rest
        }
    }
}

/// Overlays and redraw cells after growing ore at each cell of `at` in order.
pub open spec fn grow_all(
    cells: Seq<OverlayCell>,
    dirty: Seq<(u16, u16)>,
    reg: OverlayTypeRegistry,
    width: u16,
    height: u16,
    at: Seq<(u16, u16)>,
) -> (Seq<OverlayCell>, Seq<(u16, u16)>)
    decreases at.len(),
{
    if at.len() == 0 {
        (cells, dirty)
    } else {
        let (c0, d0) = grow_all(cells, dirty, reg, width, height, at.drop_last());
        let (c1, w) = ore_grown(c0, reg, at.last().0, at.last().1, width, height);
        match w {
            Some(cell) => (c1, d0.push(cell)),
            None => (c1, d0),
        }
    }
}

impl BattleState {
    /// Advances every ore tree one tick with its match roll; trees reaching
    /// their midpoint grow ore next to them, and the written cells are queued
    /// for redraw.
    pub fn advance_terrain_spawners(&mut self)
        ensures
            final(self).terrain_spawners@.len() == old(self).terrain_spawners@.len(),
            forall|i: int|
                0 <= i < old(self).terrain_spawners@.len() ==> {
                    let s = #[trigger] old(self).terrain_spawners@[i];
                    let t = final(self).terrain_spawners@[i];
                    &&& t.phase == step_phase(
                        s.phase,
                        s.animation_probability_micros,
                        s.animation_rate_ticks,
                        s.midpoint_frame,
                        spawn_sample(old(self).match_seed, old(self).tick, s.x, s.y),
                    ).0
                    &&& t == TerrainSpawnerState { phase: t.phase, ..s }
                },
            (final(self).overlays@, final(self).overlay_paint_dirty@) == grow_all(
                old(self).overlays@,
                old(self).overlay_paint_dirty@,
                old(self).overlay_types,
                old(self).map_width,
                old(self).map_height,
                due_cells(old(self).terrain_spawners@, old(self).match_seed, old(self).tick),
            ),
            final(self).tick == old(self).tick,
            final(self).match_seed == old(self).match_seed,
            final(self).lightning_storm == old(self).lightning_storm,
            final(self).lighting == old(self).lighting,
    {
        let seed = self.match_seed;
        let tick = self.tick;
        let n = self.terrain_spawners.len();
        let mut spawn_cells: Vec<(u16, u16)> = Vec::new();
        let mut i: usize = 0;
        while i < n
            invariant
                n == self.terrain_spawners@.len(),
                n == old(self).terrain_spawners@.len(),
                i <= n,
                seed == old(self).match_seed,
                tick == old(self).tick,
                self.overlays == old(self).overlays,
                self.overlay_paint_dirty == old(self).overlay_paint_dirty,
                self.overlay_types == old(self).overlay_types,
                self.tick == old(self).tick,
                self.match_seed == old(self).match_seed,
                self.map_width == old(self).map_width,
                self.map_height == old(self).map_height,
                self.lightning_storm == old(self).lightning_storm,
                self.lighting == old(self).lighting,
                spawn_cells@ == due_cells(old(self).terrain_spawners@.subrange(0, i as int), seed, tick),
                forall|j: int| i <= j < n ==> self.terrain_spawners@[j] == old(self).terrain_spawners@[j],
                forall|j: int|
                    0 <= j < i ==> {
                        let s = #[trigger] old(self).terrain_spawners@[j];
                        let t = self.terrain_spawners@[j];
                        &&& t.phase == step_phase(
                            s.phase,
                            s.animation_probability_micros,
                            s.animation_rate_ticks,
                            s.midpoint_frame,
                            spawn_sample(seed, tick, s.x, s.y),
                        ).0
                        &&& t == TerrainSpawnerState { phase: t.phase, ..s }
                    },
            decreases n - i,
        {
            proof {
                assert(old(self).terrain_spawners@.subrange(0, i as int + 1).drop_last()
                    =~= old(self).terrain_spawners@.subrange(0, i as int));
                assert(old(self).terrain_spawners@.subrange(0, i as int + 1).last()
                    == old(self).terrain_spawners@[i as int]);
            }
            let x = self.terrain_spawners[i].x;
            let y = self.terrain_spawners[i].y;
            let sample = terrain_spawn_sample(seed, tick, x, y);
            let outcome = self.terrain_spawners[i].tick(sample);
            if outcome == TerrainSpawnerTick::SpawnDue {
                spawn_cells.push((x, y));
            }
            proof {
                let t = self.terrain_spawners@[i as int];
                let s = old(self).terrain_spawners@[i as int];
                assert(t == TerrainSpawnerState { phase: t.phase, ..s });
            }
            i += 1;
        }
        assert(old(self).terrain_spawners@.subrange(0, n as int) =~= old(self).terrain_spawners@);
        let m = spawn_cells.len();
        let mut k: usize = 0;
        while k < m
            invariant
                m == spawn_cells@.len(),
                k <= m,
                self.overlay_types == old(self).overlay_types,
                self.map_width == old(self).map_width,
                self.map_height == old(self).map_height,
                self.terrain_spawners@.len() == old(self).terrain_spawners@.len(),
                self.tick == old(self).tick,
                self.match_seed == old(self).match_seed,
                self.lightning_storm == old(self).lightning_storm,
                self.lighting == old(self).lighting,
                forall|j: int|
                    0 <= j < n ==> {
                        let s = #[trigger] old(self).terrain_spawners@[j];
                        let t = self.terrain_spawners@[j];
                        &&& t.phase == step_phase(
                            s.phase,
                            s.animation_probability_micros,
                            s.animation_rate_ticks,
                            s.midpoint_frame,
                            spawn_sample(seed, tick, s.x, s.y),
                        ).0
                        &&& t == TerrainSpawnerState { phase: t.phase, ..s }
                    },
                n == old(self).terrain_spawners@.len(),
                (self.overlays@, self.overlay_paint_dirty@) == grow_all(
                    old(self).overlays@,
                    old(self).overlay_paint_dirty@,
                    old(self).overlay_types,
                    old(self).map_width,
                    old(self).map_height,
                    spawn_cells@.subrange(0, k as int),
                ),
            decreases m - k,
        {
            proof {
                assert(spawn_cells@.subrange(0, k as int + 1).drop_last() =~= spawn_cells@.subrange(0, k as int));
                assert(spawn_cells@.subrange(0, k as int + 1).last() == spawn_cells@[k as int]);
            }
            let (x, y) = spawn_cells[k];
            let written = place_spawned_ore(
                &mut self.overlays,
                &self.overlay_types,
                x,
                y,
                self.map_width,
                self.map_height,
            );
            match written {
                Some(cell) => {
                    self.overlay_paint_dirty.push(cell);
                },
                None => {},
            }
            k += 1;
        }
        assert(spawn_cells@.subrange(0, m as int) =~= spawn_cells@);
    }

    /// Takes the overlay cells written since the last call (for redraw).
    pub fn take_overlay_paint_dirty(&mut self) -> (cells: Vec<(u16, u16)>)
        ensures
            cells@ == old(self).overlay_paint_dirty@,
            final(self).overlay_paint_dirty@ == Seq::<(u16, u16)>::empty(),
            final(self).overlays == old(self).overlays,
            final(self).overlay_types == old(self).overlay_types,
            final(self).terrain_spawners == old(self).terrain_spawners,
            final(self).tick == old(self).tick,
            final(self).match_seed == old(self).match_seed,
            final(self).map_width == old(self).map_width,
            final(self).map_height == old(self).map_height,
            final(self).lightning_storm == old(self).lightning_storm,
            final(self).lighting == old(self).lighting,
    {
        let mut cells: Vec<(u16, u16)> = Vec::new();
        std::mem::swap(&mut cells, &mut self.overlay_paint_dirty);
        cells
    }

    /// Writes measured frame counts back into the trees: for each
    /// `(x, y, frames)` with `frames > 0`, the first tree at `(x, y)` takes
    /// that frame count and half of it as midpoint.
    pub fn apply_ore_tree_frame_counts(&mut self, counts: &[(u16, u16, u16)])
        ensures
            final(self).terrain_spawners@ == frame_counts_applied(old(self).terrain_spawners@, counts@),
            final(self).overlays == old(self).overlays,
            final(self).tick == old(self).tick,
            final(self).lightning_storm == old(self).lightning_storm,
            final(self).lighting == old(self).lighting,
    {
        let n = counts.len();
        let mut i: usize = 0;
        while i < n
            invariant
                n == counts@.len(),
                i <= n,
                self.terrain_spawners@ == frame_counts_applied(
                    old(self).terrain_spawners@,
                    counts@.subrange(0, i as int),
                ),
                self.overlays == old(self).overlays,
                self.tick == old(self).tick,
                self.lightning_storm == old(self).lightning_storm,
                self.lighting == old(self).lighting,
            decreases n - i,
        {
            proof {
                assert(counts@.subrange(0, i as int + 1).drop_last() =~= counts@.subrange(0, i as int));
                assert(counts@.subrange(0, i as int + 1).last() == counts@[i as int]);
            }
            let (x, y, frames) = counts[i];
            let found = find_tree(&self.terrain_spawners, x, y);
            match found {
                Some(j) => {
                    if frames > 0 {
                        self.terrain_spawners[j].frame_count = frames;
                        self.terrain_spawners[j].midpoint_frame = frames / 2;
                        proof {
                            let before = frame_counts_applied(
                                old(self).terrain_spawners@,
                                counts@.subrange(0, i as int),
                            );
                            assert(self.terrain_spawners@ =~= before.update(
                                j as int,
                                TerrainSpawnerState {
                                    frame_count: frames,
                                    midpoint_frame: (frames / 2) as u16,
                                    ..before[j as int]
                                },
                            ));
                        }
                    }
                },
                None => {},
            }
            i += 1;
        }
        assert(counts@.subrange(0, n as int) =~= counts@);
    }
}

/// Index of the first tree at `(x, y)`, searching from `i`.
pub open spec fn find_tree_from(trees: Seq<TerrainSpawnerState>, x: u16, y: u16, i: int) -> Option<int>
    decreases trees.len() - i,
{
    if i < 0 || i >= trees.len() {
        None
    } else if trees[i].x == x && trees[i].y == y {
        Some(i)
    } else {
        find_tree_from(trees, x, y, i + 1)
    }
}

/// Index of the first tree at `(x, y)`.
fn find_tree(trees: &Vec<TerrainSpawnerState>, x: u16, y: u16) -> (r: Option<usize>)
    ensures
        r matches Some(i) ==> find_tree_from(trees@, x, y, 0) == Some(i as int) && i < trees@.len(),
        r is None ==> find_tree_from(trees@, x, y, 0) is None,
{
    let n = trees.len();
    let mut i: usize = 0;
    while i < n
        invariant
            n == trees@.len(),
            i <= n,
            find_tree_from(trees@, x, y, 0) == find_tree_from(trees@, x, y, i as int),
        decreases n - i,
    {
        if trees[i].x == x && trees[i].y == y {
            return Some(i);
        }
        i += 1;
    }
    None
}

/// Trees after writing back each measured `(x, y, frames)` in order.
pub open spec fn frame_counts_applied(
    trees: Seq<TerrainSpawnerState>,
    counts: Seq<(u16, u16, u16)>,
) -> Seq<TerrainSpawnerState>
    decreases counts.len(),
{
    if counts.len() == 0 {
        trees
    } else {
        let before = frame_counts_applied(trees, counts.drop_last());
        let (x, y, frames) = counts.last();
        match find_tree_from(before, x, y, 0) {
            Some(j) => if frames > 0 {
                before.update(j, TerrainSpawnerState { frame_count: frames, midpoint_frame: frames / 2, ..before[j] })
            } else {
                before
            },
            None => before,
        }
    }
}

/// Starts or re-aims the lightning storm; the lighting turns ion as soon as
/// the countdown is over.
pub fn start_lightning_storm(world: &mut BattleState, target_x: u16, target_y: u16, deferment: i32, duration: i32)
    ensures
        final(world).lightning_storm == storm_started(old(world).lightning_storm, target_x, target_y, deferment, duration).0,
        final(world).lighting == if storm_started(old(world).lightning_storm, target_x, target_y, deferment, duration).1 {
            LightingProfile::Ion
        } else {
            old(world).lighting
        },
        final(world).overlays == old(world).overlays,
        final(world).terrain_spawners == old(world).terrain_spawners,
        final(world).tick == old(world).tick,
{
    let begin_now = start_storm(&mut world.lightning_storm, target_x, target_y, deferment, duration);
    if begin_now {
        world.lighting = LightingProfile::Ion;
    }
}

/// Advances the lightning storm one tick and switches the lighting; returns
/// the cell a strike hits this tick, if any (the caller deals the strike
/// damage to what stands around it).
pub fn tick_lightning_storm(world: &mut BattleState) -> (strike: Option<(u16, u16)>)
    ensures
        old(world).lightning_storm is None ==> strike is None && final(world).lightning_storm is None
            && final(world).lighting == old(world).lighting,
        old(world).lightning_storm matches Some(s) ==> {
            let (next, effect) = storm_ticked(s);
            &&& final(world).lightning_storm == next
            &&& final(world).lighting == match effect {
                StormEffect::Begin => LightingProfile::Ion,
                StormEffect::BeginAndStrike(_, _) => LightingProfile::Ion,
                StormEffect::End => LightingProfile::Normal,
                _ => old(world).lighting,
            }
            &&& strike == match effect {
                StormEffect::BeginAndStrike(x, y) => Some((x, y)),
                StormEffect::Strike(x, y) => Some((x, y)),
                _ => None,
            }
        },
        final(world).overlays == old(world).overlays,
        final(world).terrain_spawners == old(world).terrain_spawners,
        final(world).tick == old(world).tick,
{
    let effect = tick_storm(&mut world.lightning_storm);
    match effect {
        StormEffect::Quiet => None,
        StormEffect::Begin => {
            world.lighting = LightingProfile::Ion;
            None
        },
        StormEffect::BeginAndStrike(x, y) => {
            world.lighting = LightingProfile::Ion;
            Some((x, y))
        },
        StormEffect::Strike(x, y) => Some((x, y)),
        StormEffect::End => {
            world.lighting = LightingProfile::Normal;
            None
        },
    }
}

} // verus!
