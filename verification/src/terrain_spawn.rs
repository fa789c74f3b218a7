//! Ore-tree (`SpawnsTiberium`) animation state machine. While idle each tick
//! rolls against `AnimationProbability`; a hit plays the animation from frame
//! 0 to its midpoint, where ore grows on a neighbouring cell and the tree goes
//! back to idle.

use vstd::prelude::*;

verus! {

/// Denominator of the animation probability (rolls are in `0..1_000_000`).
pub const PROBABILITY_DENOMINATOR: u32 = 1_000_000;

/// Density level of freshly grown ore (`OverlayData`).
pub const SPAWN_ORE_DENSITY: u8 = 3;

/// Highest ore density level.
pub const MAX_ORE_DENSITY: u8 = 11;

/// Total frame count of the stock ore tree (shadow half included).
pub const STOCK_TIBTRE_FRAME_COUNT: u16 = 22;

/// Animation phase of one ore tree.
#[derive(Debug, Clone, Copy, PartialEq, Eq, Structural)]
pub enum TerrainSpawnerPhase {
    /// At rest; shows frame 0.
    Idle,
    /// Playing.
    Active {
        /// Body frame shown now (`0..midpoint`).
        current_frame: u16,
        /// Logic ticks left until the next frame.
        ticks_until_next: u16,
    },
}

/// What one tick did.
#[derive(Debug, Clone, Copy, PartialEq, Eq, Structural)]
pub enum TerrainSpawnerTick {
    /// Still idle.
    Idle,
    /// The animation started this tick.
    Started,
    /// The animation advanced.
    Active,
    /// The midpoint was reached: ore is due and the tree is idle again.
    SpawnDue,
}

/// Run-time state of one ore tree on the map.
#[derive(Debug, Clone, PartialEq)]
pub struct TerrainSpawnerState {
    /// Cell X.
    pub x: u16,
    /// Cell Y.
    pub y: u16,
    /// Rules section name (such as `TIBTRE01`).
    pub type_key: String,
    /// `AnimationProbability` times 1_000_000.
    pub animation_probability_micros: u32,
    /// `AnimationRate` (logic ticks per frame).
    pub animation_rate_ticks: u16,
    /// Total frame count (shadow half included; midpoint = half of it).
    pub frame_count: u16,
    /// Frame at which ore grows and the tree resets (usually half the frames).
    pub midpoint_frame: u16,
    /// Current phase.
    pub phase: TerrainSpawnerPhase,
}

/// One spawner step on plain values: the next phase and what happened.
pub open spec fn step_phase(
    phase: TerrainSpawnerPhase,
    probability: u32,
    rate: u16,
    midpoint: u16,
    sample: u32,
) -> (TerrainSpawnerPhase, TerrainSpawnerTick) {
    match phase {
        TerrainSpawnerPhase::Idle => {
            if probability == 0 || midpoint == 0 || sample >= probability {
                (TerrainSpawnerPhase::Idle, TerrainSpawnerTick::Idle)
            } else {
                (
                    TerrainSpawnerPhase::Active { current_frame: 0, ticks_until_next: rate },
                    TerrainSpawnerTick::Started,
                )
            }
        },
        TerrainSpawnerPhase::Active { current_frame, ticks_until_next } => {
            if ticks_until_next > 1 {
                (
                    TerrainSpawnerPhase::Active {
                        current_frame,
                        ticks_until_next: (ticks_until_next - 1) as u16,
                    },
                    TerrainSpawnerTick::Active,
                )
            } else if current_frame as int + 1 >= midpoint {
                (TerrainSpawnerPhase::Idle, TerrainSpawnerTick::SpawnDue)
            } else {
                (
                    TerrainSpawnerPhase::Active {
                        current_frame: (current_frame + 1) as u16,
                        ticks_until_next: rate,
                    },
                    TerrainSpawnerTick::Active,
                )
            }
        },
    }
}

impl TerrainSpawnerState {
    /// Body frames: the first half when the frame count is even (shadow
    /// half), else all frames (at least one).
    pub open spec fn body_frames(&self) -> nat {
        if self.frame_count > 0 && self.frame_count % 2 == 0 {
            (self.frame_count / 2) as nat
        } else if self.frame_count == 0 {
            1
        } else {
            self.frame_count as nat
        }
    }

    /// Frame shown: 0 when idle, else the current frame capped to the last
    /// body frame.
    pub open spec fn shown_frame(&self) -> u16 {
        match self.phase {
            TerrainSpawnerPhase::Idle => 0,
            TerrainSpawnerPhase::Active { current_frame, .. } => {
                if current_frame as int <= self.body_frames() - 1 {
                    current_frame
                } else {
                    (self.body_frames() - 1) as u16
                }
            },
        }
    }

    /// Builds an idle tree from its rules fields: at least one frame, rate at
    /// least one tick, probability capped at the denominator, midpoint half
    /// the frames.
    pub fn new(
        x: u16,
        y: u16,
        type_key: String,
        animation_probability_micros: u32,
        animation_rate_ticks: u16,
        frame_count: u16,
    ) -> (s: Self)
        ensures
            s.x == x,
            s.y == y,
            s.type_key@ == type_key@,
            s.animation_probability_micros == if animation_probability_micros
                <= PROBABILITY_DENOMINATOR {
                animation_probability_micros
            } else {
                PROBABILITY_DENOMINATOR
            },
            s.animation_rate_ticks == if animation_rate_ticks >= 1 {
                animation_rate_ticks
            } else {
                1
            },
            s.frame_count == if frame_count >= 1 {
                frame_count
            } else {
                1
            },
            s.midpoint_frame == s.frame_count / 2,
            s.phase == TerrainSpawnerPhase::Idle,
    {
        let frame_count = if frame_count >= 1 { frame_count } else { 1 };
        let probability = if animation_probability_micros <= PROBABILITY_DENOMINATOR {
            animation_probability_micros
        } else {
            PROBABILITY_DENOMINATOR
        };
        let rate = if animation_rate_ticks >= 1 { animation_rate_ticks } else { 1 };
        TerrainSpawnerState {
            x,
            y,
            type_key,
            animation_probability_micros: probability,
            animation_rate_ticks: rate,
            frame_count,
            midpoint_frame: frame_count / 2,
            phase: TerrainSpawnerPhase::Idle,
        }
    }

    /// Frame to draw: 0 when idle, else the current frame (never past the
    /// body half).
    pub fn render_frame(&self) -> (frame: u16)
        ensures
            frame == self.shown_frame(),
    {
        match self.phase {
            TerrainSpawnerPhase::Idle => 0,
            TerrainSpawnerPhase::Active { current_frame, .. } => {
                let body = self.body_frame_count();
                if body == 0 {
                    0
                } else if (current_frame as usize) <= body - 1 {
                    current_frame
                } else {
                    (body - 1) as u16
                }
            },
        }
    }

    /// Number of body frames (the first half when there is a shadow half).
    pub fn body_frame_count(&self) -> (n: usize)
        ensures
            n == self.body_frames(),
    {
        if self.frame_count > 0 && self.frame_count % 2 == 0 {
            (self.frame_count / 2) as usize
        } else if self.frame_count == 0 {
            1
        } else {
            self.frame_count as usize
        }
    }

    /// Advances one logic tick with the roll `sample_micros`.
    pub fn tick(&mut self, sample_micros: u32) -> (t: TerrainSpawnerTick)
        ensures
            (final(self).phase, t) == step_phase(
                old(self).phase,
                old(self).animation_probability_micros,
                old(self).animation_rate_ticks,
                old(self).midpoint_frame,
                sample_micros,
            ),
            final(self).x == old(self).x,
            final(self).y == old(self).y,
            final(self).type_key == old(self).type_key,
            final(self).animation_probability_micros == old(self).animation_probability_micros,
            final(self).animation_rate_ticks == old(self).animation_rate_ticks,
            final(self).frame_count == old(self).frame_count,
            final(self).midpoint_frame == old(self).midpoint_frame,
    {
        match self.phase {
            TerrainSpawnerPhase::Idle => {
                if self.animation_probability_micros == 0 || self.midpoint_frame == 0 {
                    return TerrainSpawnerTick::Idle;
                }
                if sample_micros < self.animation_probability_micros {
                    self.phase = TerrainSpawnerPhase::Active {
                        current_frame: 0,
                        ticks_until_next: self.animation_rate_ticks,
                    };
                    TerrainSpawnerTick::Started
                } else {
                    TerrainSpawnerTick::Idle
                }
            },
            TerrainSpawnerPhase::Active { current_frame, ticks_until_next } => {
                let next_timer = ticks_until_next.saturating_sub(1);
                if next_timer > 0 {
                    self.phase = TerrainSpawnerPhase::Active { current_frame, ticks_until_next: next_timer };
                    return TerrainSpawnerTick::Active;
                }
                let next_frame = current_frame.saturating_add(1);
                if next_frame >= self.midpoint_frame {
                    self.phase = TerrainSpawnerPhase::Idle;
                    TerrainSpawnerTick::SpawnDue
                } else {
                    self.phase = TerrainSpawnerPhase::Active {
                        current_frame: next_frame,
                        ticks_until_next: self.animation_rate_ticks,
                    };
                    TerrainSpawnerTick::Active
                }
            },
        }
    }
}

/// The deterministic roll for a tree at `(x, y)` on a given tick.
pub open spec fn spawn_sample(match_seed: u64, tick: u64, x: u16, y: u16) -> u32 {
    let h0 = match_seed ^ vstd::wrapping::u64_specs::wrapping_mul(tick, 0x9E37_79B9_7F4A_7C15) ^ ((
    x as u64) << 32u64) ^ (y as u64);
    let h1 = h0 ^ (h0 >> 30u64);
    let h2 = vstd::wrapping::u64_specs::wrapping_mul(h1, 0xBF58_476D_1CE4_E5B9);
    let h3 = h2 ^ (h2 >> 27u64);
    let h4 = vstd::wrapping::u64_specs::wrapping_mul(h3, 0x94D0_49BB_1331_11EB);
    let h5 = h4 ^ (h4 >> 31u64);
    (h5 % 1_000_000) as u32
}

/// Deterministic roll in `0..1_000_000` for the tree at `(x, y)`.
pub fn terrain_spawn_sample(match_seed: u64, tick: u64, x: u16, y: u16) -> (sample: u32)
    ensures
        sample == spawn_sample(match_seed, tick, x, y),
        sample < PROBABILITY_DENOMINATOR,
{
    let mut h = match_seed ^ tick.wrapping_mul(0x9E37_79B9_7F4A_7C15) ^ ((x as u64) << 32) ^ (y as u64);
    h = h ^ (h >> 30);
    h = h.wrapping_mul(0xBF58_476D_1CE4_E5B9);
    h = h ^ (h >> 27);
    h = h.wrapping_mul(0x94D0_49BB_1331_11EB);
    h = h ^ (h >> 31);
    (h % 1_000_000) as u32
}

/// FNV-style fold of the shown frames and cells of `spawners`.
pub open spec fn frame_signature(spawners: Seq<TerrainSpawnerState>) -> u64
    decreases spawners.len(),
{
    if spawners.len() == 0 {
        0xcbf2_9ce4_8422_2325
    } else {
        let s = spawners.last();
        let h = frame_signature(spawners.drop_last()) ^ (s.shown_frame() as u64);
        let h = vstd::wrapping::u64_specs::wrapping_mul(h, 0x0100_0000_01b3);
        let h = h ^ (((s.x as u64) << 16u64) | (s.y as u64));
        vstd::wrapping::u64_specs::wrapping_mul(h, 0x0100_0000_01b3)
    }
}

/// Signature of the frames currently shown (to know when a redraw is due).
pub fn terrain_spawner_frame_signature(spawners: &[TerrainSpawnerState]) -> (h: u64)
    ensures
        h == frame_signature(spawners@),
{
    let mut h: u64 = 0xcbf2_9ce4_8422_2325;
    let n = spawners.len();
    let mut i: usize = 0;
    while i < n
        invariant
            n == spawners@.len(),
            i <= n,
            h == frame_signature(spawners@.subrange(0, i as int)),
        decreases n - i,
    {
        proof {
            assert(spawners@.subrange(0, i as int + 1).drop_last() =~= spawners@.subrange(0, i as int));
        }
        let s = &spawners[i];
        h = h ^ (s.render_frame() as u64);
        h = h.wrapping_mul(0x0100_0000_01b3);
        h = h ^ (((s.x as u64) << 16) | (s.y as u64));
        h = h.wrapping_mul(0x0100_0000_01b3);
        i += 1;
    }
    assert(spawners@.subrange(0, n as int) =~= spawners@);
    h
}

/// An ore tree only starts on a roll below its probability, a due spawn
/// always leaves it idle, and the frame it shows is always a body frame.
pub proof fn law_spawner_step(s: TerrainSpawnerState, sample: u32)
    ensures
        s.phase == TerrainSpawnerPhase::Idle && sample >= s.animation_probability_micros ==> step_phase(
            s.phase,
            s.animation_probability_micros,
            s.animation_rate_ticks,
            s.midpoint_frame,
            sample,
        ) == (TerrainSpawnerPhase::Idle, TerrainSpawnerTick::Idle),
        step_phase(
            s.phase,
            s.animation_probability_micros,
            s.animation_rate_ticks,
            s.midpoint_frame,
            sample,
        ).1 == TerrainSpawnerTick::SpawnDue ==> step_phase(
            s.phase,
            s.animation_probability_micros,
            s.animation_rate_ticks,
            s.midpoint_frame,
            sample,
        ).0 == TerrainSpawnerPhase::Idle,
        (s.shown_frame() as int) < s.body_frames(),
{
}


/// One overlay cell of the map (`[OverlayPack]` entry).
#[derive(Debug, Clone, Copy, PartialEq, Eq, Structural)]
pub struct OverlayCell {
    /// Cell X.
    pub x: u16,
    /// Cell Y.
    pub y: u16,
    /// Overlay type index.
    pub overlay_id: u8,
    /// Overlay data (density for ore).
    pub data: u8,
}

/// The overlay types, read for which of them are harvestable ore.
#[derive(Debug, Clone)]
pub struct OverlayTypeRegistry {
    /// `harvestable[id]`: whether overlay type `id` is harvestable ore.
    pub harvestable: Vec<bool>,
}

impl OverlayTypeRegistry {
    /// Whether overlay type `id` is harvestable (unknown ids are not).
    pub open spec fn spec_is_harvestable(&self, id: u8) -> bool {
        (id as int) < self.harvestable@.len() && self.harvestable@[id as int]
    }

    /// Whether overlay type `id` is harvestable (unknown ids are not).
    pub fn is_harvestable(&self, id: u8) -> (h: bool)
        ensures
            h == self.spec_is_harvestable(id),
    {
        (id as usize) < self.harvestable.len() && self.harvestable[id as usize]
    }

    /// Number of overlay types.
    pub fn len(&self) -> (n: usize)
        ensures
            n == self.harvestable@.len(),
    {
        self.harvestable.len()
    }
}

/// Lowest harvestable overlay id below 256 at or above `from`.
pub open spec fn first_harvestable_from(reg: OverlayTypeRegistry, from: int) -> Option<u8>
    decreases 256 - from,
{
    if from >= 256 || from >= reg.harvestable@.len() || from < 0 {
        None
    } else if reg.spec_is_harvestable(from as u8) {
        Some(from as u8)
    } else {
        first_harvestable_from(reg, from + 1)
    }
}

/// The first harvestable overlay type (the ore grown by trees).
pub fn first_harvestable_id(reg: &OverlayTypeRegistry) -> (id: Option<u8>)
    ensures
        id == first_harvestable_from(*reg, 0),
{
    let n = if reg.len() < 256 { reg.len() } else { 256 };
    let mut i: usize = 0;
    while i < n
        invariant
            n <= 256,
            n == if reg.harvestable@.len() < 256 { reg.harvestable@.len() } else { 256 },
            i <= n,
            first_harvestable_from(*reg, 0) == first_harvestable_from(*reg, i as int),
        decreases n - i,
    {
        let id = i as u8;
        if reg.is_harvestable(id) {
            return Some(id);
        }
        i += 1;
    }
    None
}

/// Offset of the `k`-th neighbour, clockwise from north.
pub open spec fn adjacent(k: int) -> (int, int) {
    if k == 0 {
        (0, -1)
    } else if k == 1 {
        (1, -1)
    } else if k == 2 {
        (1, 0)
    } else if k == 3 {
        (1, 1)
    } else if k == 4 {
        (0, 1)
    } else if k == 5 {
        (-1, 1)
    } else if k == 6 {
        (-1, 0)
    } else {
        (-1, -1)
    }
}

fn adjacent_offset(k: usize) -> (d: (i32, i32))
    requires
        k < 8,
    ensures
        d.0 == adjacent(k as int).0 && d.1 == adjacent(k as int).1,
{
    if k == 0 {
        (0, -1)
    } else if k == 1 {
        (1, -1)
    } else if k == 2 {
        (1, 0)
    } else if k == 3 {
        (1, 1)
    } else if k == 4 {
        (0, 1)
    } else if k == 5 {
        (-1, 1)
    } else if k == 6 {
        (-1, 0)
    } else {
        (-1, -1)
    }
}

/// Index of the first overlay cell at `(x, y)`, searching from `i`.
pub open spec fn find_cell_from(cells: Seq<OverlayCell>, x: u16, y: u16, i: int) -> Option<int>
    decreases cells.len() - i,
{
    if i < 0 || i >= cells.len() {
        None
    } else if cells[i].x == x && cells[i].y == y {
        Some(i)
    } else {
        find_cell_from(cells, x, y, i + 1)
    }
}

/// Whether neighbour `k` of `(ox, oy)` can take ore: inside the map and
/// either free of overlay or already holding harvestable ore.
pub open spec fn neighbour_takes_ore(
    cells: Seq<OverlayCell>,
    reg: OverlayTypeRegistry,
    ox: u16,
    oy: u16,
    width: u16,
    height: u16,
    k: int,
) -> bool {
    let x = ox + adjacent(k).0;
    let y = oy + adjacent(k).1;
    &&& 0 <= x < width
    &&& 0 <= y < height
    &&& match find_cell_from(cells, x as u16, y as u16, 0) {
        Some(i) => reg.spec_is_harvestable(cells[i].overlay_id),
        None => true,
    }
}

/// First neighbour, from `k` on, that can take ore.
pub open spec fn ore_neighbour_from(
    cells: Seq<OverlayCell>,
    reg: OverlayTypeRegistry,
    ox: u16,
    oy: u16,
    width: u16,
    height: u16,
    k: int,
) -> Option<int>
    decreases 8 - k,
{
    if k < 0 || k >= 8 {
        None
    } else if neighbour_takes_ore(cells, reg, ox, oy, width, height, k) {
        Some(k)
    } else {
        ore_neighbour_from(cells, reg, ox, oy, width, height, k + 1)
    }
}

/// Overlay cells after growing ore next to the tree at `(ox, oy)`, and the
/// cell written: the first neighbour (clockwise from north) inside the map
/// that is free (new ore of density 3) or already ore (one level denser, at
/// most 11). Nothing happens without a harvestable type or a neighbour.
pub open spec fn ore_grown(
    cells: Seq<OverlayCell>,
    reg: OverlayTypeRegistry,
    ox: u16,
    oy: u16,
    width: u16,
    height: u16,
) -> (Seq<OverlayCell>, Option<(u16, u16)>) {
    match first_harvestable_from(reg, 0) {
        None => (cells, None),
        Some(ore_id) => match ore_neighbour_from(cells, reg, ox, oy, width, height, 0) {
            None => (cells, None),
            Some(k) => {
                let x = (ox + adjacent(k).0) as u16;
                let y = (oy + adjacent(k).1) as u16;
                match find_cell_from(cells, x, y, 0) {
                    Some(i) => (
                        cells.update(
                            i,
                            OverlayCell {
                                data: if cells[i].data >= MAX_ORE_DENSITY {
                                    MAX_ORE_DENSITY
                                } else {
                                    (cells[i].data + 1) as u8
                                },
                                ..cells[i]
                            },
                        ),
                        Some((x, y)),
                    ),
                    None => (
                        cells.push(OverlayCell { x, y, overlay_id: ore_id, data: SPAWN_ORE_DENSITY }),
                        Some((x, y)),
                    ),
                }
            },
        },
    }
}

/// Index of the first overlay cell at `(x, y)`.
fn find_cell(cells: &Vec<OverlayCell>, x: u16, y: u16) -> (r: Option<usize>)
    ensures
        r matches Some(i) ==> find_cell_from(cells@, x, y, 0) == Some(i as int) && i < cells@.len(),
        r is None ==> find_cell_from(cells@, x, y, 0) is None,
{
    let n = cells.len();
    let mut i: usize = 0;
    while i < n
        invariant
            n == cells@.len(),
            i <= n,
            find_cell_from(cells@, x, y, 0) == find_cell_from(cells@, x, y, i as int),
        decreases n - i,
    {
        if cells[i].x == x && cells[i].y == y {
            return Some(i);
        }
        i += 1;
    }
    None
}

/// Grows one ore cell next to the tree at `(ox, oy)` inside a
/// `width` by `height` map; returns the cell written, for redraw.
pub fn place_spawned_ore(
    overlays: &mut Vec<OverlayCell>,
    overlay_types: &OverlayTypeRegistry,
    ox: u16,
    oy: u16,
    width: u16,
    height: u16,
) -> (written: Option<(u16, u16)>)
    ensures
        (final(overlays)@, written) == ore_grown(old(overlays)@, *overlay_types, ox, oy, width, height),
{
    let ore_id = match first_harvestable_id(overlay_types) {
        Some(id) => id,
        None => {
            return None;
        },
    };
    let mut k: usize = 0;
    while k < 8
        invariant
            k <= 8,
            *overlays == *old(overlays),
            first_harvestable_from(*overlay_types, 0) == Some(ore_id),
            ore_neighbour_from(overlays@, *overlay_types, ox, oy, width, height, 0)
                == ore_neighbour_from(overlays@, *overlay_types, ox, oy, width, height, k as int),
        decreases 8 - k,
    {
        let (dx, dy) = adjacent_offset(k);
        let x = ox as i32 + dx;
        let y = oy as i32 + dy;
        if x >= 0 && y >= 0 && x < width as i32 && y < height as i32 {
            let xu = x as u16;
            let yu = y as u16;
            match find_cell(overlays, xu, yu) {
                Some(i) => {
                    let cell = overlays[i];
                    if overlay_types.is_harvestable(cell.overlay_id) {
                        let data = if cell.data >= MAX_ORE_DENSITY { MAX_ORE_DENSITY } else { cell.data + 1 };
                        overlays.set(i, OverlayCell { data, ..cell });
                        return Some((xu, yu));
                    }
                },
                None => {
                    overlays.push(OverlayCell { x: xu, y: yu, overlay_id: ore_id, data: SPAWN_ORE_DENSITY });
                    return Some((xu, yu));
                },
            }
        }
        k += 1;
    }
    None
}

/// The phases and tick results of running `step_phase` over `samples`.
pub open spec fn run_spawner(
    phase: TerrainSpawnerPhase,
    probability: u32,
    rate: u16,
    midpoint: u16,
    samples: Seq<u32>,
) -> (TerrainSpawnerPhase, Seq<TerrainSpawnerTick>)
    decreases samples.len(),
{
    if samples.len() == 0 {
        (phase, Seq::empty())
    } else {
        let (next, t) = step_phase(phase, probability, rate, midpoint, samples[0]);
        let (last, ts) = run_spawner(next, probability, rate, midpoint, samples.drop_first());
        (last, seq![t] + ts)
    }
}

/// From frame `f` with `t` ticks left on it, the run of the remaining
/// `(midpoint - 1 - f) * rate + t` ticks is all `Active` but the last, which
/// is `SpawnDue` and leaves the tree idle.
proof fn lemma_active_run(f: u16, t: u16, probability: u32, rate: u16, midpoint: u16, samples: Seq<u32>)
    requires
        rate >= 1,
        1 <= t <= rate,
        f < midpoint,
        samples.len() == (midpoint - 1 - f) * rate + t,
    ensures
        ({
            let (last, ts) = run_spawner(
                TerrainSpawnerPhase::Active { current_frame: f, ticks_until_next: t },
                probability,
                rate,
                midpoint,
                samples,
            );
            &&& last == TerrainSpawnerPhase::Idle
            &&& ts.len() == samples.len()
            &&& forall|i: int| 0 <= i < ts.len() - 1 ==> ts[i] == TerrainSpawnerTick::Active
            &&& ts[ts.len() - 1] == TerrainSpawnerTick::SpawnDue
        }),
    decreases samples.len(),
{
    let rest = samples.drop_first();
    assert((midpoint - 1 - f) * rate >= 0) by (nonlinear_arith)
        requires
            f < midpoint,
            rate >= 1,
    ;
    if t > 1 {
        lemma_active_run(f, (t - 1) as u16, probability, rate, midpoint, rest);
    } else if f as int + 1 >= midpoint {
        assert(samples.len() == 1);
        assert(rest.len() == 0);
    } else {
        assert((midpoint - 1 - f) * rate == (midpoint - 1 - (f + 1)) * rate + rate) by (nonlinear_arith);
        lemma_active_run((f + 1) as u16, rate, probability, rate, midpoint, rest);
    }
    let (last, ts) = run_spawner(
        TerrainSpawnerPhase::Active { current_frame: f, ticks_until_next: t },
        probability,
        rate,
        midpoint,
        samples,
    );
    let (next, t0) = step_phase(
        TerrainSpawnerPhase::Active { current_frame: f, ticks_until_next: t },
        probability,
        rate,
        midpoint,
        samples[0],
    );
    let (l2, ts2) = run_spawner(next, probability, rate, midpoint, rest);
    assert(ts == seq![t0] + ts2);
    if samples.len() > 1 {
        assert(t0 == TerrainSpawnerTick::Active);
        assert forall|i: int| 0 <= i < ts.len() - 1 implies ts[i] == TerrainSpawnerTick::Active by {
            if i > 0 {
                assert(ts[i] == ts2[i - 1]);
            }
        }
    }
}

/// A tree that starts playing (rate of at least one tick per frame, a
/// midpoint of at least one frame) plays for `midpoint * rate` more ticks
/// whatever the rolls: the first `midpoint * rate - 1` of them report
/// `Active` and the last reports `SpawnDue` and leaves it idle.
pub proof fn law_spawner_cycle(s: TerrainSpawnerState, start_sample: u32, samples: Seq<u32>)
    requires
        s.phase == TerrainSpawnerPhase::Idle,
        s.animation_rate_ticks >= 1,
        s.midpoint_frame >= 1,
        step_phase(s.phase, s.animation_probability_micros, s.animation_rate_ticks, s.midpoint_frame, start_sample).1
            == TerrainSpawnerTick::Started,
        samples.len() == s.midpoint_frame * s.animation_rate_ticks,
    ensures
        ({
            let started = step_phase(
                s.phase,
                s.animation_probability_micros,
                s.animation_rate_ticks,
                s.midpoint_frame,
                start_sample,
            ).0;
            let (last, ts) = run_spawner(
                started,
                s.animation_probability_micros,
                s.animation_rate_ticks,
                s.midpoint_frame,
                samples,
            );
            &&& last == TerrainSpawnerPhase::Idle
            &&& ts.len() == s.midpoint_frame * s.animation_rate_ticks
            &&& forall|i: int| 0 <= i < ts.len() - 1 ==> ts[i] == TerrainSpawnerTick::Active
            &&& ts[ts.len() - 1] == TerrainSpawnerTick::SpawnDue
        }),
{
    let r = s.animation_rate_ticks;
    let m = s.midpoint_frame;
    assert(m * r == (m - 1 - 0) * r + r) by (nonlinear_arith);
    lemma_active_run(0, r, s.animation_probability_micros, r, m, samples);
}

} // verus!
