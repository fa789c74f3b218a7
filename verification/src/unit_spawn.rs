//! A produced unit leaving its factory: the cell it appears on, its combat
//! stats and the mission it starts with.

use vstd::prelude::*;

use crate::ai::{iq_allows, iq_of, MapHouse};
use crate::repath::MoveGrid;
use crate::text::{eq_ignore_ascii_case, text_eq_ignore_ascii_case};

verus! {

/// The `k`-th of the eight cells tried around a factory: right, down,
/// left, up, then the diagonals.
pub open spec fn spawn_delta(k: int) -> (int, int) {
    if k == 0 {
        (1, 0)
    } else if k == 1 {
        (0, 1)
    } else if k == 2 {
        (-1, 0)
    } else if k == 3 {
        (0, -1)
    } else if k == 4 {
        (1, 1)
    } else if k == 5 {
        (-1, 1)
    } else if k == 6 {
        (-1, -1)
    } else {
        (1, -1)
    }
}

/// The `k`-th cell around `(fx, fy)`, unless a coordinate is negative
/// (coordinates are taken as `u16`).
pub open spec fn delta_cell(fx: u16, fy: u16, k: int) -> Option<(u16, u16)> {
    let x = fx + spawn_delta(k).0;
    let y = fy + spawn_delta(k).1;
    if x < 0 || y < 0 {
        None
    } else {
        Some((x as u16, y as u16))
    }
}

/// First cell from the `k`-th on around `(fx, fy)` where `free` allows a
/// unit.
pub open spec fn spawn_cell_from(free: MoveGrid, fx: u16, fy: u16, k: int) -> Option<(u16, u16)>
    decreases 8 - k,
{
    if k < 0 || k >= 8 {
        None
    } else {
        match delta_cell(fx, fy, k) {
            Some(c) => if free.passable(c.0 as int, c.1 as int) {
                Some(c)
            } else {
                spawn_cell_from(free, fx, fy, k + 1)
            },
            None => spawn_cell_from(free, fx, fy, k + 1),
        }
    }
}

fn delta(k: usize) -> (d: (i32, i32))
    requires
        k < 8,
    ensures
        d.0 as int == spawn_delta(k as int).0,
        d.1 as int == spawn_delta(k as int).1,
{
    if k == 0 {
        (1, 0)
    } else if k == 1 {
        (0, 1)
    } else if k == 2 {
        (-1, 0)
    } else if k == 3 {
        (0, -1)
    } else if k == 4 {
        (1, 1)
    } else if k == 5 {
        (-1, 1)
    } else if k == 6 {
        (-1, -1)
    } else {
        (1, -1)
    }
}

/// Cell next to a land factory at `(fx, fy)` where the unit appears: the
/// first of the eight neighbours (see [`spawn_delta`]) that `free` allows.
pub fn find_spawn_cell(fx: u16, fy: u16, free: &MoveGrid) -> (r: Option<(u16, u16)>)
    requires
        free.wf(),
    ensures
        r == spawn_cell_from(*free, fx, fy, 0),
{
    let mut k: usize = 0;
    while k < 8
        invariant
            k <= 8,
            free.wf(),
            spawn_cell_from(*free, fx, fy, 0) == spawn_cell_from(*free, fx, fy, k as int),
        decreases 8 - k,
    {
        let (dx, dy) = delta(k);
        let x: i32 = fx as i32 + dx;
        let y: i32 = fy as i32 + dy;
        if x >= 0 && y >= 0 {
            let cx: u16 = #[verifier::truncate] (x as u16);
            let cy: u16 = #[verifier::truncate] (y as u16);
            if free.is_passable(cx, cy) {
                return Some((cx, cy));
            }
        }
        k = k + 1;
    }
    None
}

/// What a unit's weapon contributes to its stats.
#[derive(Clone, Copy, Debug, PartialEq, Eq, Structural)]
pub struct WeaponFacts {
    pub range: u32,
    pub damage: u32,
    /// Rate of fire (ticks between shots; 0: the default).
    pub rof: u32,
    pub warhead: Option<u32>,
}

/// Combat stats of a freshly produced unit.
#[derive(Clone, Copy, Debug, PartialEq, Eq, Structural)]
pub struct UnitStats {
    pub max_health: u32,
    pub attack_range: u32,
    pub attack_damage: u32,
    pub attack_cooldown_max: u32,
    pub warhead: Option<u32>,
}

/// `x` held at `u32::MAX`.
pub open spec fn cap_u32(x: int) -> u32 {
    if x > u32::MAX {
        u32::MAX
    } else {
        x as u32
    }
}

/// Hit points of a unit of `strength` (at least 1); a promoted class gets a
/// quarter more, and at least one more point.
pub open spec fn unit_max_health(strength: u32, promoted: bool) -> u32 {
    let base: u32 = if strength > 1 {
        strength
    } else {
        1
    };
    if promoted {
        let quarter_more: u32 = (cap_u32(base * 5) / 4) as u32;
        let one_more = cap_u32(base + 1);
        if quarter_more > one_more {
            quarter_more
        } else {
            one_more
        }
    } else {
        base
    }
}

/// Stats of a produced unit: health from its strength; range, damage,
/// rate of fire and warhead from its primary weapon (the range falls back
/// on the sight, at least 1; the rate of fire on `default_rof`; the warhead
/// on the type's own); all zero without a weapon (no damage is made up).
pub open spec fn unit_stats(
    strength: u32,
    sight: u32,
    weapon: Option<WeaponFacts>,
    warhead_fallback: Option<u32>,
    promoted: bool,
    default_rof: u32,
) -> UnitStats {
    UnitStats {
        max_health: unit_max_health(strength, promoted),
        attack_range: match weapon {
            Some(w) => if w.range > 0 {
                w.range
            } else if sight > 1 {
                sight
            } else {
                1
            },
            None => 0,
        },
        attack_damage: match weapon {
            Some(w) => w.damage,
            None => 0,
        },
        attack_cooldown_max: match weapon {
            Some(w) => if w.rof > 0 {
                w.rof
            } else {
                default_rof
            },
            None => 0,
        },
        warhead: match weapon {
            Some(w) => match w.warhead {
                Some(h) => Some(h),
                None => warhead_fallback,
            },
            None => warhead_fallback,
        },
    }
}

/// The stats of a produced unit (see [`unit_stats`]).
pub fn produced_unit_stats(
    strength: u32,
    sight: u32,
    weapon: Option<WeaponFacts>,
    warhead_fallback: Option<u32>,
    promoted: bool,
    default_rof: u32,
) -> (s: UnitStats)
    ensures
        s == unit_stats(strength, sight, weapon, warhead_fallback, promoted, default_rof),
{
    let base: u32 = if strength > 1 {
        strength
    } else {
        1
    };
    let max_health: u32 = if promoted {
        let five: u32 = if base > u32::MAX / 5 {
            u32::MAX
        } else {
            base * 5
        };
        let quarter_more: u32 = five / 4;
        let one_more: u32 = if base == u32::MAX {
            u32::MAX
        } else {
            base + 1
        };
        if quarter_more > one_more {
            quarter_more
        } else {
            one_more
        }
    } else {
        base
    };
    let (attack_range, attack_damage, attack_cooldown_max, warhead) = match weapon {
        Some(w) => (
            if w.range > 0 {
                w.range
            } else if sight > 1 {
                sight
            } else {
                1
            },
            w.damage,
            if w.rof > 0 {
                w.rof
            } else {
                default_rof
            },
            match w.warhead {
                Some(h) => Some(h),
                None => warhead_fallback,
            },
        ),
        None => (0, 0, 0, warhead_fallback),
    };
    UnitStats { max_health, attack_range, attack_damage, attack_cooldown_max, warhead }
}

/// Mission a produced unit starts with.
#[derive(Clone, Copy, Debug, PartialEq, Eq, Structural)]
pub enum UnitMission {
    Harvest,
    Guard,
}

/// The owner is an AI house: a known house that is not ambient and is not
/// the local player's (ASCII case ignored).
pub open spec fn is_ai_house(house: Option<Seq<char>>, ambient: bool, local_house: Option<Seq<char>>) -> bool {
    match house {
        Some(h) => !ambient && match local_house {
            Some(l) => !text_eq_ignore_ascii_case(l, h),
            None => true,
        },
        None => false,
    }
}

/// Mission of a produced unit: harvesters harvest; units of an AI house
/// whose IQ reaches `guard_iq` guard; others start without one.
pub open spec fn unit_mission(
    harvester: bool,
    house: Option<Seq<char>>,
    ambient: bool,
    local_house: Option<Seq<char>>,
    houses: Seq<MapHouse>,
    max_iq_levels: i32,
    guard_iq: i32,
) -> Option<UnitMission> {
    if harvester {
        Some(UnitMission::Harvest)
    } else if is_ai_house(house, ambient, local_house) && iq_of(houses, house.unwrap(), max_iq_levels) >= guard_iq {
        Some(UnitMission::Guard)
    } else {
        None
    }
}

/// The mission of a produced unit (see [`unit_mission`]); `house` is the
/// key of the owner's house when known, `ambient` whether that house is
/// ambient.
pub fn produced_unit_mission(
    harvester: bool,
    house: Option<&str>,
    ambient: bool,
    local_house: Option<&str>,
    houses: &[MapHouse],
    max_iq_levels: i32,
    guard_iq: i32,
) -> (m: Option<UnitMission>)
    ensures
        m == unit_mission(
            harvester,
            match house {
                Some(h) => Some(h@),
                None => None,
            },
            ambient,
            match local_house {
                Some(l) => Some(l@),
                None => None,
            },
            houses@,
            max_iq_levels,
            guard_iq,
        ),
{
    if harvester {
        return Some(UnitMission::Harvest);
    }
    let h = match house {
        Some(h) => h,
        None => {
            return None;
        },
    };
    if ambient {
        return None;
    }
    if let Some(l) = local_house {
        if eq_ignore_ascii_case(l, h) {
            return None;
        }
    }
    if iq_allows(houses, h, max_iq_levels, guard_iq) {
        Some(UnitMission::Guard)
    } else {
        None
    }
}

/// How far out a shipyard looks for open water.
pub const NAVAL_SPAWN_MAX_RADIUS: i32 = 8;

/// What the shipyard's search reads.
pub struct NavalEnv {
    /// Water cells ships may use.
    pub water: MoveGrid,
    /// Cells no entity stands on.
    pub clear: MoveGrid,
    pub fx: u16,
    pub fy: u16,
    /// The shipyard's footprint (each side at least 1).
    pub fw: int,
    pub fh: int,
}

/// The cell at offset `(dx, dy)` from the shipyard's corner on ring `r`
/// around its footprint, when a ship may appear there.
pub open spec fn naval_cell(env: NavalEnv, r: int, dy: int, dx: int) -> Option<(u16, u16)> {
    let on_ring = dx == -r || dy == -r || dx == env.fw - 1 + r || dy == env.fh - 1 + r;
    let x = env.fx + dx;
    let y = env.fy + dy;
    if !on_ring || x < 0 || y < 0 {
        None
    } else {
        let c = ((x as u16), (y as u16));
        if env.water.passable(c.0 as int, c.1 as int) && env.clear.passable(c.0 as int, c.1 as int) {
            Some(c)
        } else {
            None
        }
    }
}

/// First cell of row `dy` of ring `r` from column `dx` on.
pub open spec fn naval_row(env: NavalEnv, r: int, dy: int, dx: int) -> Option<(u16, u16)>
    decreases env.fw + r - dx,
{
    if dx > env.fw - 1 + r {
        None
    } else {
        match naval_cell(env, r, dy, dx) {
            Some(c) => Some(c),
            None => naval_row(env, r, dy, dx + 1),
        }
    }
}

/// First cell of ring `r` from row `dy` on.
pub open spec fn naval_rows(env: NavalEnv, r: int, dy: int) -> Option<(u16, u16)>
    decreases env.fh + r - dy,
{
    if dy > env.fh - 1 + r {
        None
    } else {
        match naval_row(env, r, dy, -r) {
            Some(c) => Some(c),
            None => naval_rows(env, r, dy + 1),
        }
    }
}

/// First cell from ring `r` out to the last ring.
pub open spec fn naval_rings(env: NavalEnv, r: int) -> Option<(u16, u16)>
    decreases NAVAL_SPAWN_MAX_RADIUS + 1 - r,
{
    if r > NAVAL_SPAWN_MAX_RADIUS {
        None
    } else {
        match naval_rows(env, r, -r) {
            Some(c) => Some(c),
            None => naval_rings(env, r + 1),
        }
    }
}

/// Cell where a ship built by a shipyard at `(fx, fy)` appears: the first
/// open water cell no entity stands on, ring by ring around the shipyard's
/// footprint (`fw` by `fh`, each side taken as at least 1), out to
/// [`NAVAL_SPAWN_MAX_RADIUS`] rings.
pub fn find_naval_spawn_cell(water: &MoveGrid, clear: &MoveGrid, fx: u16, fy: u16, fw: u16, fh: u16) -> (r: Option<
    (u16, u16),
>)
    requires
        water.wf(),
        clear.wf(),
    ensures
        r == naval_rings(
            NavalEnv {
                water: *water,
                clear: *clear,
                fx,
                fy,
                fw: if fw > 1 {
                    fw as int
                } else {
                    1
                },
                fh: if fh > 1 {
                    fh as int
                } else {
                    1
                },
            },
            1,
        ),
{
    let w: i32 = if fw > 1 {
        fw as i32
    } else {
        1
    };
    let h: i32 = if fh > 1 {
        fh as i32
    } else {
        1
    };
    let ghost env = NavalEnv { water: *water, clear: *clear, fx, fy, fw: w as int, fh: h as int };
    let mut r: i32 = 1;
    while r <= NAVAL_SPAWN_MAX_RADIUS
        invariant
            1 <= r <= NAVAL_SPAWN_MAX_RADIUS + 1,
            1 <= w <= 0xffff,
            1 <= h <= 0xffff,
            env == (NavalEnv { water: *water, clear: *clear, fx, fy, fw: w as int, fh: h as int }),
            w == (if fw > 1 { fw as int } else { 1 }),
            h == (if fh > 1 { fh as int } else { 1 }),
            water.wf(),
            clear.wf(),
            naval_rings(env, 1) == naval_rings(env, r as int),
        decreases NAVAL_SPAWN_MAX_RADIUS + 1 - r,
    {
        let mut dy: i32 = -r;
        while dy <= h - 1 + r
            invariant
                1 <= r <= NAVAL_SPAWN_MAX_RADIUS,
                1 <= w <= 0xffff,
                1 <= h <= 0xffff,
                -r <= dy <= h + r,
                env == (NavalEnv { water: *water, clear: *clear, fx, fy, fw: w as int, fh: h as int }),
                w == (if fw > 1 { fw as int } else { 1 }),
                h == (if fh > 1 { fh as int } else { 1 }),
                water.wf(),
                clear.wf(),
                naval_rings(env, 1) == match naval_rows(env, r as int, -r as int) {
                    Some(c) => Some(c),
                    None => naval_rings(env, r + 1),
                },
                naval_rows(env, r as int, -r as int) == naval_rows(env, r as int, dy as int),
            decreases h + r - dy,
        {
            let mut dx: i32 = -r;
            while dx <= w - 1 + r
                invariant
                    1 <= r <= NAVAL_SPAWN_MAX_RADIUS,
                    1 <= w <= 0xffff,
                    1 <= h <= 0xffff,
                    -r <= dy <= h - 1 + r,
                    -r <= dx <= w + r,
                    env == (NavalEnv { water: *water, clear: *clear, fx, fy, fw: w as int, fh: h as int }),
                    w == (if fw > 1 { fw as int } else { 1 }),
                    h == (if fh > 1 { fh as int } else { 1 }),
                    water.wf(),
                    clear.wf(),
                    naval_rings(env, 1) == match naval_rows(env, r as int, -r as int) {
                        Some(c) => Some(c),
                        None => naval_rings(env, r + 1),
                    },
                    naval_rows(env, r as int, -r as int) == match naval_row(env, r as int, dy as int, -r as int) {
                        Some(c) => Some(c),
                        None => naval_rows(env, r as int, dy + 1),
                    },
                    naval_row(env, r as int, dy as int, -r as int) == naval_row(env, r as int, dy as int, dx as int),
                decreases w + r - dx,
            {
                let on_ring = dx == -r || dy == -r || dx == w - 1 + r || dy == h - 1 + r;
                let x: i32 = fx as i32 + dx;
                let y: i32 = fy as i32 + dy;
                if on_ring && x >= 0 && y >= 0 {
                    let cx: u16 = #[verifier::truncate] (x as u16);
                    let cy: u16 = #[verifier::truncate] (y as u16);
                    if water.is_passable(cx, cy) && clear.is_passable(cx, cy) {
                        proof {
                            assert(naval_cell(env, r as int, dy as int, dx as int) == Some((cx, cy)));
                            assert(naval_row(env, r as int, dy as int, dx as int) == Some((cx, cy)));
                            assert(naval_rows(env, r as int, -r as int) == Some((cx, cy)));
                        }
                        return Some((cx, cy));
                    }
                }
                dx = dx + 1;
            }
            dy = dy + 1;
        }
        r = r + 1;
    }
    None
}

} // verus!
