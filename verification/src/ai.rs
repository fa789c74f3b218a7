//! Decisions of the computer players that depend on plain values only:
//! difficulty pacing, the fixed order of base-building categories, distance
//! and the deterministic weighted roll.

use vstd::prelude::*;
use vstd::string::StringSliceAdditionalSpecFns;

use crate::text::{eq_ignore_ascii_case, str_eq_ignore_ascii_case};

verus! {

/// Whether the AI skips offence and mass production this tick:
/// `Easy` skips odd ticks, `Hard` never skips, anything else skips one tick
/// in four.
pub open spec fn skips_offensive(difficulty: &str, tick: u64) -> bool {
    if str_eq_ignore_ascii_case(difficulty, "Easy") {
        tick % 2 == 1
    } else if str_eq_ignore_ascii_case(difficulty, "Hard") {
        false
    } else {
        tick % 4 == 3
    }
}

/// Whether the AI skips offence and production this tick for the difficulty.
pub fn difficulty_skips_offensive(difficulty: &str, tick: u64) -> (skip: bool)
    ensures
        skip == skips_offensive(difficulty, tick),
{
    if eq_ignore_ascii_case(difficulty, "Easy") {
        tick % 2 == 1
    } else if eq_ignore_ascii_case(difficulty, "Hard") {
        false
    } else {
        tick % 4 == 3
    }
}

/// Whether `Hard` adds one more production round.
pub fn difficulty_extra_produce(difficulty: &str) -> (extra: bool)
    ensures
        extra == str_eq_ignore_ascii_case(difficulty, "Hard"),
{
    eq_ignore_ascii_case(difficulty, "Hard")
}

/// Over any four consecutive ticks `Easy` skips two, `Normal` one and `Hard`
/// none.
pub proof fn law_difficulty_pacing(difficulty: &str, t: u64)
    requires
        t % 4 == 0,
        t + 3 <= u64::MAX,
    ensures
        str_eq_ignore_ascii_case(difficulty, "Easy") ==> (skips_offensive(difficulty, t) == false
            && skips_offensive(difficulty, (t + 1) as u64) && !skips_offensive(
            difficulty,
            (t + 2) as u64,
        ) && skips_offensive(difficulty, (t + 3) as u64)),
        !str_eq_ignore_ascii_case(difficulty, "Easy") && !str_eq_ignore_ascii_case(difficulty, "Hard")
            ==> (!skips_offensive(difficulty, t) && !skips_offensive(difficulty, (t + 1) as u64)
            && !skips_offensive(difficulty, (t + 2) as u64) && skips_offensive(
            difficulty,
            (t + 3) as u64,
        )),
        str_eq_ignore_ascii_case(difficulty, "Hard") && !str_eq_ignore_ascii_case(difficulty, "Easy")
            ==> !skips_offensive(difficulty, t),
{
}

/// The rules `[AI]` building categories, in their fixed order.
#[derive(Debug, Clone, Copy, PartialEq, Eq, Structural)]
pub enum AiCategory {
    /// Power plants.
    Power,
    /// Refineries.
    Refinery,
    /// Barracks.
    Barracks,
    /// War factories.
    Weapons,
    /// Radar.
    Radar,
    /// Tech centre.
    Tech,
    /// Naval yard.
    NavalYard,
    /// Helipad / airfield.
    Helipad,
    /// Base defence.
    Defense,
    /// Anti-air.
    Aa,
}

impl AiCategory {
    /// Everything but power and refineries waits for the `[IQ] Production`
    /// threshold.
    pub fn requires_production_iq(self) -> (r: bool)
        ensures
            r == !(self == AiCategory::Power || self == AiCategory::Refinery),
    {
        !matches!(self, AiCategory::Power | AiCategory::Refinery)
    }
}

/// The category order: economy first; army factories, radar, tech, navy,
/// air and defence follow only when `include_army_factories`.
pub open spec fn category_order(include_army_factories: bool) -> Seq<AiCategory> {
    if include_army_factories {
        seq![
            AiCategory::Power,
            AiCategory::Refinery,
            AiCategory::Barracks,
            AiCategory::Weapons,
            AiCategory::Radar,
            AiCategory::Tech,
            AiCategory::NavalYard,
            AiCategory::Helipad,
            AiCategory::Defense,
            AiCategory::Aa,
        ]
    } else {
        seq![AiCategory::Power, AiCategory::Refinery]
    }
}

/// The order in which base-building categories are tried.
pub fn ai_category_order(include_army_factories: bool) -> (steps: Vec<AiCategory>)
    ensures
        steps@ == category_order(include_army_factories),
{
    let mut steps = vec![AiCategory::Power, AiCategory::Refinery];
    if !include_army_factories {
        assert(steps@ =~= category_order(include_army_factories));
        return steps;
    }
    steps.push(AiCategory::Barracks);
    steps.push(AiCategory::Weapons);
    steps.push(AiCategory::Radar);
    steps.push(AiCategory::Tech);
    steps.push(AiCategory::NavalYard);
    steps.push(AiCategory::Helipad);
    steps.push(AiCategory::Defense);
    steps.push(AiCategory::Aa);
    assert(steps@ =~= category_order(include_army_factories));
    steps
}

/// Absolute difference.
pub open spec fn abs_diff(a: int, b: int) -> int {
    if a >= b {
        a - b
    } else {
        b - a
    }
}

/// Chebyshev (king-move) distance between two cells.
pub open spec fn chebyshev(ax: u16, ay: u16, bx: u16, by: u16) -> int {
    let dx = abs_diff(ax as int, bx as int);
    let dy = abs_diff(ay as int, by as int);
    if dx >= dy {
        dx
    } else {
        dy
    }
}

/// Chebyshev distance between two cells.
pub fn chebyshev_u16(ax: u16, ay: u16, bx: u16, by: u16) -> (d: u32)
    ensures
        d == chebyshev(ax, ay, bx, by),
{
    let dx: u32 = if ax >= bx { (ax - bx) as u32 } else { (bx - ax) as u32 };
    let dy: u32 = if ay >= by { (ay - by) as u32 } else { (by - ay) as u32 };
    if dx >= dy {
        dx
    } else {
        dy
    }
}

/// FNV-style fold of the key bytes onto `h`.
pub open spec fn roll_fold(h: u64, bytes: Seq<u8>) -> u64
    decreases bytes.len(),
{
    if bytes.len() == 0 {
        h
    } else {
        vstd::wrapping::u64_specs::wrapping_add(
            vstd::wrapping::u64_specs::wrapping_mul(roll_fold(h, bytes.drop_last()), 1099511628211),
            bytes.last() as u64,
        )
    }
}

/// The roll for a (seed, tick, group key) triple.
pub open spec fn roll(seed: u64, tick: u64, key: Seq<u8>) -> u64 {
    roll_fold(seed ^ vstd::wrapping::u64_specs::wrapping_mul(tick, 0x9E37_79B9_7F4A_7C15), key)
}

/// Deterministic roll used to pick among weighted AI triggers.
pub fn deterministic_roll(seed: u64, tick: u64, group_key: &str) -> (h: u64)
    ensures
        h == roll(seed, tick, group_key.spec_bytes()),
{
    let bytes = group_key.as_bytes();
    let h0 = seed ^ tick.wrapping_mul(0x9E37_79B9_7F4A_7C15);
    let mut h = h0;
    let n = bytes.len();
    let mut i: usize = 0;
    while i < n
        invariant
            n == bytes@.len(),
            bytes@ == group_key.spec_bytes(),
            i <= n,
            h == roll_fold(h0, bytes@.subrange(0, i as int)),
        decreases n - i,
    {
        proof {
            assert(bytes@.subrange(0, i as int + 1).drop_last() =~= bytes@.subrange(0, i as int));
        }
        h = h.wrapping_mul(1099511628211).wrapping_add(bytes[i] as u64);
        i += 1;
    }
    assert(bytes@.subrange(0, n as int) =~= bytes@);
    h
}

/// Heuristic production stops once a house fields this many combat units.
pub const HEURISTIC_ARMY_CAP: usize = 8;

/// Heuristic production orders at most once per this many ticks after the
/// first unit.
pub const HEURISTIC_PRODUCE_PERIOD: u64 = 45;

/// A house of the map's `[Houses]`, as the IQ lookup reads it.
#[derive(Clone, Debug)]
pub struct MapHouse {
    /// Key of its country, when the country is known.
    pub country_key: Option<String>,
    /// Name of the house section.
    pub name: String,
    /// Its `IQ=` value.
    pub iq: i32,
}

/// Whether map house `h` is `house` (country key or name, ASCII case
/// ignored); a house of unknown country never matches.
pub open spec fn map_house_is(h: MapHouse, house: Seq<char>) -> bool {
    match h.country_key {
        Some(k) => crate::text::text_eq_ignore_ascii_case(k@, house) || crate::text::text_eq_ignore_ascii_case(
            h.name@,
            house,
        ),
        None => false,
    }
}

/// IQ of `house`: that of the first map house that is it, else the rules'
/// highest IQ level.
pub open spec fn iq_of(houses: Seq<MapHouse>, house: Seq<char>, max_iq_levels: i32) -> i32
    decreases houses.len(),
{
    if houses.len() == 0 {
        max_iq_levels
    } else if map_house_is(houses[0], house) {
        houses[0].iq
    } else {
        iq_of(houses.drop_first(), house, max_iq_levels)
    }
}

/// IQ of `house` from the map's houses (the rules' highest IQ level when
/// the map sets none).
pub fn house_iq(houses: &[MapHouse], house: &str, max_iq_levels: i32) -> (iq: i32)
    ensures
        iq == iq_of(houses@, house@, max_iq_levels),
{
    let mut i: usize = 0;
    assert(houses@.skip(0) =~= houses@);
    while i < houses.len()
        invariant
            i <= houses@.len(),
            iq_of(houses@, house@, max_iq_levels) == iq_of(houses@.skip(i as int), house@, max_iq_levels),
        decreases houses@.len() - i,
    {
        let h = &houses[i];
        proof {
            assert(houses@.skip(i as int)[0] == houses@[i as int]);
            assert(houses@.skip(i as int).drop_first() =~= houses@.skip(i + 1));
        }
        let hit = match &h.country_key {
            Some(k) => eq_ignore_ascii_case(k.as_str(), house) || eq_ignore_ascii_case(h.name.as_str(), house),
            None => false,
        };
        if hit {
            return h.iq;
        }
        i = i + 1;
    }
    assert(houses@.skip(i as int) =~= Seq::<MapHouse>::empty());
    max_iq_levels
}

/// Whether `house`'s IQ reaches `threshold` (a rules `[IQ]` entry).
pub fn iq_allows(houses: &[MapHouse], house: &str, max_iq_levels: i32, threshold: i32) -> (r: bool)
    ensures
        r == (iq_of(houses@, house@, max_iq_levels) >= threshold),
{
    house_iq(houses, house, max_iq_levels) >= threshold
}

/// Whether heuristic factory production may order this tick for a house
/// whose army is not driven by AI triggers: its IQ must reach
/// `iq_production`; the first unit goes at once, then one order every
/// [`HEURISTIC_PRODUCE_PERIOD`] ticks up to [`HEURISTIC_ARMY_CAP`] units.
pub fn heuristic_should_produce_army(
    houses: &[MapHouse],
    house: &str,
    max_iq_levels: i32,
    iq_production: i32,
    army: usize,
    tick: u64,
) -> (r: bool)
    ensures
        r == (iq_of(houses@, house@, max_iq_levels) >= iq_production && army < HEURISTIC_ARMY_CAP && (army
            == 0 || tick % HEURISTIC_PRODUCE_PERIOD == 0)),
{
    if !iq_allows(houses, house, max_iq_levels, iq_production) {
        return false;
    }
    if army >= HEURISTIC_ARMY_CAP {
        return false;
    }
    if army == 0 {
        return true;
    }
    tick % HEURISTIC_PRODUCE_PERIOD == 0
}

/// How many buildings of a ratio category the base wants: the category's
/// share (per mille) of all buildings, at least one, and at most the
/// category's limit when it has one.
pub open spec fn wanted_count(structures: u32, ratio_millis: u32, limit: u32) -> u32 {
    let total: u32 = if structures > 1 {
        structures
    } else {
        1
    };
    let share = #[verifier::truncate] (((total * ratio_millis) / 1000) as u32);
    let want: u32 = if share > 1 {
        share
    } else {
        1
    };
    if limit > 0 && want > limit {
        limit
    } else {
        want
    }
}

/// Whether the base needs one more building of a ratio category: never
/// without candidates or at its limit; always when none is owned; otherwise
/// while fewer are owned than the ratio wants (a zero ratio wants none).
pub fn needs_ratio_category(has_candidates: bool, owned: u32, limit: u32, ratio_millis: u32, structures: u32) -> (r: bool)
    ensures
        r == (has_candidates && !(limit > 0 && owned >= limit) && (owned == 0 || (ratio_millis != 0 && owned
            < wanted_count(structures, ratio_millis, limit)))),
{
    if !has_candidates {
        return false;
    }
    if limit > 0 && owned >= limit {
        return false;
    }
    if owned == 0 {
        return true;
    }
    if ratio_millis == 0 {
        return false;
    }
    let total: u32 = if structures > 1 {
        structures
    } else {
        1
    };
    proof {
        assert((total as int) * (ratio_millis as int) <= 0xffff_ffff * 0xffff_ffff) by (nonlinear_arith)
            requires
                total <= 0xffff_ffff,
                ratio_millis <= 0xffff_ffff,
        ;
    }
    let product: u64 = total as u64 * ratio_millis as u64;
    let share = #[verifier::truncate] ((product / 1000) as u32);
    let want: u32 = if share > 1 {
        share
    } else {
        1
    };
    let want = if limit > 0 && want > limit {
        limit
    } else {
        want
    };
    owned < want
}


/// A rules house as the AI-trigger ownership test reads it: its id and its
/// type key.
#[derive(Clone, Debug)]
pub struct HouseTypeKey {
    pub id: u32,
    pub type_key: String,
}

/// Who an AI trigger belongs to: an explicit owning house, or else the house
/// of the team type that it builds.
#[derive(Clone, Copy, Debug)]
pub struct AiTriggerOwner {
    pub owner_house: Option<u32>,
    pub team: u32,
}

/// A team type's id and the house that it is bound to (none: any house).
#[derive(Clone, Copy, Debug)]
pub struct TeamTypeHouse {
    pub id: u32,
    pub house: Option<u32>,
}

/// The first rules house with id `id`.
pub open spec fn first_house_with_id(houses: Seq<HouseTypeKey>, id: u32) -> Option<HouseTypeKey>
    decreases houses.len(),
{
    if houses.len() == 0 {
        None
    } else if houses[0].id == id {
        Some(houses[0])
    } else {
        first_house_with_id(houses.drop_first(), id)
    }
}

/// Whether rules house `id` exists and its type key is `house` (ASCII case
/// ignored).
pub open spec fn house_id_names(houses: Seq<HouseTypeKey>, id: u32, house: Seq<char>) -> bool {
    match first_house_with_id(houses, id) {
        Some(h) => crate::text::text_eq_ignore_ascii_case(h.type_key@, house),
        None => false,
    }
}

/// The first team type with id `id`.
pub open spec fn first_team_with_id(teams: Seq<TeamTypeHouse>, id: u32) -> Option<TeamTypeHouse>
    decreases teams.len(),
{
    if teams.len() == 0 {
        None
    } else if teams[0].id == id {
        Some(teams[0])
    } else {
        first_team_with_id(teams.drop_first(), id)
    }
}

/// Whether AI trigger `t` drives the army of `house`: its owning house is
/// `house`; or it has none and the team type that it builds is bound to no
/// house or to `house`.
pub open spec fn trigger_drives_house(
    t: AiTriggerOwner,
    teams: Seq<TeamTypeHouse>,
    houses: Seq<HouseTypeKey>,
    house: Seq<char>,
) -> bool {
    match t.owner_house {
        Some(id) => house_id_names(houses, id, house),
        None => match first_team_with_id(teams, t.team) {
            Some(team) => match team.house {
                None => true,
                Some(th) => house_id_names(houses, th, house),
            },
            None => false,
        },
    }
}

pub(crate) fn find_house_with_id(houses: &[HouseTypeKey], id: u32) -> (r: Option<usize>)
    ensures
        match r {
            Some(i) => i < houses@.len() && first_house_with_id(houses@, id) == Some(houses@[i as int]),
            None => first_house_with_id(houses@, id) is None,
        },
{
    let mut i: usize = 0;
    assert(houses@.skip(0) =~= houses@);
    while i < houses.len()
        invariant
            i <= houses@.len(),
            first_house_with_id(houses@, id) == first_house_with_id(houses@.skip(i as int), id),
        decreases houses@.len() - i,
    {
        proof {
            assert(houses@.skip(i as int)[0] == houses@[i as int]);
            assert(houses@.skip(i as int).drop_first() =~= houses@.skip(i + 1));
        }
        if houses[i].id == id {
            return Some(i);
        }
        i = i + 1;
    }
    assert(houses@.skip(i as int) =~= Seq::<HouseTypeKey>::empty());
    None
}

pub(crate) fn house_id_is(houses: &[HouseTypeKey], id: u32, house: &str) -> (r: bool)
    ensures
        r == house_id_names(houses@, id, house@),
{
    match find_house_with_id(houses, id) {
        Some(i) => eq_ignore_ascii_case(houses[i].type_key.as_str(), house),
        None => false,
    }
}

fn find_team_with_id(teams: &[TeamTypeHouse], id: u32) -> (r: Option<TeamTypeHouse>)
    ensures
        r == first_team_with_id(teams@, id),
{
    let mut i: usize = 0;
    assert(teams@.skip(0) =~= teams@);
    while i < teams.len()
        invariant
            i <= teams@.len(),
            first_team_with_id(teams@, id) == first_team_with_id(teams@.skip(i as int), id),
        decreases teams@.len() - i,
    {
        proof {
            assert(teams@.skip(i as int)[0] == teams@[i as int]);
            assert(teams@.skip(i as int).drop_first() =~= teams@.skip(i + 1));
        }
        if teams[i].id == id {
            return Some(teams[i]);
        }
        i = i + 1;
    }
    assert(teams@.skip(i as int) =~= Seq::<TeamTypeHouse>::empty());
    None
}

/// Whether the map's AI triggers drive `house`'s army (then heuristic
/// factory production stays off for it): some trigger belongs to `house`
/// directly, or through a team type bound to `house` or to no house.
pub fn house_army_driven_by_ai_triggers(
    triggers: &[AiTriggerOwner],
    teams: &[TeamTypeHouse],
    houses: &[HouseTypeKey],
    house: &str,
) -> (driven: bool)
    ensures
        driven <==> exists|k: int|
            0 <= k < triggers@.len() && #[trigger] trigger_drives_house(triggers@[k], teams@, houses@, house@),
{
    let mut i: usize = 0;
    while i < triggers.len()
        invariant
            i <= triggers@.len(),
            forall|k: int| 0 <= k < i ==> !#[trigger] trigger_drives_house(triggers@[k], teams@, houses@, house@),
        decreases triggers@.len() - i,
    {
        let t = triggers[i];
        let drives = match t.owner_house {
            Some(id) => house_id_is(houses, id, house),
            None => match find_team_with_id(teams, t.team) {
                Some(team) => match team.house {
                    None => true,
                    Some(th) => house_id_is(houses, th, house),
                },
                None => false,
            },
        };
        if drives {
            assert(trigger_drives_house(triggers@[i as int], teams@, houses@, house@));
            return true;
        }
        i = i + 1;
    }
    false
}

} // verus!
