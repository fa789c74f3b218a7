//! What a unit does this tick about its target: fire at it, chase it or drop
//! it (combat); walk up to a building and take it over (engineers) or slip
//! into it (agents).

use vstd::prelude::*;

use crate::entities::{mobile, EntityKind};
use crate::navigation::{
    footprint_dist, manhattan, manhattan_dist, manhattan_to_footprint, nearest_adjacent_to_footprint, nearest_in_scan,
    ring_scan_len,
};

verus! {

/// An entity as a target of combat, capture or infiltration.
#[derive(Clone, Debug)]
pub struct FieldEntity {
    pub id: u64,
    /// Has health and is not dead.
    pub alive: bool,
    /// Owning house, if any.
    pub owner: Option<String>,
    /// Kind, if it has an identity.
    pub kind: Option<EntityKind>,
    /// Its type can be captured.
    pub capturable: bool,
    /// Cell, if it has a position.
    pub position: Option<(u16, u16)>,
    /// Armor column of its combat stats, if it has combat stats.
    pub armor_index: Option<usize>,
    /// Foundation width of its building type.
    pub foundation_width: u16,
    /// Foundation height of its building type.
    pub foundation_height: u16,
}

/// Index of the first entity with id `id`.
pub open spec fn field_index(es: Seq<FieldEntity>, id: u64) -> Option<int>
    decreases es.len(),
{
    if es.len() == 0 {
        None
    } else {
        match field_index(es.drop_last(), id) {
            Some(i) => Some(i),
            None => if es.last().id == id {
                Some(es.len() - 1)
            } else {
                None
            },
        }
    }
}

proof fn lemma_field_index_prefix(es: Seq<FieldEntity>, id: u64, k: int)
    requires
        0 <= k <= es.len(),
        field_index(es.take(k), id) is Some,
    ensures
        field_index(es, id) == field_index(es.take(k), id),
    decreases es.len() - k,
{
    if k < es.len() {
        assert(es.take(k + 1).drop_last() =~= es.take(k));
        lemma_field_index_prefix(es, id, k + 1);
    } else {
        assert(es.take(k) =~= es);
    }
}

/// Index of the first entity with id `id`.
pub fn find_field_entity(es: &[FieldEntity], id: u64) -> (r: Option<usize>)
    ensures
        match r {
            Some(i) => i < es@.len() && field_index(es@, id) == Some(i as int),
            None => field_index(es@, id) is None,
        },
{
    let mut i: usize = 0;
    while i < es.len()
        invariant
            i <= es@.len(),
            field_index(es@.take(i as int), id) is None,
        decreases es@.len() - i,
    {
        proof {
            assert(es@.take(i + 1).drop_last() =~= es@.take(i as int));
        }
        if es[i].id == id {
            proof {
                lemma_field_index_prefix(es@, id, i + 1);
            }
            return Some(i);
        }
        i = i + 1;
    }
    assert(es@.take(i as int) =~= es@);
    None
}

/// Where an engineer or an agent stands with its building target this tick.
#[derive(Clone, Copy, Debug, PartialEq, Eq, Structural)]
pub enum ApproachOutcome {
    /// The target is no longer valid: the order is dropped.
    Abandon,
    /// Nothing changes this tick.
    Hold,
    /// Walk to this cell (the destination changes).
    Approach(u16, u16),
    /// Close enough: the building is taken over (capture) or entered
    /// (infiltration).
    Arrive,
}

/// A unit carrying out a capture or infiltration order.
#[derive(Clone, Debug)]
pub struct OrderedUnit {
    /// Owning house, if any.
    pub owner: Option<String>,
    /// Cell, if it has a position.
    pub position: Option<(u16, u16)>,
    /// Has a movement state.
    pub has_movement: bool,
    /// Current destination.
    pub destination: Option<(u16, u16)>,
}

/// The checks shared by capture and infiltration: the building must still
/// be there, alive, a structure (and capturable for a capture), and belong
/// to another house; `None` when they pass (then both owners and positions
/// are known).
pub open spec fn target_building_check(u: OrderedUnit, b: Option<FieldEntity>, capture: bool) -> Option<ApproachOutcome> {
    match b {
        None => Some(ApproachOutcome::Abandon),
        Some(t) => if !t.alive {
            Some(ApproachOutcome::Abandon)
        } else if t.kind != Some(EntityKind::Structure) {
            Some(ApproachOutcome::Abandon)
        } else if capture && !t.capturable {
            Some(ApproachOutcome::Abandon)
        } else if u.owner is None || t.owner is None {
            Some(ApproachOutcome::Hold)
        } else if u.owner.unwrap()@ == t.owner.unwrap()@ {
            Some(ApproachOutcome::Abandon)
        } else if u.position is None || t.position is None {
            Some(ApproachOutcome::Hold)
        } else {
            None
        },
    }
}

/// Walking toward `cell`: a change only when the unit has a movement state
/// and is not already heading there.
pub open spec fn walk_to(u: OrderedUnit, cell: (u16, u16)) -> ApproachOutcome {
    if u.has_movement && u.destination != Some(cell) {
        ApproachOutcome::Approach(cell.0, cell.1)
    } else {
        ApproachOutcome::Hold
    }
}

/// An engineer's step toward building `building`: after the shared checks,
/// it takes the building over once within one cell (Manhattan) of the
/// building's anchor cell, else walks to that cell.
pub open spec fn capture_outcome(u: OrderedUnit, es: Seq<FieldEntity>, building: u64) -> ApproachOutcome {
    let b = match field_index(es, building) {
        Some(i) => Some(es[i]),
        None => None,
    };
    match target_building_check(u, b, true) {
        Some(o) => o,
        None => {
            let p = u.position.unwrap();
            let q = b.unwrap().position.unwrap();
            if manhattan_dist(p.0, p.1, q.0, q.1) > 1 {
                walk_to(u, q)
            } else {
                ApproachOutcome::Arrive
            }
        },
    }
}

/// An agent's step toward building `building`: after the shared checks, it
/// enters once next to the building's foundation, else walks to the nearest
/// cell next to it.
pub open spec fn infiltrate_outcome(u: OrderedUnit, es: Seq<FieldEntity>, building: u64, approach: (u16, u16)) -> ApproachOutcome {
    let b = match field_index(es, building) {
        Some(i) => Some(es[i]),
        None => None,
    };
    match target_building_check(u, b, false) {
        Some(o) => o,
        None => {
            let p = u.position.unwrap();
            let t = b.unwrap();
            let q = t.position.unwrap();
            if footprint_dist(p.0, p.1, q.0, q.1, t.foundation_width, t.foundation_height) != 1 {
                walk_to(u, approach)
            } else {
                ApproachOutcome::Arrive
            }
        },
    }
}

fn target_building_check_exec(u: &OrderedUnit, b: Option<&FieldEntity>, capture: bool) -> (r: Option<ApproachOutcome>)
    ensures
        r == target_building_check(
            *u,
            match b {
                Some(t) => Some(*t),
                None => None,
            },
            capture,
        ),
{
    let t = match b {
        Some(t) => t,
        None => {
            return Some(ApproachOutcome::Abandon);
        },
    };
    if !t.alive {
        return Some(ApproachOutcome::Abandon);
    }
    let structure = match t.kind {
        Some(EntityKind::Structure) => true,
        _ => false,
    };
    if !structure {
        return Some(ApproachOutcome::Abandon);
    }
    if capture && !t.capturable {
        return Some(ApproachOutcome::Abandon);
    }
    let (uo, to) = match (&u.owner, &t.owner) {
        (Some(a), Some(o)) => (a, o),
        _ => {
            return Some(ApproachOutcome::Hold);
        },
    };
    if crate::text::same_text(uo.as_str(), to.as_str()) {
        return Some(ApproachOutcome::Abandon);
    }
    if u.position.is_none() || t.position.is_none() {
        return Some(ApproachOutcome::Hold);
    }
    None
}

fn walk_to_exec(u: &OrderedUnit, cell: (u16, u16)) -> (r: ApproachOutcome)
    ensures
        r == walk_to(*u, cell),
{
    let heading = match u.destination {
        Some(d) => d.0 == cell.0 && d.1 == cell.1,
        None => false,
    };
    if u.has_movement && !heading {
        ApproachOutcome::Approach(cell.0, cell.1)
    } else {
        ApproachOutcome::Hold
    }
}

/// What an engineer ordered to capture building `building` does this tick
/// (`es`: the entities, for the building).
pub fn capture_step(u: &OrderedUnit, es: &[FieldEntity], building: u64) -> (r: ApproachOutcome)
    ensures
        r == capture_outcome(*u, es@, building),
{
    let b = match find_field_entity(es, building) {
        Some(i) => Some(&es[i]),
        None => None,
    };
    match target_building_check_exec(u, b, true) {
        Some(o) => o,
        None => {
            let p = u.position.unwrap();
            let q = b.unwrap().position.unwrap();
            if manhattan(p.0, p.1, q.0, q.1) > 1 {
                walk_to_exec(u, q)
            } else {
                ApproachOutcome::Arrive
            }
        },
    }
}

/// The cell next to the foundation of building `building` nearest to the
/// unit (see [`nearest_adjacent_to_footprint`]); `(0, 0)` when a position is
/// unknown.
pub open spec fn infiltrate_approach(u: OrderedUnit, es: Seq<FieldEntity>, building: u64) -> (u16, u16) {
    match (field_index(es, building), u.position) {
        (Some(i), Some(p)) => match es[i].position {
            Some(q) => nearest_in_scan(
                p.0,
                p.1,
                q.0,
                q.1,
                es[i].foundation_width,
                es[i].foundation_height,
                ring_scan_len(es[i].foundation_width, es[i].foundation_height),
            ).0,
            None => (0, 0),
        },
        _ => (0, 0),
    }
}

/// What an agent ordered to infiltrate building `building` does this tick.
pub fn infiltrate_step(u: &OrderedUnit, es: &[FieldEntity], building: u64) -> (r: ApproachOutcome)
    ensures
        r == infiltrate_outcome(*u, es@, building, infiltrate_approach(*u, es@, building)),
{
    let b = match find_field_entity(es, building) {
        Some(i) => Some(&es[i]),
        None => None,
    };
    match target_building_check_exec(u, b, false) {
        Some(o) => o,
        None => {
            let p = u.position.unwrap();
            let t = b.unwrap();
            let q = t.position.unwrap();
            let fw = t.foundation_width;
            let fh = t.foundation_height;
            if manhattan_to_footprint(p.0, p.1, q.0, q.1, fw, fh) != 1 {
                let c = nearest_adjacent_to_footprint(p.0, p.1, q.0, q.1, fw, fh);
                walk_to_exec(u, c)
            } else {
                ApproachOutcome::Arrive
            }
        },
    }
}


/// Attack state of a unit.
#[derive(Clone, Copy, Debug, PartialEq, Eq, Structural)]
pub struct AttackState {
    /// Entity it attacks.
    pub target: Option<u64>,
    /// Busy infiltrating a building (does not fire).
    pub infiltrating: bool,
    /// Busy capturing a building (does not fire).
    pub capturing: bool,
    /// Ticks until it may fire again.
    pub cooldown: u32,
}

/// Fighting stats of a unit.
#[derive(Clone, Debug)]
pub struct FightStats {
    pub range: u32,
    pub damage: u32,
    /// Damage percentage against each armor column.
    pub verses: Vec<u32>,
    /// Cooldown after a shot.
    pub cooldown_max: u32,
}

/// A unit as the combat step reads it.
#[derive(Clone, Debug)]
pub struct Fighter {
    /// Its index among the entities.
    pub index: usize,
    /// Has health and is not dead.
    pub alive: bool,
    /// Has an identity of a mobile kind.
    pub mobile: bool,
    /// Has an owner.
    pub has_owner: bool,
    /// Its attack state, if it has one.
    pub attack: Option<AttackState>,
    /// On an attack-move mission.
    pub attack_move: bool,
    /// Has a movement state.
    pub has_movement: bool,
    pub destination: Option<(u16, u16)>,
    /// Destinations still to visit.
    pub waypoints: Vec<(u16, u16)>,
    /// Cell, if it has a position.
    pub position: Option<(u16, u16)>,
    /// Its stats, if it has combat stats.
    pub stats: Option<FightStats>,
}

/// A unit after its combat step.
#[derive(Clone, Debug)]
pub struct CombatResult {
    /// Its attack state afterwards (`None`: it has none).
    pub attack: Option<AttackState>,
    pub destination: Option<(u16, u16)>,
    pub waypoints: Vec<(u16, u16)>,
    /// The path is dropped and the move progress reset (a new path is due).
    pub path_reset: bool,
    /// Entity index hit, and the damage dealt.
    pub hit: Option<(usize, u32)>,
}

/// The combat step as plain values.
pub struct CombatView {
    pub attack: Option<AttackState>,
    pub destination: Option<(u16, u16)>,
    pub waypoints: Seq<(u16, u16)>,
    pub path_reset: bool,
    pub hit: Option<(usize, u32)>,
}

impl View for CombatResult {
    type V = CombatView;

    open spec fn view(&self) -> CombatView {
        CombatView {
            attack: self.attack,
            destination: self.destination,
            waypoints: self.waypoints@,
            path_reset: self.path_reset,
            hit: self.hit,
        }
    }
}

/// The unit unchanged.
pub open spec fn unchanged(f: Fighter) -> CombatView {
    CombatView { attack: f.attack, destination: f.destination, waypoints: f.waypoints@, path_reset: false, hit: None }
}

/// The target is dropped; on an attack-move the unit resumes its next
/// waypoint, if any.
pub open spec fn drop_target(f: Fighter, a: AttackState) -> CombatView {
    let a2 = AttackState { target: None, ..a };
    if f.attack_move && f.has_movement && f.waypoints@.len() > 0 {
        CombatView {
            attack: Some(a2),
            destination: Some(f.waypoints@[0]),
            waypoints: f.waypoints@.drop_first(),
            path_reset: true,
            hit: None,
        }
    } else {
        CombatView { attack: Some(a2), destination: f.destination, waypoints: f.waypoints@, path_reset: false, hit: None }
    }
}

/// Damage of a shot: the base damage scaled by the percentage against the
/// target's armor (rounded down, narrowed to `u32`).
pub open spec fn scaled_damage(damage: u32, pct: u32) -> u32 {
    ((damage as int * pct as int) / 100) as u32
}

/// The combat step of unit `f` (`nearest`: the nearest hostile in range,
/// looked for on an attack-move without a target). A unit that cannot fight
/// (dead, not mobile, without owner or attack state, busy with a building)
/// and one without a target change nothing. A gone, dead or own target is
/// dropped. Otherwise the unit keeps the target, heads for its cell (on an
/// attack-move first keeping its own destination as a waypoint), counts its
/// cooldown down, and once cooled down fires when in range (Manhattan).
pub open spec fn combat_outcome(f: Fighter, es: Seq<FieldEntity>, nearest: Option<u64>) -> CombatView {
    if !f.alive || !f.mobile || !f.has_owner || f.attack is None {
        unchanged(f)
    } else {
        let a = f.attack.unwrap();
        if a.infiltrating || a.capturing {
            unchanged(f)
        } else {
            let tid = match a.target {
                Some(t) => Some(t),
                None => if f.attack_move {
                    nearest
                } else {
                    None
                },
            };
            match tid {
                None => unchanged(f),
                Some(t) => {
                    let a1 = AttackState { target: Some(t), ..a };
                    match field_index(es, t) {
                        None => drop_target(f, a1),
                        Some(ti) => if !es[ti].alive || ti == f.index {
                            drop_target(f, a1)
                        } else {
                            match es[ti].position {
                                None => CombatView { attack: Some(a1), ..unchanged(f) },
                                Some(tp) => {
                                    let chase = f.has_movement && f.destination != Some(tp);
                                    let keep = f.attack_move && f.waypoints@.len() == 0 && (f.destination matches Some(d)
                                        && d != tp);
                                    let moved = if chase {
                                        CombatView {
                                            attack: Some(a1),
                                            destination: Some(tp),
                                            waypoints: if keep {
                                                seq![f.destination.unwrap()]
                                            } else {
                                                f.waypoints@
                                            },
                                            path_reset: true,
                                            hit: None,
                                        }
                                    } else {
                                        CombatView { attack: Some(a1), ..unchanged(f) }
                                    };
                                    if a.cooldown > 0 {
                                        CombatView {
                                            attack: Some(AttackState { cooldown: (a.cooldown - 1) as u32, ..a1 }),
                                            ..moved
                                        }
                                    } else if f.position is None || f.stats is None || es[ti].armor_index is None {
                                        moved
                                    } else {
                                        let st = f.stats.unwrap();
                                        let p = f.position.unwrap();
                                        if manhattan_dist(p.0, p.1, tp.0, tp.1) <= st.range {
                                            CombatView {
                                                attack: Some(AttackState { cooldown: st.cooldown_max, ..a1 }),
                                                hit: Some(
                                                    (
                                                        ti as usize,
                                                        scaled_damage(st.damage, st.verses@[es[ti].armor_index.unwrap() as int]),
                                                    ),
                                                ),
                                                ..moved
                                            }
                                        } else {
                                            moved
                                        }
                                    }
                                },
                            }
                        },
                    }
                },
            }
        }
    }
}

fn drop_target_exec(f: Fighter, a: AttackState) -> (r: CombatResult)
    ensures
        r@ == drop_target(f, a),
{
    let ghost f0 = f;
    let a2 = AttackState { target: None, ..a };
    let mut waypoints = f.waypoints;
    if f.attack_move && f.has_movement && waypoints.len() > 0 {
        let next = waypoints.remove(0);
        assert(waypoints@ =~= f0.waypoints@.drop_first());
        CombatResult { attack: Some(a2), destination: Some(next), waypoints, path_reset: true, hit: None }
    } else {
        CombatResult { attack: Some(a2), destination: f.destination, waypoints, path_reset: false, hit: None }
    }
}

/// The combat step of unit `f` this tick (see [`combat_outcome`]); `es` are
/// the entities, `nearest` the nearest hostile in its range.
pub fn combat_step(f: Fighter, es: &[FieldEntity], nearest: Option<u64>) -> (r: CombatResult)
    requires
        f.stats matches Some(st) ==> forall|i: int|
            0 <= i < es@.len() && (#[trigger] es@[i]).armor_index is Some ==> es@[i].armor_index.unwrap() < st.verses@.len(),
    ensures
        r@ == combat_outcome(f, es@, nearest),
{
    let ghost f0 = f;
    let same = |f: Fighter| -> (r: CombatResult)
        ensures
            r@ == unchanged(f),
        { CombatResult { attack: f.attack, destination: f.destination, waypoints: f.waypoints, path_reset: false, hit: None } };
    if !f.alive || !f.mobile || !f.has_owner {
        return same(f);
    }
    let a = match f.attack {
        Some(a) => a,
        None => {
            return same(f);
        },
    };
    if a.infiltrating || a.capturing {
        return same(f);
    }
    let tid = match a.target {
        Some(t) => Some(t),
        None => if f.attack_move {
            nearest
        } else {
            None
        },
    };
    let t = match tid {
        Some(t) => t,
        None => {
            return same(f);
        },
    };
    let a1 = AttackState { target: Some(t), ..a };
    let ti = match find_field_entity(es, t) {
        Some(ti) => ti,
        None => {
            return drop_target_exec(f, a1);
        },
    };
    if !es[ti].alive || ti == f.index {
        return drop_target_exec(f, a1);
    }
    let tp = match es[ti].position {
        Some(tp) => tp,
        None => {
            return CombatResult {
                attack: Some(a1),
                destination: f.destination,
                waypoints: f.waypoints,
                path_reset: false,
                hit: None,
            };
        },
    };
    let heading = match f.destination {
        Some(d) => d.0 == tp.0 && d.1 == tp.1,
        None => false,
    };
    let chase = f.has_movement && !heading;
    let keep = match f.destination {
        Some(d) => f.attack_move && f.waypoints.len() == 0 && !(d.0 == tp.0 && d.1 == tp.1),
        None => false,
    };
    let position = f.position;
    let stats = f.stats;
    let destination = f.destination;
    let mut result = if chase {
        let waypoints = if keep {
            let mut w: Vec<(u16, u16)> = Vec::new();
            w.push(destination.unwrap());
            w
        } else {
            f.waypoints
        };
        CombatResult { attack: Some(a1), destination: Some(tp), waypoints, path_reset: true, hit: None }
    } else {
        CombatResult { attack: Some(a1), destination, waypoints: f.waypoints, path_reset: false, hit: None }
    };
    proof {
        if chase && keep {
            assert(result.waypoints@ =~= seq![f0.destination.unwrap()]);
        }
    }
    if a.cooldown > 0 {
        result.attack = Some(AttackState { cooldown: a.cooldown - 1, ..a1 });
        return result;
    }
    let (p, st, armor) = match (position, stats, es[ti].armor_index) {
        (Some(p), Some(st), Some(armor)) => (p, st, armor),
        _ => {
            return result;
        },
    };
    if manhattan(p.0, p.1, tp.0, tp.1) <= st.range {
        let pct = st.verses[armor];
        proof {
            assert((st.damage as int) * (pct as int) <= 0xffff_ffff * 0xffff_ffff) by (nonlinear_arith)
                requires
                    st.damage <= 0xffff_ffff,
                    pct <= 0xffff_ffff,
            ;
        }
        let dmg = #[verifier::truncate] (((st.damage as u64) * (pct as u64) / 100) as u32);
        result.attack = Some(AttackState { cooldown: st.cooldown_max, ..a1 });
        result.hit = Some((ti, dmg));
    }
    result
}


/// Entity `e` may be fought by a unit of house `owner` standing on `p` with
/// range `range`: another living unit, infantry, aircraft or building of
/// another house, within range (Manhattan).
pub open spec fn hostile_in_range(e: FieldEntity, from: u64, owner: Seq<char>, p: (u16, u16), range: u32) -> bool {
    &&& e.id != from
    &&& e.alive
    &&& e.kind matches Some(k) && (mobile(k) || k == EntityKind::Structure)
    &&& e.owner matches Some(o) && o@ != owner
    &&& e.position matches Some(q) && manhattan_dist(p.0, p.1, q.0, q.1) <= range
}

/// Distance from `p` to the position of `e`.
pub open spec fn dist_to(e: FieldEntity, p: (u16, u16)) -> int {
    manhattan_dist(p.0, p.1, e.position.unwrap().0, e.position.unwrap().1)
}

/// Entity `k` is the nearest hostile: a hostile in range, no farther than
/// any other, and the first of the nearest in entity order.
pub open spec fn nearest_hostile_is(es: Seq<FieldEntity>, from: u64, owner: Seq<char>, p: (u16, u16), range: u32, k: int) -> bool {
    &&& 0 <= k < es.len()
    &&& hostile_in_range(es[k], from, owner, p, range)
    &&& forall|j: int|
        0 <= j < es.len() && #[trigger] hostile_in_range(es[j], from, owner, p, range) ==> dist_to(es[k], p) <= dist_to(es[j], p)
    &&& forall|j: int|
        0 <= j < k && #[trigger] hostile_in_range(es[j], from, owner, p, range) ==> dist_to(es[k], p) < dist_to(es[j], p)
}

/// What the search reads of the searching unit: found, alive, owned and
/// placed (else there is no search).
pub open spec fn searcher(es: Seq<FieldEntity>, from: u64) -> Option<(Seq<char>, (u16, u16))> {
    match field_index(es, from) {
        Some(i) => if es[i].alive && es[i].owner is Some && es[i].position is Some {
            Some((es[i].owner.unwrap()@, es[i].position.unwrap()))
        } else {
            None
        },
        None => None,
    }
}

/// The nearest living hostile unit or building within `range` of unit
/// `from` (first in entity order among the nearest); none with a zero range
/// or when `from` is dead, unowned or unplaced.
pub fn nearest_hostile_in_range(es: &[FieldEntity], from: u64, range: u32) -> (r: Option<u64>)
    ensures
        range == 0 || searcher(es@, from) is None ==> r is None,
        range > 0 ==> match searcher(es@, from) {
            Some((own, pos)) => match r {
                Some(id) => exists|k: int| #[trigger] nearest_hostile_is(es@, from, own, pos, range, k) && es@[k].id == id,
                None => forall|j: int| 0 <= j < es@.len() ==> !#[trigger] hostile_in_range(es@[j], from, own, pos, range),
            },
            None => true,
        },
{
    if range == 0 {
        return None;
    }
    let i = match find_field_entity(es, from) {
        Some(i) => i,
        None => {
            return None;
        },
    };
    let me = &es[i];
    if !me.alive {
        return None;
    }
    let (owner, p) = match (&me.owner, me.position) {
        (Some(o), Some(p)) => (o.as_str(), p),
        _ => {
            return None;
        },
    };
    let ghost ow = owner@;
    assert(searcher(es@, from) == Some((ow, p)));
    let mut best: Option<(usize, u32)> = None;
    let mut j: usize = 0;
    while j < es.len()
        invariant
            j <= es@.len(),
            ow == owner@,
            searcher(es@, from) == Some((ow, p)),
            match best {
                None => forall|m: int| 0 <= m < j ==> !#[trigger] hostile_in_range(es@[m], from, ow, p, range),
                Some((k, d)) => {
                    &&& k < j
                    &&& hostile_in_range(es@[k as int], from, ow, p, range)
                    &&& d == dist_to(es@[k as int], p)
                    &&& forall|m: int|
                        0 <= m < j && #[trigger] hostile_in_range(es@[m], from, ow, p, range) ==> d <= dist_to(es@[m], p)
                    &&& forall|m: int|
                        0 <= m < k && #[trigger] hostile_in_range(es@[m], from, ow, p, range) ==> d < dist_to(es@[m], p)
                },
            },
        decreases es@.len() - j,
    {
        let e = &es[j];
        let kind_ok = match e.kind {
            Some(k) => crate::entities::is_mobile(k) || k == EntityKind::Structure,
            None => false,
        };
        let rival = match &e.owner {
            Some(o) => !crate::text::same_text(o.as_str(), owner),
            None => false,
        };
        if e.id != from && e.alive && kind_ok && rival {
            match e.position {
                Some(q) => {
                    let d = manhattan(p.0, p.1, q.0, q.1);
                    if d <= range {
                        let better = match best {
                            None => true,
                            Some((_, bd)) => d < bd,
                        };
                        if better {
                            best = Some((j, d));
                        }
                    }
                },
                None => {},
            }
        }
        j = j + 1;
    }
    match best {
        Some((k, _)) => {
            let id = es[k].id;
            proof {
                let sr = searcher(es@, from);
                assert(sr.unwrap().0 == ow && sr.unwrap().1 == p);
                assert(nearest_hostile_is(es@, from, sr.unwrap().0, sr.unwrap().1, range, k as int));
            }
            Some(id)
        },
        None => None,
    }
}


/// A shot lands only where it may: on a living entity other than the
/// shooter, within the shooter's range, from a shooter that is free (not
/// capturing or infiltrating) and cooled down; and it starts a new cooldown.
pub proof fn law_shots_land_in_range(f: Fighter, es: Seq<FieldEntity>, nearest: Option<u64>)
    requires
        es.len() <= usize::MAX,
    ensures
        combat_outcome(f, es, nearest).hit matches Some((ti, _)) ==> {
            &&& 0 <= ti < es.len()
            &&& es[ti as int].alive
            &&& ti != f.index
            &&& f.attack matches Some(a) && a.cooldown == 0 && !a.infiltrating && !a.capturing
            &&& f.stats is Some && f.position is Some && es[ti as int].position is Some
            &&& manhattan_dist(
                f.position.unwrap().0,
                f.position.unwrap().1,
                es[ti as int].position.unwrap().0,
                es[ti as int].position.unwrap().1,
            ) <= f.stats.unwrap().range
            &&& combat_outcome(f, es, nearest).attack == Some(
                AttackState { cooldown: f.stats.unwrap().cooldown_max, ..combat_outcome(f, es, nearest).attack.unwrap() },
            )
        },
{
    if let Some(t) = match f.attack {
        Some(a) => match a.target {
            Some(t) => Some(t),
            None => if f.attack_move {
                nearest
            } else {
                None
            },
        },
        None => None,
    } {
        lemma_field_index_bound(es, t);
    }
}

proof fn lemma_field_index_bound(es: Seq<FieldEntity>, id: u64)
    ensures
        field_index(es, id) matches Some(i) ==> 0 <= i < es.len() && es[i].id == id,
    decreases es.len(),
{
    if es.len() > 0 {
        lemma_field_index_bound(es.drop_last(), id);
    }
}

/// An engineer takes a building over only when it is a living, capturable
/// building of another house within one cell of it.
pub proof fn law_capture_needs_adjacent_enemy_building(u: OrderedUnit, es: Seq<FieldEntity>, building: u64)
    ensures
        capture_outcome(u, es, building) == ApproachOutcome::Arrive ==> (field_index(es, building) matches Some(i) && {
            let t = es[i];
            &&& t.alive
            &&& t.kind == Some(EntityKind::Structure)
            &&& t.capturable
            &&& u.owner is Some && t.owner is Some && u.owner.unwrap()@ != t.owner.unwrap()@
            &&& u.position is Some && t.position is Some
            &&& manhattan_dist(u.position.unwrap().0, u.position.unwrap().1, t.position.unwrap().0, t.position.unwrap().1) <= 1
        }),
{
}

/// Chasing a target leaves the unit's route alone: a unit that still has a
/// target after its step keeps the waypoints it had; only a unit on an
/// attack-move with none yet may gain one, its old destination, to resume
/// after the fight. When it is sent off anew it is sent to its target's cell.
pub proof fn law_chasing_keeps_the_route(f: Fighter, es: Seq<FieldEntity>, nearest: Option<u64>)
    ensures
        ({
            let r = combat_outcome(f, es, nearest);
            r.attack matches Some(a) && a.target is Some ==> {
                &&& f.waypoints@.len() > 0 ==> r.waypoints == f.waypoints@
                &&& f.waypoints@.len() == 0 ==> r.waypoints == f.waypoints@ || (f.attack_move
                    && f.destination is Some && r.waypoints == seq![f.destination.unwrap()])
                &&& r.path_reset ==> (field_index(es, r.attack.unwrap().target.unwrap()) matches Some(ti) && es[ti].position
                    == r.destination && r.destination is Some)
            }
        }),
{
}

/// A shot lands only on the unit's own target, alive, not itself, within
/// range of the shooter, by a unit that had cooled down; the shot restarts
/// its cooldown and deals its damage scaled against the target's armor.
pub proof fn law_shots_hit_the_target_in_range(f: Fighter, es: Seq<FieldEntity>, nearest: Option<u64>)
    requires
        es.len() <= usize::MAX,
    ensures
        ({
            let r = combat_outcome(f, es, nearest);
            r.hit matches Some(h) ==> {
                &&& r.attack matches Some(a) && a.target matches Some(t) && field_index(es, t) == Some(h.0 as int)
                &&& es[h.0 as int].alive && h.0 != f.index
                &&& f.attack matches Some(a0) && a0.cooldown == 0
                &&& f.stats matches Some(st) && f.position matches Some(p) && es[h.0 as int].position matches Some(tp)
                    && manhattan_dist(p.0, p.1, tp.0, tp.1) <= st.range
                    && r.attack.unwrap().cooldown == st.cooldown_max
                    && h.1 == scaled_damage(st.damage, st.verses@[es[h.0 as int].armor_index.unwrap() as int])
            }
        }),
{
    if let Some(a) = f.attack {
        if let Some(t) = a.target {
            lemma_field_index_bound(es, t);
        }
    }
    if let Some(t) = nearest {
        lemma_field_index_bound(es, t);
    }
}

/// A unit that fights a living target other than itself, whose cell is
/// known: while cooling down it counts down by one and holds fire; cooled
/// down, with stats, a position and the target's armor known, it fires
/// exactly when the target is within range, and a shot restarts its
/// cooldown.
pub proof fn law_cooldown_and_range_decide_the_shot(f: Fighter, es: Seq<FieldEntity>, nearest: Option<u64>, t: u64)
    requires
        es.len() <= usize::MAX,
        f.alive && f.mobile && f.has_owner,
        f.attack matches Some(a0) && !a0.infiltrating && !a0.capturing && a0.target == Some(t),
        field_index(es, t) matches Some(ti) && es[ti].alive && ti != f.index && es[ti].position is Some,
    ensures
        ({
            let r = combat_outcome(f, es, nearest);
            let a0 = f.attack.unwrap();
            let ti = field_index(es, t).unwrap();
            let tp = es[ti].position.unwrap();
            &&& a0.cooldown > 0 ==> r.hit is None && r.attack == Some(AttackState { cooldown: (a0.cooldown - 1) as u32, ..a0 })
            &&& (a0.cooldown == 0 && f.stats is Some && f.position is Some && es[ti].armor_index is Some) ==> {
                let st = f.stats.unwrap();
                let p = f.position.unwrap();
                if manhattan_dist(p.0, p.1, tp.0, tp.1) <= st.range {
                    r.hit == Some((ti as usize, scaled_damage(st.damage, st.verses@[es[ti].armor_index.unwrap() as int])))
                        && r.attack == Some(AttackState { cooldown: st.cooldown_max, ..a0 })
                } else {
                    r.hit is None && r.attack == Some(a0)
                }
            }
            &&& r.attack.unwrap().target == Some(t)
        }),
{
    lemma_field_index_bound(es, t);
}

/// A target that is gone, dead or the unit itself is dropped, and nothing
/// is fired; a unit with no target and none to pick up (not on an
/// attack-move) changes nothing.
pub proof fn law_lost_targets_are_dropped(f: Fighter, es: Seq<FieldEntity>, nearest: Option<u64>, t: u64)
    requires
        f.alive && f.mobile && f.has_owner,
        f.attack matches Some(a0) && !a0.infiltrating && !a0.capturing,
    ensures
        ({
            let r = combat_outcome(f, es, nearest);
            let a0 = f.attack.unwrap();
            &&& (a0.target == Some(t) && !(field_index(es, t) matches Some(ti) && es[ti].alive && ti != f.index)) ==> r.hit
                is None && r.attack == Some(AttackState { target: None, ..a0 })
            &&& (a0.target is None && !f.attack_move) ==> r.hit is None && r.attack == f.attack && r.destination
                == f.destination && r.waypoints == f.waypoints@ && !r.path_reset
        }),
{
}

/// A unit that cannot fight (dead, not mobile, without owner, or busy
/// infiltrating or capturing) changes nothing and fires nothing.
pub proof fn law_units_that_cannot_fight_change_nothing(f: Fighter, es: Seq<FieldEntity>, nearest: Option<u64>)
    requires
        !f.alive || !f.mobile || !f.has_owner || f.attack is None || f.attack.unwrap().infiltrating
            || f.attack.unwrap().capturing,
    ensures
        ({
            let r = combat_outcome(f, es, nearest);
            r.hit is None && r.attack == f.attack && r.destination == f.destination && r.waypoints == f.waypoints@
                && !r.path_reset
        }),
{
}

/// On an attack-move a unit without a target takes the nearest hostile
/// offered, when it is a living entity other than itself; with none
/// offered it changes nothing. A unit that has a target keeps attacking it
/// and ignores the one offered.
pub proof fn law_attack_move_picks_up_the_nearest(f: Fighter, es: Seq<FieldEntity>, nearest: Option<u64>)
    requires
        f.alive && f.mobile && f.has_owner,
        f.attack matches Some(a0) && !a0.infiltrating && !a0.capturing,
    ensures
        ({
            let r = combat_outcome(f, es, nearest);
            let a0 = f.attack.unwrap();
            &&& (a0.target is None && f.attack_move && (nearest matches Some(t) && (field_index(es, t) matches Some(ti)
                && es[ti].alive && ti != f.index))) ==> r.attack.unwrap().target == nearest
            &&& (a0.target is None && nearest is None) ==> r.hit is None && r.attack == f.attack && r.destination
                == f.destination && r.waypoints == f.waypoints@ && !r.path_reset
            &&& (a0.target matches Some(t) && (field_index(es, t) matches Some(ti) && es[ti].alive && ti != f.index))
                ==> r.attack.unwrap().target == a0.target
        }),
{
}

} // verus!
