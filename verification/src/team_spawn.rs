//! Creating the teams whose spawns were queued: each team appears at its
//! waypoint, its task force's units laid out in rows of three, going right
//! then down; buildings of the force and types the rules do not know are
//! skipped, and every other entry gives at least one unit.

use vstd::prelude::*;

use crate::script_teams::{formation_cell, spawn_cell, team_spawn_cell, MapWaypoint, PendingTeamSpawn};

verus! {

/// One entry of a task force.
#[derive(Clone, Copy, Debug, PartialEq, Eq, Structural)]
pub struct ForceEntry {
    pub definition_id: u32,
    pub count: u32,
    /// The rules define the type.
    pub known: bool,
    /// The type is a building (never part of a team).
    pub building: bool,
}

/// A task force of the map.
#[derive(Clone, Debug)]
pub struct TaskForce {
    pub id: u32,
    pub entries: Vec<ForceEntry>,
}

/// What a team spawn reads of a team type.
#[derive(Clone, Copy, Debug, PartialEq, Eq, Structural)]
pub struct TeamFacts {
    pub id: u32,
    pub task_force: u32,
    /// Its house, if it names one.
    pub house: Option<u32>,
    /// Its `Waypoint=` index.
    pub waypoint: i32,
    pub script: Option<u32>,
    /// Tag its members carry.
    pub tag: Option<u32>,
}

/// Units an entry gives.
pub open spec fn entry_units(e: ForceEntry) -> nat {
    if !e.known || e.building {
        0
    } else if e.count == 0 {
        1
    } else {
        e.count as nat
    }
}

/// The first `n` units of entry `e`, numbered from `start` in the layout.
pub open spec fn entry_layout(e: ForceEntry, w: (u16, u16), start: nat, n: nat) -> Seq<(u32, u16, u16)>
    decreases n,
{
    if n == 0 {
        Seq::empty()
    } else {
        let c = formation_cell(w.0, w.1, (start + n - 1) as nat);
        entry_layout(e, w, start, (n - 1) as nat).push((e.definition_id, c.0, c.1))
    }
}

/// The units of a task force around cell `w`, in entry order, each with its
/// type and cell.
pub open spec fn layout(force: Seq<ForceEntry>, w: (u16, u16)) -> Seq<(u32, u16, u16)>
    decreases force.len(),
{
    if force.len() == 0 {
        Seq::empty()
    } else {
        let rest = layout(force.drop_last(), w);
        rest + entry_layout(force.last(), w, rest.len(), entry_units(force.last()))
    }
}

/// The units of team `team` with force `force`, placed around its spawn
/// cell (see [`spawn_cell`]).
pub open spec fn spawn_layout(team: TeamFacts, force: Seq<ForceEntry>, wps: Seq<MapWaypoint>, waypoint_override: Option<i32>) -> Seq<
    (u32, u16, u16),
> {
    layout(force, spawn_cell(wps, team.waypoint, waypoint_override))
}

/// Where each unit of a team appears (see [`spawn_layout`]); a unit whose
/// cell is taken is tried once more one cell to the right.
pub fn team_spawn_plan(team: &TeamFacts, force: &[ForceEntry], waypoints: &[MapWaypoint], waypoint_override: Option<i32>) -> (cells:
    Vec<(u32, u16, u16)>)
    requires
        force@.len() * 0x1_0000_0000 < 0x1_0000_0000_0000_0000,
    ensures
        cells@ == spawn_layout(*team, force@, waypoints@, waypoint_override),
{
    let w = team_spawn_cell(waypoints, team.waypoint, waypoint_override);
    let mut cells: Vec<(u32, u16, u16)> = Vec::new();
    let mut k: usize = 0;
    while k < force.len()
        invariant
            k <= force@.len(),
            force@.len() * 0x1_0000_0000 < 0x1_0000_0000_0000_0000,
            cells@ == layout(force@.take(k as int), w),
            cells@.len() <= k * 0x1_0000_0000,
        decreases force@.len() - k,
    {
        let e = force[k];
        proof {
            assert(force@.take(k + 1).drop_last() =~= force@.take(k as int));
            assert(force@.take(k + 1).last() == e);
        }
        let ghost before = cells@;
        assert((k + 1) * 0x1_0000_0000 == k * 0x1_0000_0000 + 0x1_0000_0000) by (nonlinear_arith);
        assert((k + 1) * 0x1_0000_0000 <= force@.len() * 0x1_0000_0000) by (nonlinear_arith)
            requires
                k < force@.len(),
        ;
        let units: u64 = if !e.known || e.building {
            0
        } else if e.count == 0 {
            1
        } else {
            e.count as u64
        };
        let start: u64 = cells.len() as u64;
        let mut c: u64 = 0;
        while c < units
            invariant
                c <= units,
                units == entry_units(e),
                start == before.len(),
                units <= 0xffff_ffff,
                start + units <= 0x1_0000_0000_0000_0000,
                cells@ == before + entry_layout(e, w, start as nat, c as nat),
            decreases units - c,
        {
            let n = start + c;
            let cell = cell_at(w, n);
            cells.push((e.definition_id, cell.0, cell.1));
            c = c + 1;
            assert(cells@ =~= before + entry_layout(e, w, start as nat, c as nat));
        }
        proof {
            lemma_entry_layout_len(e, w, start as nat, units as nat);
        }
        k = k + 1;
    }
    assert(force@.take(k as int) =~= force@);
    cells
}

proof fn lemma_entry_layout_len(e: ForceEntry, w: (u16, u16), start: nat, n: nat)
    ensures
        entry_layout(e, w, start, n).len() == n,
    decreases n,
{
    if n > 0 {
        lemma_entry_layout_len(e, w, start, (n - 1) as nat);
    }
}

fn cell_at(w: (u16, u16), n: u64) -> (c: (u16, u16))
    ensures
        c == formation_cell(w.0, w.1, n as nat),
{
    let x = w.0 as u64 + n % 3;
    let y = w.1 as u64 + n / 3;
    let cx: u16 = if x > 65535 { 65535 } else { x as u16 };
    let cy: u16 = if y > 65535 { 65535 } else { y as u16 };
    (cx, cy)
}

/// A team to create: its type, house, script and tag, and where each unit
/// appears.
pub struct TeamSpawn {
    pub team_id: u32,
    pub house: u32,
    pub script: Option<u32>,
    pub tag: Option<u32>,
    pub units: Vec<(u32, u16, u16)>,
}

/// A team spawn as plain values.
pub struct TeamSpawnView {
    pub team_id: u32,
    pub house: u32,
    pub script: Option<u32>,
    pub tag: Option<u32>,
    pub units: Seq<(u32, u16, u16)>,
}

impl View for TeamSpawn {
    type V = TeamSpawnView;

    open spec fn view(&self) -> TeamSpawnView {
        TeamSpawnView { team_id: self.team_id, house: self.house, script: self.script, tag: self.tag, units: self.units@ }
    }
}

/// Index of the first team type with `id` at or after `k`.
pub open spec fn team_from(teams: Seq<TeamFacts>, id: u32, k: int) -> Option<int>
    decreases teams.len() - k,
{
    if k < 0 || k >= teams.len() {
        None
    } else if teams[k].id == id {
        Some(k)
    } else {
        team_from(teams, id, k + 1)
    }
}

/// Index of the first task force with `id` at or after `k`.
pub open spec fn force_from(forces: Seq<TaskForce>, id: u32, k: int) -> Option<int>
    decreases forces.len() - k,
{
    if k < 0 || k >= forces.len() {
        None
    } else if forces[k].id == id {
        Some(k)
    } else {
        force_from(forces, id, k + 1)
    }
}

/// The team that request `p` creates: none when its team type or task force
/// is unknown, or when neither the request nor the team names a house the
/// rules know; the request's house overrides the team's.
pub open spec fn spawn_of(
    p: PendingTeamSpawn,
    teams: Seq<TeamFacts>,
    forces: Seq<TaskForce>,
    houses: Seq<u32>,
    wps: Seq<MapWaypoint>,
) -> Option<TeamSpawnView> {
    match team_from(teams, p.team_id, 0) {
        None => None,
        Some(ti) => {
            let t = teams[ti];
            match force_from(forces, t.task_force, 0) {
                None => None,
                Some(fi) => {
                    let house = match p.house_override {
                        Some(h) => Some(h),
                        None => t.house,
                    };
                    match house {
                        Some(h) => if houses.contains(h) {
                            Some(
                                TeamSpawnView {
                                    team_id: t.id,
                                    house: h,
                                    script: t.script,
                                    tag: t.tag,
                                    units: spawn_layout(t, forces[fi].entries@, wps, p.waypoint_override),
                                },
                            )
                        } else {
                            None
                        },
                        None => None,
                    }
                },
            }
        },
    }
}

/// The teams the requests `ps` create, in request order.
pub open spec fn spawns_of(
    ps: Seq<PendingTeamSpawn>,
    teams: Seq<TeamFacts>,
    forces: Seq<TaskForce>,
    houses: Seq<u32>,
    wps: Seq<MapWaypoint>,
) -> Seq<TeamSpawnView>
    decreases ps.len(),
{
    if ps.len() == 0 {
        Seq::empty()
    } else {
        let rest = spawns_of(ps.drop_last(), teams, forces, houses, wps);
        match spawn_of(ps.last(), teams, forces, houses, wps) {
            Some(s) => rest.push(s),
            None => rest,
        }
    }
}

/// The spawns as plain values.
pub open spec fn spawn_views(s: Seq<TeamSpawn>) -> Seq<TeamSpawnView> {
    s.map_values(|t: TeamSpawn| t@)
}

fn find_team(teams: &[TeamFacts], id: u32) -> (r: Option<usize>)
    ensures
        match r {
            Some(i) => team_from(teams@, id, 0) == Some(i as int) && i < teams@.len(),
            None => team_from(teams@, id, 0) is None,
        },
{
    let mut k: usize = 0;
    while k < teams.len()
        invariant
            k <= teams@.len(),
            team_from(teams@, id, 0) == team_from(teams@, id, k as int),
        decreases teams@.len() - k,
    {
        if teams[k].id == id {
            return Some(k);
        }
        k = k + 1;
    }
    None
}

fn find_force(forces: &[TaskForce], id: u32) -> (r: Option<usize>)
    ensures
        match r {
            Some(i) => force_from(forces@, id, 0) == Some(i as int) && i < forces@.len(),
            None => force_from(forces@, id, 0) is None,
        },
{
    let mut k: usize = 0;
    while k < forces.len()
        invariant
            k <= forces@.len(),
            force_from(forces@, id, 0) == force_from(forces@, id, k as int),
        decreases forces@.len() - k,
    {
        if forces[k].id == id {
            return Some(k);
        }
        k = k + 1;
    }
    None
}

fn has_house(houses: &[u32], h: u32) -> (b: bool)
    ensures
        b == houses@.contains(h),
{
    let mut k: usize = 0;
    while k < houses.len()
        invariant
            k <= houses@.len(),
            forall|j: int| 0 <= j < k ==> houses@[j] != h,
        decreases houses@.len() - k,
    {
        if houses[k] == h {
            assert(houses@[k as int] == h);
            return true;
        }
        k = k + 1;
    }
    false
}

/// Takes the queued team spawns, leaving the queue empty, and gives the
/// teams they create (see [`spawns_of`]): the caller spawns each unit at its
/// cell (or one cell to the right when that is taken), gives it the team's
/// tag, and registers the team with the units that appeared.
pub fn flush_pending_team_spawns(
    pending: &mut Vec<PendingTeamSpawn>,
    teams: &[TeamFacts],
    forces: &[TaskForce],
    houses: &[u32],
    waypoints: &[MapWaypoint],
) -> (spawns: Vec<TeamSpawn>)
    requires
        forall|i: int| 0 <= i < forces@.len() ==> (#[trigger] forces@[i]).entries@.len() < 0x1_0000_0000,
    ensures
        final(pending)@.len() == 0,
        spawn_views(spawns@) == spawns_of(old(pending)@, teams@, forces@, houses@, waypoints@),
{
    let mut taken: Vec<PendingTeamSpawn> = Vec::new();
    std::mem::swap(&mut taken, pending);
    let mut out: Vec<TeamSpawn> = Vec::new();
    let mut k: usize = 0;
    while k < taken.len()
        invariant
            k <= taken@.len(),
            pending@.len() == 0,
            forall|i: int| 0 <= i < forces@.len() ==> (#[trigger] forces@[i]).entries@.len() < 0x1_0000_0000,
            spawn_views(out@) == spawns_of(taken@.take(k as int), teams@, forces@, houses@, waypoints@),
        decreases taken@.len() - k,
    {
        let p = taken[k];
        proof {
            assert(taken@.take(k + 1).drop_last() =~= taken@.take(k as int));
            assert(taken@.take(k + 1).last() == p);
        }
        let ghost before = spawn_views(out@);
        if let Some(ti) = find_team(teams, p.team_id) {
            let t = teams[ti];
            if let Some(fi) = find_force(forces, t.task_force) {
                let house = match p.house_override {
                    Some(h) => Some(h),
                    None => t.house,
                };
                if let Some(h) = house {
                    if has_house(houses, h) {
                        let f = &forces[fi];
                        assert(f.entries@.len() < 0x1_0000_0000);
                        assert(f.entries@.len() * 0x1_0000_0000 < 0x1_0000_0000_0000_0000) by (nonlinear_arith)
                            requires
                                f.entries@.len() < 0x1_0000_0000,
                        ;
                        let units = team_spawn_plan(&t, f.entries.as_slice(), waypoints, p.waypoint_override);
                        let s = TeamSpawn { team_id: t.id, house: h, script: t.script, tag: t.tag, units };
                        let ghost sv = s@;
                        out.push(s);
                        assert(spawn_views(out@) =~= before.push(sv));
                    }
                }
            }
        }
        k = k + 1;
    }
    assert(taken@.take(k as int) =~= taken@);
    out
}

} // verus!
