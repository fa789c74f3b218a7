//! Scripted teams: the queue of team spawns (no duplicate, `Max=` kept),
//! where and in what formation a team appears, and how each team walks
//! through the steps of its `[ScriptTypes]` script.

use vstd::prelude::*;

pub use crate::team_spawn::flush_pending_team_spawns;

verus! {

/// Script action: attack the nearest enemy around a waypoint.
pub const SCRIPT_ACTION_ATTACK_WAYPOINT: i32 = 1;
/// Script action: move to a waypoint.
pub const SCRIPT_ACTION_MOVE_TO_WAYPOINT: i32 = 3;
/// Script action: deploy.
pub const SCRIPT_ACTION_DEPLOY: i32 = 6;
/// Script action: guard the area where the team stands.
pub const SCRIPT_ACTION_GUARD_AREA: i32 = 7;
/// Script action: jump to a step (0-based line).
pub const SCRIPT_ACTION_JUMP_TO_LINE: i32 = 8;
/// Search radius (cells, Manhattan) around a waypoint to attack.
pub const ATTACK_WAYPOINT_SEARCH_RADIUS: u32 = 8;

/// A queued request to create a team.
#[derive(Clone, Copy, Debug, PartialEq, Eq, Structural)]
pub struct PendingTeamSpawn {
    /// Team type id.
    pub team_id: u32,
    /// House that overrides the team's own.
    pub house_override: Option<u32>,
    /// Waypoint that overrides the team's own.
    pub waypoint_override: Option<i32>,
}

/// A spawned team still running its script.
#[derive(Clone, Debug)]
pub struct ActiveScriptTeam {
    /// Team type id.
    pub team_type_id: u32,
    /// Its members.
    pub members: Vec<u64>,
    /// Its script, if it has one.
    pub script_id: Option<u32>,
    /// Index of the next step.
    pub step_idx: usize,
}

/// One step of a script.
#[derive(Clone, Copy, Debug)]
pub struct ScriptStep {
    pub action: i32,
    pub argument: i32,
}

/// A `[ScriptTypes]` entry.
#[derive(Clone, Debug)]
pub struct ScriptType {
    pub id: u32,
    pub steps: Vec<ScriptStep>,
}

/// An order a script step gives to a team's members.
#[derive(Clone, Debug)]
pub struct ScriptOrder {
    /// One of the attack, move, deploy and guard actions.
    pub action: i32,
    /// The step's argument (a waypoint for attack and move).
    pub argument: i32,
    /// Members of the team, in order.
    pub members: Vec<u64>,
}

/// Teams of the scripted-team run time.
#[derive(Clone, Debug)]
pub struct ScriptTeamRuntime {
    pub active: Vec<ActiveScriptTeam>,
}

/// Number of entries of `active` of team type `team_type_id`.
pub open spec fn active_count(active: Seq<ActiveScriptTeam>, team_type_id: u32) -> nat
    decreases active.len(),
{
    if active.len() == 0 {
        0
    } else {
        active_count(active.drop_last(), team_type_id) + if active.last().team_type_id == team_type_id {
            1nat
        } else {
            0nat
        }
    }
}

/// Number of queued spawns of team `team_id`.
pub open spec fn pending_count(pending: Seq<PendingTeamSpawn>, team_id: u32) -> nat
    decreases pending.len(),
{
    if pending.len() == 0 {
        0
    } else {
        pending_count(pending.drop_last(), team_id) + if pending.last().team_id == team_id {
            1nat
        } else {
            0nat
        }
    }
}

proof fn lemma_active_count_le(active: Seq<ActiveScriptTeam>, t: u32)
    ensures
        active_count(active, t) <= active.len(),
    decreases active.len(),
{
    if active.len() > 0 {
        lemma_active_count_le(active.drop_last(), t);
    }
}

proof fn lemma_pending_count_le(pending: Seq<PendingTeamSpawn>, t: u32)
    ensures
        pending_count(pending, t) <= pending.len(),
    decreases pending.len(),
{
    if pending.len() > 0 {
        lemma_pending_count_le(pending.drop_last(), t);
    }
}

impl ScriptTeamRuntime {
    /// No team running.
    pub fn new() -> (rt: Self)
        ensures
            rt.active@.len() == 0,
    {
        ScriptTeamRuntime { active: Vec::new() }
    }

    /// How many running teams are of team type `team_type_id` (for `Max=`).
    pub fn count_active_of_type(&self, team_type_id: u32) -> (n: usize)
        ensures
            n == active_count(self.active@, team_type_id),
    {
        let mut n: usize = 0;
        let mut i: usize = 0;
        while i < self.active.len()
            invariant
                i <= self.active@.len(),
                n == active_count(self.active@.take(i as int), team_type_id),
            decreases self.active@.len() - i,
        {
            proof {
                assert(self.active@.take(i + 1).drop_last() =~= self.active@.take(i as int));
                lemma_active_count_le(self.active@.take(i as int), team_type_id);
            }
            if self.active[i].team_type_id == team_type_id {
                n = n + 1;
            }
            i = i + 1;
        }
        assert(self.active@.take(i as int) =~= self.active@);
        n
    }

    /// Registers a freshly spawned team at its first step; a team with no
    /// member is not registered.
    pub fn add_team(&mut self, team_type_id: u32, members: Vec<u64>, script_id: Option<u32>)
        ensures
            members@.len() == 0 ==> final(self).active@ == old(self).active@,
            members@.len() > 0 ==> final(self).active@ == old(self).active@.push(
                ActiveScriptTeam { team_type_id, members, script_id, step_idx: 0 },
            ),
    {
        if members.len() > 0 {
            self.active.push(ActiveScriptTeam { team_type_id, members, script_id, step_idx: 0 });
        }
    }
}

/// Whether the same request is queued already.
pub open spec fn already_queued(pending: Seq<PendingTeamSpawn>, spawn: PendingTeamSpawn) -> bool {
    exists|i: int| 0 <= i < pending.len() && pending[i] == spawn
}

/// Whether a request may join the queue: not queued yet, and, when its team
/// type is known with a positive `Max=`, running plus queued teams of that
/// type stay below it.
pub open spec fn may_enqueue(
    pending: Seq<PendingTeamSpawn>,
    active: Seq<ActiveScriptTeam>,
    spawn: PendingTeamSpawn,
    team_max: Option<u32>,
) -> bool {
    &&& !already_queued(pending, spawn)
    &&& match team_max {
        Some(max) => max == 0 || active_count(active, spawn.team_id) + pending_count(pending, spawn.team_id)
            < max,
        None => true,
    }
}

/// Queues a team spawn unless the same request is queued or the team type's
/// `Max=` is reached (`team_max`: the team type's `Max=` when the type is
/// known). Returns whether it was queued.
pub fn try_enqueue_team_spawn(
    pending: &mut Vec<PendingTeamSpawn>,
    teams: &ScriptTeamRuntime,
    spawn: PendingTeamSpawn,
    team_max: Option<u32>,
) -> (queued: bool)
    ensures
        queued == may_enqueue(old(pending)@, teams.active@, spawn, team_max),
        queued ==> final(pending)@ == old(pending)@.push(spawn),
        !queued ==> final(pending)@ == old(pending)@,
{
    let mut i: usize = 0;
    let mut same: usize = 0;
    while i < pending.len()
        invariant
            i <= pending@.len(),
            pending@ == old(pending)@,
            forall|j: int| 0 <= j < i ==> pending@[j] != spawn,
            same == pending_count(pending@.take(i as int), spawn.team_id),
        decreases pending@.len() - i,
    {
        proof {
            assert(pending@.take(i + 1).drop_last() =~= pending@.take(i as int));
            lemma_pending_count_le(pending@.take(i as int), spawn.team_id);
        }
        let p = pending[i];
        if p == spawn {
            return false;
        }
        if p.team_id == spawn.team_id {
            same = same + 1;
        }
        i = i + 1;
    }
    assert(pending@.take(i as int) =~= pending@);
    if let Some(max) = team_max {
        if max > 0 {
            let active = teams.count_active_of_type(spawn.team_id);
            proof {
                lemma_active_count_le(teams.active@, spawn.team_id);
            }
            if active.saturating_add(same) >= max as usize {
                return false;
            }
        }
    }
    pending.push(spawn);
    true
}

/// A waypoint of the map: its `[Waypoints]` index and cell.
#[derive(Clone, Copy, Debug)]
pub struct MapWaypoint {
    pub index: i32,
    pub x: u16,
    pub y: u16,
}

/// Cell of the first waypoint with `index`, if any.
pub open spec fn waypoint_cell(wps: Seq<MapWaypoint>, index: int) -> Option<(u16, u16)>
    decreases wps.len(),
{
    if wps.len() == 0 {
        None
    } else if wps[0].index == index {
        Some((wps[0].x, wps[0].y))
    } else {
        waypoint_cell(wps.drop_first(), index)
    }
}

/// Where a team appears: the override waypoint (when not negative), else the
/// team's waypoint, when that exists; else waypoint 0; else the first
/// waypoint; else cell (1, 1).
pub open spec fn spawn_cell(wps: Seq<MapWaypoint>, team_waypoint: i32, waypoint_override: Option<i32>) -> (u16, u16) {
    let index: i32 = match waypoint_override {
        Some(n) => if n >= 0 {
            n
        } else {
            team_waypoint
        },
        None => team_waypoint,
    };
    let chosen = if index >= 0 {
        waypoint_cell(wps, index as int)
    } else {
        None
    };
    match chosen {
        Some(c) => c,
        None => match waypoint_cell(wps, 0) {
            Some(c) => c,
            None => if wps.len() > 0 {
                (wps[0].x, wps[0].y)
            } else {
                (1, 1)
            },
        },
    }
}

/// Cell of the first waypoint with `index`.
pub(crate) fn find_waypoint(wps: &[MapWaypoint], index: i32) -> (r: Option<(u16, u16)>)
    ensures
        r == waypoint_cell(wps@, index as int),
{
    let mut i: usize = 0;
    assert(wps@.skip(0) =~= wps@);
    while i < wps.len()
        invariant
            i <= wps@.len(),
            waypoint_cell(wps@, index as int) == waypoint_cell(wps@.skip(i as int), index as int),
        decreases wps@.len() - i,
    {
        proof {
            assert(wps@.skip(i as int)[0] == wps@[i as int]);
            assert(wps@.skip(i as int).drop_first() =~= wps@.skip(i + 1));
        }
        if wps[i].index == index {
            return Some((wps[i].x, wps[i].y));
        }
        i = i + 1;
    }
    assert(wps@.skip(i as int) =~= Seq::<MapWaypoint>::empty());
    None
}

/// Cell where a team appears (see [`spawn_cell`]).
pub fn team_spawn_cell(wps: &[MapWaypoint], team_waypoint: i32, waypoint_override: Option<i32>) -> (c: (u16, u16))
    ensures
        c == spawn_cell(wps@, team_waypoint, waypoint_override),
{
    let index: i32 = match waypoint_override {
        Some(n) => if n >= 0 {
            n
        } else {
            team_waypoint
        },
        None => team_waypoint,
    };
    let chosen = if index >= 0 {
        find_waypoint(wps, index)
    } else {
        None
    };
    match chosen {
        Some(c) => c,
        None => match find_waypoint(wps, 0) {
            Some(c) => c,
            None => if wps.len() > 0 {
                (wps[0].x, wps[0].y)
            } else {
                (1, 1)
            },
        },
    }
}

/// `v` kept within the cells of a `u16` map.
pub open spec fn clamp_cell(v: int) -> u16 {
    if v < 0 {
        0
    } else if v > 65535 {
        65535
    } else {
        v as u16
    }
}

/// Cell of the `n`-th member around the spawn cell: rows of three, going
/// right then down, kept on the map.
pub open spec fn formation_cell(wx: u16, wy: u16, n: nat) -> (u16, u16) {
    (clamp_cell(wx + (n % 3) as int), clamp_cell(wy + (n / 3) as int))
}

/// Cell of the `n`-th member around the spawn cell.
pub fn team_formation_cell(wx: u16, wy: u16, n: u32) -> (c: (u16, u16))
    ensures
        c == formation_cell(wx, wy, n as nat),
{
    let x = wx as u64 + (n % 3) as u64;
    let y = wy as u64 + (n / 3) as u64;
    let cx: u16 = if x > 65535 {
        65535
    } else {
        x as u16
    };
    let cy: u16 = if y > 65535 {
        65535
    } else {
        y as u16
    };
    (cx, cy)
}

/// Index of the first script with `id`.
pub open spec fn script_index(scripts: Seq<ScriptType>, id: u32) -> Option<int>
    decreases scripts.len(),
{
    if scripts.len() == 0 {
        None
    } else if scripts.last().id == id && script_index(scripts.drop_last(), id) is None {
        Some(scripts.len() - 1)
    } else {
        script_index(scripts.drop_last(), id)
    }
}

/// Whether a script action gives an order to the members.
pub open spec fn is_order_action(action: i32) -> bool {
    action == SCRIPT_ACTION_ATTACK_WAYPOINT || action == SCRIPT_ACTION_MOVE_TO_WAYPOINT || action
        == SCRIPT_ACTION_DEPLOY || action == SCRIPT_ACTION_GUARD_AREA
}

/// What one tick does to one team: its next step index, whether it leaves
/// the run time, and the order (action, argument) it gives.
///
/// A team without script stays where it is. A team whose script is unknown
/// or finished leaves. A jump sets the step (and leaves when the target is
/// past the end). Any other step moves on by one (leaving after the last);
/// attack, move, deploy and guard also give their order. A step whose action
/// is `i32::MIN` is passed over like a team without script.
pub open spec fn team_tick(scripts: Seq<ScriptType>, team: ActiveScriptTeam) -> (usize, bool, Option<(i32, i32)>) {
    match team.script_id {
        None => (team.step_idx, false, None),
        Some(sid) => match script_index(scripts, sid) {
            None => (team.step_idx, true, None),
            Some(si) => {
                let steps = scripts[si].steps@;
                if team.step_idx >= steps.len() {
                    (team.step_idx, true, None)
                } else {
                    let st = steps[team.step_idx as int];
                    if st.action == i32::MIN {
                        (team.step_idx, false, None)
                    } else if st.action == SCRIPT_ACTION_JUMP_TO_LINE {
                        let target: int = if st.argument > 0 {
                            st.argument as int
                        } else {
                            0
                        };
                        if target >= steps.len() {
                            (team.step_idx, true, None)
                        } else {
                            (target as usize, false, None)
                        }
                    } else {
                        let next: usize = if team.step_idx < usize::MAX {
                            (team.step_idx + 1) as usize
                        } else {
                            usize::MAX
                        };
                        (
                            next,
                            next >= steps.len(),
                            if is_order_action(st.action) {
                                Some((st.action, st.argument))
                            } else {
                                None
                            },
                        )
                    }
                }
            },
        },
    }
}

/// `s` with entry `i` replaced by the last one and the last dropped
/// (nothing for an index out of range).
pub open spec fn swap_removed<A>(s: Seq<A>, i: int) -> Seq<A> {
    if 0 <= i < s.len() {
        s.update(i, s.last()).drop_last()
    } else {
        s
    }
}

/// `s` after swap-removing the entries at `ix`, last index first.
pub open spec fn swap_removed_all<A>(s: Seq<A>, ix: Seq<usize>) -> Seq<A>
    decreases ix.len(),
{
    if ix.len() == 0 {
        s
    } else {
        swap_removed_all(swap_removed(s, ix.last() as int), ix.drop_last())
    }
}

/// Teams with their steps moved on by one tick.
pub open spec fn stepped(scripts: Seq<ScriptType>, active: Seq<ActiveScriptTeam>) -> Seq<ActiveScriptTeam> {
    active.map_values(|t: ActiveScriptTeam| ActiveScriptTeam { step_idx: team_tick(scripts, t).0, ..t })
}

/// Indices (increasing) of the teams among the first `n` that leave.
pub open spec fn leaving(scripts: Seq<ScriptType>, active: Seq<ActiveScriptTeam>, n: nat) -> Seq<usize>
    decreases n,
{
    if n == 0 {
        Seq::empty()
    } else {
        let rest = leaving(scripts, active, (n - 1) as nat);
        if team_tick(scripts, active[n - 1]).1 {
            rest.push((n - 1) as usize)
        } else {
            rest
        }
    }
}

/// Orders given by the first `n` teams, in team order: action, argument and
/// members.
pub open spec fn orders_of(scripts: Seq<ScriptType>, active: Seq<ActiveScriptTeam>, n: nat) -> Seq<(i32, i32, Seq<u64>)>
    decreases n,
{
    if n == 0 {
        Seq::empty()
    } else {
        let rest = orders_of(scripts, active, (n - 1) as nat);
        match team_tick(scripts, active[n - 1]).2 {
            Some((a, g)) => rest.push((a, g, active[n - 1].members@)),
            None => rest,
        }
    }
}

/// View of an order.
pub open spec fn order_view(o: ScriptOrder) -> (i32, i32, Seq<u64>) {
    (o.action, o.argument, o.members@)
}

/// Index of the first script with `id`.
fn find_script(scripts: &[ScriptType], id: u32) -> (r: Option<usize>)
    ensures
        match r {
            Some(i) => script_index(scripts@, id) == Some(i as int) && i < scripts@.len(),
            None => script_index(scripts@, id) is None,
        },
{
    let mut i: usize = 0;
    while i < scripts.len()
        invariant
            i <= scripts@.len(),
            script_index(scripts@.take(i as int), id) is None,
            forall|j: int| 0 <= j < i ==> #[trigger] scripts@[j].id != id,
        decreases scripts@.len() - i,
    {
        proof {
            assert(scripts@.take(i + 1).drop_last() =~= scripts@.take(i as int));
        }
        if scripts[i].id == id {
            proof {
                lemma_script_index_prefix(scripts@, id, (i + 1) as int);
            }
            return Some(i);
        }
        i = i + 1;
    }
    assert(scripts@.take(i as int) =~= scripts@);
    None
}

/// Once a prefix holds the id, later entries do not change the first match.
proof fn lemma_script_index_prefix(scripts: Seq<ScriptType>, id: u32, k: int)
    requires
        0 < k <= scripts.len(),
        script_index(scripts.take(k), id) is Some,
    ensures
        script_index(scripts, id) == script_index(scripts.take(k), id),
    decreases scripts.len() - k,
{
    if k < scripts.len() {
        assert(scripts.take(k + 1).drop_last() =~= scripts.take(k));
        lemma_script_index_prefix(scripts, id, k + 1);
    } else {
        assert(scripts.take(k) =~= scripts);
    }
}

/// One tick of one team (see [`team_tick`]).
fn tick_team(scripts: &[ScriptType], team: &ActiveScriptTeam) -> (r: (usize, bool, Option<(i32, i32)>))
    ensures
        r == team_tick(scripts@, *team),
{
    let sid = match team.script_id {
        Some(s) => s,
        None => return (team.step_idx, false, None),
    };
    let si = match find_script(scripts, sid) {
        Some(i) => i,
        None => return (team.step_idx, true, None),
    };
    let steps = &scripts[si].steps;
    if team.step_idx >= steps.len() {
        return (team.step_idx, true, None);
    }
    let st = steps[team.step_idx];
    if st.action == i32::MIN {
        return (team.step_idx, false, None);
    }
    if st.action == SCRIPT_ACTION_JUMP_TO_LINE {
        let target: usize = if st.argument > 0 {
            st.argument as usize
        } else {
            0
        };
        if target >= steps.len() {
            return (team.step_idx, true, None);
        }
        return (target, false, None);
    }
    let next = team.step_idx.saturating_add(1);
    let order = if st.action == SCRIPT_ACTION_ATTACK_WAYPOINT || st.action == SCRIPT_ACTION_MOVE_TO_WAYPOINT
        || st.action == SCRIPT_ACTION_DEPLOY || st.action == SCRIPT_ACTION_GUARD_AREA {
        Some((st.action, st.argument))
    } else {
        None
    };
    (next, next >= steps.len(), order)
}

/// A copy of the member list.
fn copy_members(members: &Vec<u64>) -> (c: Vec<u64>)
    ensures
        c@ == members@,
{
    let mut c: Vec<u64> = Vec::new();
    let mut i: usize = 0;
    while i < members.len()
        invariant
            i <= members@.len(),
            c@ == members@.take(i as int),
        decreases members@.len() - i,
    {
        c.push(members[i]);
        i = i + 1;
        assert(c@ =~= members@.take(i as int));
    }
    assert(members@.take(i as int) =~= members@);
    c
}

impl ScriptTeamRuntime {
    /// One tick of every team's script: steps move on (see [`team_tick`]),
    /// the teams that leave are swap-removed (highest index first), and the
    /// orders of the attack, move, deploy and guard steps are returned in
    /// team order.
    pub fn advance_scripts(&mut self, scripts: &[ScriptType]) -> (orders: Vec<ScriptOrder>)
        ensures
            orders@.map_values(|o: ScriptOrder| order_view(o)) == orders_of(
                scripts@,
                old(self).active@,
                old(self).active@.len(),
            ),
            final(self).active@ == swap_removed_all(
                stepped(scripts@, old(self).active@),
                leaving(scripts@, old(self).active@, old(self).active@.len()),
            ),
    {
        let ghost start = self.active@;
        let n = self.active.len();
        let mut remove: Vec<usize> = Vec::new();
        let mut orders: Vec<ScriptOrder> = Vec::new();
        let mut i: usize = 0;
        while i < n
            invariant
                n == start.len(),
                self.active@.len() == n,
                i <= n,
                forall|j: int| 0 <= j < i ==> #[trigger] self.active@[j] == stepped(scripts@, start)[j],
                forall|j: int| i <= j < n ==> #[trigger] self.active@[j] == start[j],
                remove@ == leaving(scripts@, start, i as nat),
                orders@.map_values(|o: ScriptOrder| order_view(o)) == orders_of(scripts@, start, i as nat),
            decreases n - i,
        {
            let (next, drop, order) = tick_team(scripts, &self.active[i]);
            if let Some((a, g)) = order {
                let members = copy_members(&self.active[i].members);
                let ghost before = orders@;
                orders.push(ScriptOrder { action: a, argument: g, members });
                assert(orders@.map_values(|o: ScriptOrder| order_view(o)) =~= before.map_values(
                    |o: ScriptOrder| order_view(o),
                ).push((a, g, start[i as int].members@)));
            }
            let team = &mut self.active[i];
            team.step_idx = next;
            if drop {
                remove.push(i);
            }
            proof {
                assert(self.active@[i as int] == stepped(scripts@, start)[i as int]);
            }
            i = i + 1;
        }
        assert(self.active@ =~= stepped(scripts@, start));
        let ghost stepped_all = self.active@;
        let mut k: usize = remove.len();
        assert(remove@.take(k as int) =~= remove@);
        while k > 0
            invariant
                k <= remove@.len(),
                remove@ == leaving(scripts@, start, n as nat),
                swap_removed_all(stepped_all, remove@) == swap_removed_all(self.active@, remove@.take(k as int)),
            decreases k,
        {
            k = k - 1;
            let idx = remove[k];
            proof {
                assert(remove@.take(k + 1).drop_last() =~= remove@.take(k as int));
                assert(remove@.take(k + 1).last() == idx);
            }
            if idx < self.active.len() {
                self.active.swap_remove(idx);
            }
        }
        assert(remove@.take(0) =~= Seq::<usize>::empty());
        orders
    }
}

/// What automatic team creation reads of a team type.
#[derive(Clone, Copy, Debug)]
pub struct AutocreateTeam {
    /// Team type id.
    pub id: u32,
    /// Its `Max=` (0: no limit).
    pub max: u32,
    /// Its `Autocreate=` flag.
    pub autocreate: bool,
    /// Its house is a concrete, non-ambient house that has begun production
    /// and whose IQ allows production.
    pub house_ready: bool,
}

/// Request for an automatic team: the team's own house and waypoint.
pub open spec fn auto_spawn(t: AutocreateTeam) -> PendingTeamSpawn {
    PendingTeamSpawn { team_id: t.id, house_override: None, waypoint_override: None }
}

/// Queue after automatic creation has looked at `teams`, in order.
pub open spec fn autocreated(pending: Seq<PendingTeamSpawn>, active: Seq<ActiveScriptTeam>, teams: Seq<AutocreateTeam>) -> Seq<
    PendingTeamSpawn,
>
    decreases teams.len(),
{
    if teams.len() == 0 {
        pending
    } else {
        let before = autocreated(pending, active, teams.drop_last());
        let t = teams.last();
        if t.autocreate && t.house_ready && may_enqueue(before, active, auto_spawn(t), Some(t.max)) {
            before.push(auto_spawn(t))
        } else {
            before
        }
    }
}

/// Queues every `Autocreate=yes` team whose house is ready, unless it is
/// queued already or at its `Max=`.
pub fn tick_autocreate_teams(pending: &mut Vec<PendingTeamSpawn>, teams_rt: &ScriptTeamRuntime, teams: &[AutocreateTeam])
    ensures
        final(pending)@ == autocreated(old(pending)@, teams_rt.active@, teams@),
{
    let mut i: usize = 0;
    while i < teams.len()
        invariant
            i <= teams@.len(),
            pending@ == autocreated(old(pending)@, teams_rt.active@, teams@.take(i as int)),
        decreases teams@.len() - i,
    {
        let t = teams[i];
        proof {
            assert(teams@.take(i + 1).drop_last() =~= teams@.take(i as int));
        }
        if t.autocreate && t.house_ready {
            let spawn = PendingTeamSpawn { team_id: t.id, house_override: None, waypoint_override: None };
            try_enqueue_team_spawn(pending, teams_rt, spawn, Some(t.max));
        }
        i = i + 1;
    }
    assert(teams@.take(i as int) =~= teams@);
}

/// Queue without the requests of team `team_id`.
pub open spec fn pending_without(pending: Seq<PendingTeamSpawn>, team_id: u32) -> Seq<PendingTeamSpawn>
    decreases pending.len(),
{
    if pending.len() == 0 {
        Seq::empty()
    } else {
        let rest = pending_without(pending.drop_first(), team_id);
        if pending[0].team_id != team_id {
            seq![pending[0]] + rest
        } else {
            rest
        }
    }
}

/// Running teams other than those of type `team_id`.
pub open spec fn teams_without(active: Seq<ActiveScriptTeam>, team_id: u32) -> Seq<ActiveScriptTeam>
    decreases active.len(),
{
    if active.len() == 0 {
        Seq::empty()
    } else {
        let rest = teams_without(active.drop_first(), team_id);
        if active[0].team_type_id != team_id {
            seq![active[0]] + rest
        } else {
            rest
        }
    }
}

/// Members of the running teams of type `team_id`, team after team.
pub open spec fn members_of_type(active: Seq<ActiveScriptTeam>, team_id: u32) -> Seq<u64>
    decreases active.len(),
{
    if active.len() == 0 {
        Seq::empty()
    } else {
        let rest = members_of_type(active.drop_first(), team_id);
        if active[0].team_type_id == team_id {
            active[0].members@ + rest
        } else {
            rest
        }
    }
}

/// Destroys team type `team_id`: drops its queued spawns and its running
/// teams; returns their members (to be killed), team after team.
pub fn destroy_team_type(pending: &mut Vec<PendingTeamSpawn>, teams_rt: &mut ScriptTeamRuntime, team_id: u32) -> (kill: Vec<u64>)
    ensures
        final(pending)@ == pending_without(old(pending)@, team_id),
        final(teams_rt).active@ == teams_without(old(teams_rt).active@, team_id),
        kill@ == members_of_type(old(teams_rt).active@, team_id),
{
    let ghost p0 = pending@;
    let mut kept: Vec<PendingTeamSpawn> = Vec::new();
    let mut i: usize = 0;
    assert(p0.skip(0) =~= p0);
    assert(kept@ + pending_without(p0, team_id) =~= pending_without(p0, team_id));
    while i < pending.len()
        invariant
            pending@ == p0,
            i <= p0.len(),
            pending_without(p0, team_id) == kept@ + pending_without(p0.skip(i as int), team_id),
        decreases p0.len() - i,
    {
        proof {
            assert(p0.skip(i as int).drop_first() =~= p0.skip(i + 1));
            assert(p0.skip(i as int)[0] == p0[i as int]);
        }
        let p = pending[i];
        if p.team_id != team_id {
            let ghost before = kept@;
            kept.push(p);
            assert(before + (seq![p] + pending_without(p0.skip(i + 1), team_id)) =~= kept@ + pending_without(
                p0.skip(i + 1),
                team_id,
            ));
        }
        i = i + 1;
    }
    assert(p0.skip(i as int) =~= Seq::<PendingTeamSpawn>::empty());
    assert(kept@ + Seq::<PendingTeamSpawn>::empty() =~= kept@);
    *pending = kept;

    let ghost a0 = teams_rt.active@;
    let mut rest_teams: Vec<ActiveScriptTeam> = Vec::new();
    std::mem::swap(&mut rest_teams, &mut teams_rt.active);
    let mut keep_teams: Vec<ActiveScriptTeam> = Vec::new();
    let mut kill: Vec<u64> = Vec::new();
    let ghost mut done: int = 0;
    while rest_teams.len() > 0
        invariant
            rest_teams@ == a0.skip(done),
            0 <= done <= a0.len(),
            teams_without(a0, team_id) == keep_teams@ + teams_without(rest_teams@, team_id),
            members_of_type(a0, team_id) == kill@ + members_of_type(rest_teams@, team_id),
        decreases rest_teams@.len(),
    {
        let ghost r = rest_teams@;
        let t = rest_teams.remove(0);
        proof {
            assert(r[0] == t);
            assert(rest_teams@ =~= r.drop_first());
            assert(r.drop_first() =~= a0.skip(done + 1));
            done = done + 1;
        }
        if t.team_type_id != team_id {
            let ghost before = keep_teams@;
            keep_teams.push(t);
            assert(before + (seq![r[0]] + teams_without(r.drop_first(), team_id)) =~= keep_teams@ + teams_without(
                rest_teams@,
                team_id,
            ));
        } else {
            let ghost before = kill@;
            let mut m = t.members;
            kill.append(&mut m);
            assert(before + (r[0].members@ + members_of_type(r.drop_first(), team_id)) =~= kill@ + members_of_type(
                rest_teams@,
                team_id,
            ));
        }
    }
    assert(keep_teams@ + Seq::<ActiveScriptTeam>::empty() =~= keep_teams@);
    assert(kill@ + Seq::<u64>::empty() =~= kill@);
    teams_rt.active = keep_teams;
    kill
}

/// Queuing a request never repeats one already queued and never takes a
/// team type past its `Max=`: after it, running plus queued teams of the
/// type are at most `Max=`.
pub proof fn law_enqueue_keeps_queue_sound(
    pending: Seq<PendingTeamSpawn>,
    active: Seq<ActiveScriptTeam>,
    spawn: PendingTeamSpawn,
    max: u32,
)
    requires
        pending.no_duplicates(),
        may_enqueue(pending, active, spawn, Some(max)),
    ensures
        pending.push(spawn).no_duplicates(),
        max > 0 ==> active_count(active, spawn.team_id) + pending_count(pending.push(spawn), spawn.team_id) <= max,
{
    let q = pending.push(spawn);
    assert(q.drop_last() =~= pending);
    assert forall|a: int, b: int| 0 <= a < q.len() && 0 <= b < q.len() && a != b implies q[a] != q[b] by {
        if a < pending.len() && b < pending.len() {
            assert(q[a] == pending[a]);
            assert(q[b] == pending[b]);
        } else if a == pending.len() {
            assert(q[b] == pending[b]);
        } else {
            assert(q[a] == pending[a]);
        }
    }
}

/// A scripted team that stays in the run time after a tick points at a
/// step of its script.
pub proof fn law_running_team_points_into_script(scripts: Seq<ScriptType>, team: ActiveScriptTeam)
    requires
        team.script_id is Some,
        !team_tick(scripts, team).1,
    ensures
        script_index(scripts, team.script_id->Some_0) matches Some(si) && 0 <= si < scripts.len()
            && team_tick(scripts, team).0 < scripts[si].steps@.len(),
{
    lemma_script_index_in_range(scripts, team.script_id->Some_0);
}

/// The first script with an id is one of the scripts and has that id.
proof fn lemma_script_index_in_range(scripts: Seq<ScriptType>, id: u32)
    ensures
        script_index(scripts, id) matches Some(i) ==> 0 <= i < scripts.len() && scripts[i].id == id,
    decreases scripts.len(),
{
    if scripts.len() > 0 {
        lemma_script_index_in_range(scripts.drop_last(), id);
    }
}

} // verus!
