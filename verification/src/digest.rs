//! The state digest that lockstep peers compare each tick: an FNV-style fold
//! over the tick, the last input frame, every entity, every player, the
//! voice delay, the lighting and the lightning storm.

use vstd::prelude::*;
use vstd::utf8::*;

use crate::ai::roll_fold;
use crate::commands::{CommandView, GameCommand, InputFrame, ScheduledCommand, ScheduledView};
use crate::powers::LightningStormState;

verus! {

/// The FNV prime of the fold.
pub const DIGEST_PRIME: u64 = 1099511628211;

/// `a + b`, wrapping.
pub open spec fn wadd(a: u64, b: u64) -> u64 {
    vstd::wrapping::u64_specs::wrapping_add(a, b)
}

/// One fold step: `h * prime + v`, wrapping.
pub open spec fn fnv(h: u64, v: u64) -> u64 {
    wadd(vstd::wrapping::u64_specs::wrapping_mul(h, DIGEST_PRIME), v)
}

fn fnv_step(h: u64, v: u64) -> (r: u64)
    ensures
        r == fnv(h, v),
{
    h.wrapping_mul(DIGEST_PRIME).wrapping_add(v)
}

fn wrap_plus(a: u64, b: u64) -> (r: u64)
    ensures
        r == wadd(a, b),
{
    a.wrapping_add(b)
}

/// The bytes of a text folded in one by one.
pub open spec fn fold_text(h: u64, t: Seq<char>) -> u64 {
    roll_fold(h, encode_utf8(t))
}

fn fold_text_exec(h: u64, t: &str) -> (r: u64)
    ensures
        r == fold_text(h, t@),
{
    let bytes = t.as_bytes();
    let n = bytes.len();
    let mut h = h;
    let ghost h0 = h;
    let mut i: usize = 0;
    while i < n
        invariant
            n == bytes@.len(),
            bytes@ == encode_utf8(t@),
            i <= n,
            h == roll_fold(h0, bytes@.subrange(0, i as int)),
        decreases n - i,
    {
        proof {
            assert(bytes@.subrange(0, i as int + 1).drop_last() =~= bytes@.subrange(0, i as int));
        }
        h = fnv_step(h, bytes[i] as u64);
        i += 1;
    }
    assert(bytes@.subrange(0, n as int) =~= bytes@);
    h
}

/// Waypoints folded in one step each (`x` low, `y` from bit 16).
pub open spec fn fold_points(h: u64, ps: Seq<(u16, u16)>) -> u64
    decreases ps.len(),
{
    if ps.len() == 0 {
        h
    } else {
        fnv(fold_points(h, ps.drop_last()), wadd(ps.last().0 as u64, (ps.last().1 as u64) << 16))
    }
}

/// A command folded onto `h`: its tag, then its fields. Repair, waypoint
/// moves and super-weapon fire take the tags after the others, shaped as a
/// sale, a move and a placement are.
pub open spec fn hash_command(h: u64, c: CommandView) -> u64 {
    match c {
        CommandView::MoveTo { entity, x, y } => wadd(
            wadd(fnv(fnv(h, 1), entity), (x as u64) << 16),
            (y as u64) << 32,
        ),
        CommandView::Attack { attacker, target } => wadd(fnv(fnv(h, 2), attacker), target << 16),
        CommandView::Deploy { entity } => fnv(fnv(h, 3), entity),
        CommandView::PlaceBuilding { player, type_id, x, y } => fold_text(
            wadd(wadd(fnv(fnv(h, 4), player as u64), (x as u64) << 8), (y as u64) << 24),
            type_id,
        ),
        CommandView::Produce { player, type_id } => fold_text(fnv(fnv(h, 5), player as u64), type_id),
        CommandView::SetRallyPoint { factory, x, y } => wadd(
            wadd(fnv(fnv(h, 6), factory), (x as u64) << 16),
            (y as u64) << 32,
        ),
        CommandView::Infiltrate { agent, building } => wadd(fnv(fnv(h, 7), agent), building << 16),
        CommandView::CancelProduce { player, type_id } => fold_text(fnv(fnv(h, 8), player as u64), type_id),
        CommandView::CaptureBuilding { engineer, building } => wadd(fnv(fnv(h, 9), engineer), building << 16),
        CommandView::Guard { entity } => fnv(fnv(h, 10), entity),
        CommandView::SellBuilding { player, building } => wadd(fnv(fnv(h, 11), player as u64), building << 8),
        CommandView::RepairBuilding { player, building } => wadd(fnv(fnv(h, 12), player as u64), building << 8),
        CommandView::MovePath { entity, points } => fold_points(fnv(fnv(h, 13), entity), points),
        CommandView::FireSuperWeapon { player, type_id, x, y } => fold_text(
            wadd(wadd(fnv(fnv(h, 14), player as u64), (x as u64) << 8), (y as u64) << 24),
            type_id,
        ),
    }
}

fn fold_points_exec(h: u64, ps: &Vec<(u16, u16)>) -> (r: u64)
    ensures
        r == fold_points(h, ps@),
{
    let mut h = h;
    let ghost h0 = h;
    let mut i: usize = 0;
    while i < ps.len()
        invariant
            i <= ps@.len(),
            h == fold_points(h0, ps@.take(i as int)),
        decreases ps@.len() - i,
    {
        proof {
            assert(ps@.take(i + 1).drop_last() =~= ps@.take(i as int));
        }
        let (x, y) = ps[i];
        h = fnv_step(h, wrap_plus(x as u64, (y as u64) << 16));
        i += 1;
    }
    assert(ps@.take(i as int) =~= ps@);
    h
}

/// Folds command `c` onto `h` (see [`hash_command`]).
pub fn hash_command_exec(h: u64, c: &GameCommand) -> (r: u64)
    ensures
        r == hash_command(h, c@),
{
    match c {
        GameCommand::MoveTo { entity, x, y } => wrap_plus(
            wrap_plus(fnv_step(fnv_step(h, 1), entity.0), (*x as u64) << 16),
            (*y as u64) << 32,
        ),
        GameCommand::Attack { attacker, target } => wrap_plus(fnv_step(fnv_step(h, 2), attacker.0), target.0 << 16),
        GameCommand::Deploy { entity } => fnv_step(fnv_step(h, 3), entity.0),
        GameCommand::PlaceBuilding { player, type_id, x, y } => fold_text_exec(
            wrap_plus(wrap_plus(fnv_step(fnv_step(h, 4), player.0 as u64), (*x as u64) << 8), (*y as u64) << 24),
            type_id.as_str(),
        ),
        GameCommand::Produce { player, type_id } => fold_text_exec(
            fnv_step(fnv_step(h, 5), player.0 as u64),
            type_id.as_str(),
        ),
        GameCommand::SetRallyPoint { factory, x, y } => wrap_plus(
            wrap_plus(fnv_step(fnv_step(h, 6), factory.0), (*x as u64) << 16),
            (*y as u64) << 32,
        ),
        GameCommand::Infiltrate { agent, building } => wrap_plus(fnv_step(fnv_step(h, 7), agent.0), building.0 << 16),
        GameCommand::CancelProduce { player, type_id } => fold_text_exec(
            fnv_step(fnv_step(h, 8), player.0 as u64),
            type_id.as_str(),
        ),
        GameCommand::CaptureBuilding { engineer, building } => wrap_plus(
            fnv_step(fnv_step(h, 9), engineer.0),
            building.0 << 16,
        ),
        GameCommand::Guard { entity } => fnv_step(fnv_step(h, 10), entity.0),
        GameCommand::SellBuilding { player, building } => wrap_plus(
            fnv_step(fnv_step(h, 11), player.0 as u64),
            building.0 << 8,
        ),
        GameCommand::RepairBuilding { player, building } => wrap_plus(
            fnv_step(fnv_step(h, 12), player.0 as u64),
            building.0 << 8,
        ),
        GameCommand::MovePath { entity, points } => fold_points_exec(fnv_step(fnv_step(h, 13), entity.0), points),
        GameCommand::FireSuperWeapon { player, type_id, x, y } => fold_text_exec(
            wrap_plus(wrap_plus(fnv_step(fnv_step(h, 14), player.0 as u64), (*x as u64) << 8), (*y as u64) << 24),
            type_id.as_str(),
        ),
    }
}

/// A scheduled command folded onto `h`: id, player, tick, then the body.
pub open spec fn hash_scheduled(h: u64, c: ScheduledView) -> u64 {
    hash_command(fnv(fnv(fnv(h, c.id), c.player as u64), c.tick), c.body)
}

/// Folds scheduled command `c` onto `h` (see [`hash_scheduled`]).
pub fn hash_scheduled_exec(h: u64, c: &ScheduledCommand) -> (r: u64)
    ensures
        r == hash_scheduled(h, c@),
{
    hash_command_exec(fnv_step(fnv_step(fnv_step(h, c.id.0), c.player.0 as u64), c.tick.0), &c.body)
}

/// What the digest reads of an entity (absent components read as zero or
/// nothing).
pub struct DigestEntity {
    pub id: u64,
    pub x: u16,
    pub y: u16,
    pub facing: u8,
    pub turret_facing: u8,
    pub current_health: u32,
    pub max_health: u32,
    pub dead: bool,
    pub speed: u32,
    pub attack_range: u32,
    pub attack_damage: u32,
    pub attack_cooldown_max: u32,
    pub hva_frame: u32,
    pub hit_flash: u32,
    pub attack_cooldown: u32,
    pub attack_target: Option<u64>,
    pub ore_trip_accum: u32,
    pub ore_cargo: u32,
    pub armor: String,
    /// Damage percentages against each armor class.
    pub attack_verses: Vec<u32>,
    /// The type in production and its remaining ticks.
    pub producing: Option<(String, u32)>,
    pub rally_x: Option<u16>,
    pub rally_y: Option<u16>,
    pub type_id: Option<String>,
    pub owner: Option<String>,
}

/// What the digest reads of a player.
pub struct DigestPlayer {
    pub id: u8,
    pub house: String,
    pub funds: i32,
    pub funds_spent: i32,
    pub power_output: i32,
    pub power_drain: i32,
    pub funds_nag_ticks: u32,
    pub kills: u32,
    pub built: u32,
}

/// Everything the digest reads of a battle.
pub struct DigestState {
    pub tick: u64,
    /// Length in bytes of the rules edition's name.
    pub edition_len: u64,
    pub frame: InputFrame,
    pub entities: Vec<DigestEntity>,
    pub players: Vec<DigestPlayer>,
    pub speak_delay_ticks: u32,
    /// Whether the map is lit for the ion storm.
    pub ion_lighting: bool,
    pub storm: Option<LightningStormState>,
}

/// The frame's commands folded in order.
pub open spec fn fold_commands(h: u64, cs: Seq<ScheduledView>) -> u64
    decreases cs.len(),
{
    if cs.len() == 0 {
        h
    } else {
        hash_scheduled(fold_commands(h, cs.drop_last()), cs.last())
    }
}

/// Values folded in one step each.
pub open spec fn fold_values(h: u64, vs: Seq<u32>) -> u64
    decreases vs.len(),
{
    if vs.len() == 0 {
        h
    } else {
        fnv(fold_values(h, vs.drop_last()), vs.last() as u64)
    }
}

/// The one step that folds an entity's numbers.
pub open spec fn entity_numbers(h: u64, e: DigestEntity) -> u64 {
    let target = match e.attack_target {
        Some(t) => t,
        None => 0,
    };
    let a = wadd(wadd(wadd(fnv(h, e.id), e.x as u64), (e.y as u64) << 16), (e.facing as u64) << 32);
    let b = wadd(wadd(wadd(a, (e.turret_facing as u64) << 40), e.current_health as u64), (e.max_health as u64) << 1);
    let c = wadd(wadd(wadd(b, (e.speed as u64) << 2), (e.attack_range as u64) << 3), (e.attack_damage as u64) << 4);
    let d = wadd(wadd(wadd(c, (e.attack_cooldown_max as u64) << 5), if e.dead { 1 } else { 0 }), (e.hva_frame as u64) << 8);
    let f = wadd(wadd(wadd(d, (e.attack_cooldown as u64) << 24), (e.ore_trip_accum as u64) << 8), (e.ore_cargo as u64) << 12);
    wadd(wadd(f, (e.hit_flash as u64) << 16), target << 32)
}

/// An entity folded onto `h`: its numbers, armor, verses, production, rally
/// point, type and owner.
pub open spec fn hash_entity(h: u64, e: DigestEntity) -> u64 {
    let h1 = fold_values(fold_text(entity_numbers(h, e), e.armor@), e.attack_verses@);
    let h2 = match e.producing {
        Some((k, rem)) => fold_text(fnv(h1, rem as u64), k@),
        None => h1,
    };
    let rx: u64 = match e.rally_x {
        Some(x) => x as u64,
        None => 0,
    };
    let ry: u64 = match e.rally_y {
        Some(y) => (y as u64) << 16,
        None => 0,
    };
    let h3 = wadd(fnv(h2, rx), ry);
    let h4 = match e.type_id {
        Some(t) => fold_text(h3, t@),
        None => h3,
    };
    match e.owner {
        Some(o) => fold_text(h4, o@),
        None => h4,
    }
}

/// The entities folded in order.
pub open spec fn fold_entities(h: u64, es: Seq<DigestEntity>) -> u64
    decreases es.len(),
{
    if es.len() == 0 {
        h
    } else {
        hash_entity(fold_entities(h, es.drop_last()), es.last())
    }
}

/// A player folded onto `h`.
pub open spec fn hash_player(h: u64, p: DigestPlayer) -> u64 {
    let a = wadd(wadd(wadd(fnv(h, p.id as u64), p.funds as u64), p.funds_spent as u64), (p.power_output as u64) << 16);
    let b = wadd(wadd(wadd(a, (p.power_drain as u64) << 32), p.funds_nag_ticks as u64), (p.kills as u64) << 8);
    fold_text(wadd(b, (p.built as u64) << 16), p.house@)
}

/// The players folded in order.
pub open spec fn fold_players(h: u64, ps: Seq<DigestPlayer>) -> u64
    decreases ps.len(),
{
    if ps.len() == 0 {
        h
    } else {
        hash_player(fold_players(h, ps.drop_last()), ps.last())
    }
}

/// The digest of a battle.
pub open spec fn digest(s: DigestState) -> u64 {
    let frame_cmds = s.frame.commands@.map_values(|c: ScheduledCommand| c@);
    let h0 = fnv(fnv(s.tick, s.edition_len), s.entities@.len() as u64);
    let h1 = wadd(fnv(h0, s.frame.tick), s.frame.commands@.len() as u64);
    let h2 = fold_players(fold_entities(fold_commands(h1, frame_cmds), s.entities@), s.players@);
    let h3 = fnv(fnv(h2, s.speak_delay_ticks as u64), if s.ion_lighting { 1 } else { 0 });
    match s.storm {
        Some(st) => wadd(
            wadd(
                wadd(wadd(fnv(h3, 1), st.target_x as u64), (st.target_y as u64) << 16),
                (st.deferment_remaining as u64) << 32,
            ),
            st.duration_remaining as u64,
        ),
        None => h3,
    }
}

fn entity_numbers_exec(h: u64, e: &DigestEntity) -> (r: u64)
    ensures
        r == entity_numbers(h, *e),
{
    let target: u64 = match e.attack_target {
        Some(t) => t,
        None => 0,
    };
    let a = wrap_plus(wrap_plus(wrap_plus(fnv_step(h, e.id), e.x as u64), (e.y as u64) << 16), (e.facing as u64) << 32);
    let b = wrap_plus(wrap_plus(wrap_plus(a, (e.turret_facing as u64) << 40), e.current_health as u64), (e.max_health as u64) << 1);
    let c = wrap_plus(wrap_plus(wrap_plus(b, (e.speed as u64) << 2), (e.attack_range as u64) << 3), (e.attack_damage as u64) << 4);
    let dead: u64 = if e.dead { 1 } else { 0 };
    let d = wrap_plus(wrap_plus(wrap_plus(c, (e.attack_cooldown_max as u64) << 5), dead), (e.hva_frame as u64) << 8);
    let f = wrap_plus(wrap_plus(wrap_plus(d, (e.attack_cooldown as u64) << 24), (e.ore_trip_accum as u64) << 8), (e.ore_cargo as u64) << 12);
    wrap_plus(wrap_plus(f, (e.hit_flash as u64) << 16), target << 32)
}

fn fold_values_exec(h: u64, vs: &Vec<u32>) -> (r: u64)
    ensures
        r == fold_values(h, vs@),
{
    let mut h = h;
    let ghost h0 = h;
    let mut i: usize = 0;
    while i < vs.len()
        invariant
            i <= vs@.len(),
            h == fold_values(h0, vs@.take(i as int)),
        decreases vs@.len() - i,
    {
        proof {
            assert(vs@.take(i + 1).drop_last() =~= vs@.take(i as int));
        }
        h = fnv_step(h, vs[i] as u64);
        i += 1;
    }
    assert(vs@.take(i as int) =~= vs@);
    h
}

fn hash_entity_exec(h: u64, e: &DigestEntity) -> (r: u64)
    ensures
        r == hash_entity(h, *e),
{
    let h1 = fold_values_exec(fold_text_exec(entity_numbers_exec(h, e), e.armor.as_str()), &e.attack_verses);
    let h2 = match &e.producing {
        Some((k, rem)) => fold_text_exec(fnv_step(h1, *rem as u64), k.as_str()),
        None => h1,
    };
    let rx: u64 = match e.rally_x {
        Some(x) => x as u64,
        None => 0,
    };
    let ry: u64 = match e.rally_y {
        Some(y) => (y as u64) << 16,
        None => 0,
    };
    let h3 = wrap_plus(fnv_step(h2, rx), ry);
    let h4 = match &e.type_id {
        Some(t) => fold_text_exec(h3, t.as_str()),
        None => h3,
    };
    match &e.owner {
        Some(o) => fold_text_exec(h4, o.as_str()),
        None => h4,
    }
}

fn hash_player_exec(h: u64, p: &DigestPlayer) -> (r: u64)
    ensures
        r == hash_player(h, *p),
{
    let a = wrap_plus(
        wrap_plus(wrap_plus(fnv_step(h, p.id as u64), p.funds as u64), p.funds_spent as u64),
        (p.power_output as u64) << 16,
    );
    let b = wrap_plus(wrap_plus(wrap_plus(a, (p.power_drain as u64) << 32), p.funds_nag_ticks as u64), (p.kills as u64) << 8);
    fold_text_exec(wrap_plus(b, (p.built as u64) << 16), p.house.as_str())
}

/// The digest of battle `s` (see [`digest`]).
pub fn state_digest(s: &DigestState) -> (h: u64)
    ensures
        h == digest(*s),
{
    let ghost cs = s.frame.commands@.map_values(|c: ScheduledCommand| c@);
    let h0 = fnv_step(fnv_step(s.tick, s.edition_len), s.entities.len() as u64);
    let h1 = wrap_plus(fnv_step(h0, s.frame.tick), s.frame.commands.len() as u64);
    let mut h = h1;
    let mut i: usize = 0;
    while i < s.frame.commands.len()
        invariant
            i <= s.frame.commands@.len(),
            cs == s.frame.commands@.map_values(|c: ScheduledCommand| c@),
            h == fold_commands(h1, cs.take(i as int)),
        decreases s.frame.commands@.len() - i,
    {
        proof {
            assert(cs.take(i + 1).drop_last() =~= cs.take(i as int));
        }
        h = hash_scheduled_exec(h, &s.frame.commands[i]);
        i += 1;
    }
    assert(cs.take(i as int) =~= cs);
    let hc = h;
    let mut i: usize = 0;
    while i < s.entities.len()
        invariant
            i <= s.entities@.len(),
            h == fold_entities(hc, s.entities@.take(i as int)),
        decreases s.entities@.len() - i,
    {
        proof {
            assert(s.entities@.take(i + 1).drop_last() =~= s.entities@.take(i as int));
        }
        h = hash_entity_exec(h, &s.entities[i]);
        i += 1;
    }
    assert(s.entities@.take(i as int) =~= s.entities@);
    let he = h;
    let mut i: usize = 0;
    while i < s.players.len()
        invariant
            i <= s.players@.len(),
            h == fold_players(he, s.players@.take(i as int)),
        decreases s.players@.len() - i,
    {
        proof {
            assert(s.players@.take(i + 1).drop_last() =~= s.players@.take(i as int));
        }
        h = hash_player_exec(h, &s.players[i]);
        i += 1;
    }
    assert(s.players@.take(i as int) =~= s.players@);
    let ion: u64 = if s.ion_lighting { 1 } else { 0 };
    let h3 = fnv_step(fnv_step(h, s.speak_delay_ticks as u64), ion);
    match &s.storm {
        Some(st) => wrap_plus(
            wrap_plus(
                wrap_plus(wrap_plus(fnv_step(h3, 1), st.target_x as u64), (st.target_y as u64) << 16),
                (st.deferment_remaining as u64) << 32,
            ),
            st.duration_remaining as u64,
        ),
        None => h3,
    }
}

} // verus!
