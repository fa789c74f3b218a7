//! The lockstep state digest.

use ra_engine::commands::{CommandId, EntityId, GameCommand, InputFrame, PlayerId, ScheduledCommand, Tick};
use ra_engine::digest::{hash_command_exec, state_digest, DigestEntity, DigestPlayer, DigestState, DIGEST_PRIME};
use ra_engine::LightningStormState;

fn step(h: u64, v: u64) -> u64 {
    h.wrapping_mul(DIGEST_PRIME).wrapping_add(v)
}

fn empty_state() -> DigestState {
    DigestState {
        tick: 5,
        edition_len: 3,
        frame: InputFrame { tick: 4, commands: Vec::new() },
        entities: Vec::new(),
        players: Vec::new(),
        speak_delay_ticks: 0,
        ion_lighting: false,
        storm: None,
    }
}

fn entity() -> DigestEntity {
    DigestEntity {
        id: 7,
        x: 10,
        y: 12,
        facing: 64,
        turret_facing: 0,
        current_health: 100,
        max_health: 200,
        dead: false,
        speed: 4,
        attack_range: 5,
        attack_damage: 25,
        attack_cooldown_max: 30,
        hva_frame: 0,
        hit_flash: 0,
        attack_cooldown: 3,
        attack_target: Some(9),
        ore_trip_accum: 0,
        ore_cargo: 0,
        armor: "heavy".to_string(),
        attack_verses: vec![100, 50],
        producing: None,
        rally_x: Some(3),
        rally_y: None,
        type_id: Some("HTNK".to_string()),
        owner: None,
    }
}

#[test]
fn digest_of_an_empty_battle() {
    let mut h = step(step(5, 3), 0);
    h = step(h, 4).wrapping_add(0);
    h = step(step(h, 0), 0);
    assert_eq!(state_digest(&empty_state()), h);
}

#[test]
fn digest_folds_the_storm_and_lighting() {
    let mut s = empty_state();
    s.ion_lighting = true;
    s.speak_delay_ticks = 2;
    s.storm = Some(LightningStormState {
        target_x: 6,
        target_y: 7,
        deferment_remaining: 0,
        duration_remaining: -1,
        strike_cooldown: 0,
    });
    let mut h = step(step(5, 3), 0);
    h = step(h, 4);
    h = step(step(h, 2), 1);
    h = step(h, 1).wrapping_add(6).wrapping_add(7 << 16).wrapping_add(0).wrapping_add(-1i32 as u64);
    assert_eq!(state_digest(&s), h);
}

#[test]
fn digest_folds_commands_entities_and_players() {
    let mut s = empty_state();
    let cmd = ScheduledCommand {
        id: CommandId(11),
        player: PlayerId(1),
        tick: Tick(4),
        body: GameCommand::Guard { entity: EntityId(7) },
    };
    s.frame.commands.push(cmd);
    s.entities.push(entity());
    s.players.push(DigestPlayer {
        id: 1,
        house: "Russia".to_string(),
        funds: -5,
        funds_spent: 10,
        power_output: 100,
        power_drain: 50,
        funds_nag_ticks: 0,
        kills: 2,
        built: 3,
    });
    let mut h = step(step(5, 3), 1);
    h = step(h, 4).wrapping_add(1);
    h = step(step(step(h, 11), 1), 4);
    h = step(step(h, 10), 7);
    let e = entity();
    h = step(h, 7)
        .wrapping_add(10)
        .wrapping_add(12 << 16)
        .wrapping_add(64 << 32)
        .wrapping_add(0)
        .wrapping_add(100)
        .wrapping_add(200 << 1)
        .wrapping_add(4 << 2)
        .wrapping_add(5 << 3)
        .wrapping_add(25 << 4)
        .wrapping_add(30 << 5)
        .wrapping_add(0)
        .wrapping_add(0)
        .wrapping_add(3 << 24)
        .wrapping_add(0)
        .wrapping_add(0)
        .wrapping_add(0)
        .wrapping_add(9 << 32);
    for b in e.armor.as_bytes() {
        h = step(h, *b as u64);
    }
    for v in &e.attack_verses {
        h = step(h, *v as u64);
    }
    h = step(h, 3).wrapping_add(0);
    for b in "HTNK".as_bytes() {
        h = step(h, *b as u64);
    }
    h = step(h, 1)
        .wrapping_add(-5i32 as u64)
        .wrapping_add(10)
        .wrapping_add(100 << 16)
        .wrapping_add(50 << 32)
        .wrapping_add(0)
        .wrapping_add(2 << 8)
        .wrapping_add(3 << 16);
    for b in "Russia".as_bytes() {
        h = step(h, *b as u64);
    }
    h = step(step(h, 0), 0);
    assert_eq!(state_digest(&s), h);
}

#[test]
fn digest_tells_states_apart() {
    let mut a = empty_state();
    a.entities.push(entity());
    let mut b = empty_state();
    let mut e = entity();
    e.current_health = 99;
    b.entities.push(e);
    assert_ne!(state_digest(&a), state_digest(&b));
    let mut c = empty_state();
    c.entities.push(entity());
    assert_eq!(state_digest(&a), state_digest(&c));
}

#[test]
fn command_hash_tags_each_kind() {
    let place = GameCommand::PlaceBuilding { player: PlayerId(2), type_id: "AB".to_string(), x: 3, y: 4 };
    let mut h = step(step(0, 4), 2).wrapping_add(3 << 8).wrapping_add(4 << 24);
    h = step(step(h, b'A' as u64), b'B' as u64);
    assert_eq!(hash_command_exec(0, &place), h);
    let attack = GameCommand::Attack { attacker: EntityId(5), target: EntityId(6) };
    assert_eq!(hash_command_exec(1, &attack), step(step(1, 2), 5).wrapping_add(6 << 16));
    let path = GameCommand::MovePath { entity: EntityId(5), points: vec![(1, 2)] };
    assert_eq!(hash_command_exec(0, &path), step(step(step(0, 13), 5), 1 + (2 << 16)));
}
