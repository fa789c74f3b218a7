//! Command payloads, command lists and scheduled envelopes on the wire.

use ra_engine::commands::{
    decode_command, decode_commands, decode_scheduled, encode_command, encode_commands, encode_scheduled, CommandId,
    EntityId, GameCommand, InputFrame, PlayerId, ScheduledCommand, Tick,
};

fn every_kind() -> Vec<GameCommand> {
    vec![
        GameCommand::MoveTo { entity: EntityId(0x0102_0304_0506_0708), x: 300, y: 7 },
        GameCommand::Attack { attacker: EntityId(1), target: EntityId(u64::MAX) },
        GameCommand::Deploy { entity: EntityId(42) },
        GameCommand::PlaceBuilding { player: PlayerId(2), type_id: "POWR".to_string(), x: 10, y: 20 },
        GameCommand::Produce { player: PlayerId(1), type_id: "E1".to_string() },
        GameCommand::SetRallyPoint { factory: EntityId(5), x: 65535, y: 0 },
        GameCommand::Infiltrate { agent: EntityId(6), building: EntityId(7) },
        GameCommand::CancelProduce { player: PlayerId(3), type_id: "Ünit".to_string() },
        GameCommand::CaptureBuilding { engineer: EntityId(8), building: EntityId(9) },
        GameCommand::Guard { entity: EntityId(10) },
        GameCommand::SellBuilding { player: PlayerId(4), building: EntityId(11) },
        GameCommand::RepairBuilding { player: PlayerId(5), building: EntityId(12) },
        GameCommand::MovePath { entity: EntityId(13), points: vec![(1, 2), (3, 4), (65535, 256)] },
        GameCommand::FireSuperWeapon { player: PlayerId(6), type_id: "LSTORM".to_string(), x: 33, y: 44 },
    ]
}

#[test]
fn move_to_payload_is_big_endian() {
    let b = encode_command(&GameCommand::MoveTo { entity: EntityId(1), x: 2, y: 0x0103 });
    assert_eq!(b, vec![1, 0, 0, 0, 0, 0, 0, 0, 1, 0, 2, 1, 3]);
}

#[test]
fn type_id_payload_has_length_prefix() {
    let b = encode_command(&GameCommand::Produce { player: PlayerId(1), type_id: "E1".to_string() });
    assert_eq!(b, vec![5, 1, 0, 2, b'E', b'1']);
    let b = encode_command(&GameCommand::CancelProduce { player: PlayerId(0), type_id: "é".to_string() });
    assert_eq!(b, vec![8, 0, 0, 2, 0xc3, 0xa9]);
}

#[test]
fn sell_and_path_payloads() {
    let b = encode_command(&GameCommand::SellBuilding { player: PlayerId(7), building: EntityId(0x0a0b) });
    assert_eq!(b, vec![11, 7, 0, 0, 0, 0, 0, 0, 0x0a, 0x0b]);
    let b = encode_command(&GameCommand::MovePath { entity: EntityId(2), points: vec![(1, 2), (0x0304, 5)] });
    assert_eq!(b, vec![13, 0, 0, 0, 0, 0, 0, 0, 2, 0, 2, 0, 1, 0, 2, 3, 4, 0, 5]);
}

#[test]
fn every_kind_decodes_back() {
    for cmd in every_kind() {
        let b = encode_command(&cmd);
        assert_eq!(decode_command(&b), Some(cmd));
    }
}

#[test]
fn trailing_bytes_after_payload_are_ignored() {
    let mut b = encode_command(&GameCommand::Guard { entity: EntityId(3) });
    b.extend_from_slice(&[9, 9, 9]);
    assert_eq!(decode_command(&b), Some(GameCommand::Guard { entity: EntityId(3) }));
}

#[test]
fn malformed_payloads_are_rejected() {
    assert_eq!(decode_command(&[]), None);
    assert_eq!(decode_command(&[0]), None);
    assert_eq!(decode_command(&[15, 0, 0, 0, 0, 0, 0, 0, 0]), None);
    // Cut one byte short of the last field.
    let b = encode_command(&GameCommand::MoveTo { entity: EntityId(1), x: 2, y: 3 });
    assert_eq!(decode_command(&b[..b.len() - 1]), None);
    // Type id length pointing past the end.
    assert_eq!(decode_command(&[5, 1, 0, 3, b'E', b'1']), None);
    // Type id that is not UTF-8.
    assert_eq!(decode_command(&[5, 1, 0, 2, 0xff, 0xfe]), None);
    // Path announcing more points than it holds.
    assert_eq!(decode_command(&[13, 0, 0, 0, 0, 0, 0, 0, 1, 0, 2, 0, 1, 0, 2]), None);
}

#[test]
fn command_list_format_and_round_trip() {
    let cmds = vec![GameCommand::Deploy { entity: EntityId(7) }, GameCommand::Guard { entity: EntityId(9) }];
    let b = encode_commands(&cmds);
    assert_eq!(
        b,
        vec![0, 2, 0, 9, 3, 0, 0, 0, 0, 0, 0, 0, 7, 0, 9, 10, 0, 0, 0, 0, 0, 0, 0, 9]
    );
    assert_eq!(decode_commands(&b), Some(cmds));
    let all = every_kind();
    assert_eq!(decode_commands(&encode_commands(&all)), Some(all));
    assert_eq!(decode_commands(&encode_commands(&[])), Some(Vec::new()));
}

#[test]
fn malformed_command_lists_are_rejected() {
    assert_eq!(decode_commands(&[0]), None);
    // Announces one entry and holds none.
    assert_eq!(decode_commands(&[0, 1]), None);
    // Entry length past the end.
    assert_eq!(decode_commands(&[0, 1, 0, 9, 3, 0]), None);
    // Entry that does not decode.
    assert_eq!(decode_commands(&[0, 1, 0, 1, 99]), None);
}

#[test]
fn scheduled_envelope_format_and_round_trip() {
    let cmd = ScheduledCommand::new(CommandId(1), PlayerId(2), Tick(3), GameCommand::Deploy { entity: EntityId(4) });
    let b = encode_scheduled(&cmd);
    assert_eq!(
        b,
        vec![0, 0, 0, 0, 0, 0, 0, 1, 2, 0, 0, 0, 0, 0, 0, 0, 3, 0, 9, 3, 0, 0, 0, 0, 0, 0, 0, 4]
    );
    assert_eq!(decode_scheduled(&b), Some(cmd));
    for body in every_kind() {
        let s = ScheduledCommand::new(CommandId(u64::MAX), PlayerId(255), Tick(1 << 40), body);
        assert_eq!(decode_scheduled(&encode_scheduled(&s)), Some(s));
    }
}

#[test]
fn malformed_envelopes_are_rejected() {
    assert_eq!(decode_scheduled(&[0; 18]), None);
    // Payload length 1 with no payload byte.
    let mut b = vec![0; 17];
    b.extend_from_slice(&[0, 1]);
    assert_eq!(decode_scheduled(&b), None);
    // Empty payload.
    assert_eq!(decode_scheduled(&[0; 19]), None);
}

#[test]
fn input_frame_without_commands_is_empty() {
    let frame = InputFrame::empty(12);
    assert_eq!(frame.tick, 12);
    assert!(frame.is_empty());
    let busy = InputFrame {
        tick: 13,
        commands: vec![ScheduledCommand::new(CommandId(1), PlayerId(0), Tick(13), GameCommand::Guard { entity: EntityId(1) })],
    };
    assert!(!busy.is_empty());
}
