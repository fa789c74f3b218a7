//! Envelope codec: command id, player, tick, then the payload with its
//! length as a `u16`.

use vstd::prelude::*;

use super::codec::{
    command_bytes, decode_command, encode_command, law_decode_inverts_encode, lemma_short_payload_fits, parse_command,
};
use super::types::{CommandId, PlayerId, ScheduledCommand, ScheduledView, Tick};
use super::wire::{
    be16, be64, lemma_u16_sub, lemma_u64_sub, push_bytes, push_u16, push_u64, read_u16, read_u64, u16_at, u64_at,
};

verus! {

/// Envelope and payload bytes of a scheduled command.
pub open spec fn scheduled_bytes(s: ScheduledView) -> Seq<u8> {
    be64(s.id) + seq![s.player] + be64(s.tick) + be16(command_bytes(s.body).len() as u16) + command_bytes(
        s.body,
    )
}

/// The scheduled command a byte string decodes to, if any: `None` when the
/// envelope is cut short, the payload is shorter than its stated length, or
/// the payload does not decode. Bytes after the payload are ignored.
pub open spec fn parse_scheduled(b: Seq<u8>) -> Option<ScheduledView> {
    if b.len() < 19 {
        None
    } else {
        let n = u16_at(b, 17) as int;
        if b.len() < 19 + n {
            None
        } else {
            match parse_command(b.subrange(19, 19 + n)) {
                None => None,
                Some(body) => Some(
                    ScheduledView { id: u64_at(b, 0), player: b[8], tick: u64_at(b, 9), body },
                ),
            }
        }
    }
}

/// Envelope followed by the payload.
pub fn encode_scheduled(cmd: &ScheduledCommand) -> (b: Vec<u8>)
    ensures
        b@ == scheduled_bytes(cmd@),
{
    let mut b: Vec<u8> = Vec::new();
    push_u64(&mut b, cmd.id.0);
    b.push(cmd.player.0);
    push_u64(&mut b, cmd.tick.0);
    let body = encode_command(&cmd.body);
    push_u16(&mut b, body.len() as u16);
    push_bytes(&mut b, body.as_slice());
    assert(b@ =~= scheduled_bytes(cmd@));
    b
}

/// Decodes an envelope and its payload.
pub fn decode_scheduled(bytes: &[u8]) -> (r: Option<ScheduledCommand>)
    ensures
        match r {
            Some(c) => parse_scheduled(bytes@) == Some(c@),
            None => parse_scheduled(bytes@) is None,
        },
{
    if bytes.len() < 19 {
        return None;
    }
    let id = CommandId(read_u64(bytes, 0));
    let player = PlayerId(bytes[8]);
    let tick = Tick(read_u64(bytes, 9));
    let n = read_u16(bytes, 17) as usize;
    if bytes.len() < 19 + n {
        return None;
    }
    let payload = vstd::slice::slice_subrange(bytes, 19, 19 + n);
    match decode_command(payload) {
        Some(body) => Some(ScheduledCommand::new(id, player, tick, body)),
        None => None,
    }
}

/// A scheduled command whose payload takes at most `u16::MAX` bytes decodes
/// back from its own encoding.
pub proof fn law_decode_scheduled_inverts_encode(s: ScheduledView)
    requires
        command_bytes(s.body).len() <= 0xffff,
    ensures
        parse_scheduled(scheduled_bytes(s)) == Some(s),
{
    let body = command_bytes(s.body);
    let n = body.len() as int;
    let b = scheduled_bytes(s);
    assert(b.subrange(0, 8) =~= be64(s.id));
    lemma_u64_sub(b, 0, s.id);
    assert(b.subrange(9, 17) =~= be64(s.tick));
    lemma_u64_sub(b, 9, s.tick);
    assert(b.subrange(17, 19) =~= be16(n as u16));
    lemma_u16_sub(b, 17, n as u16);
    assert(b.subrange(19, 19 + n) =~= body);
    lemma_short_payload_fits(s.body);
    law_decode_inverts_encode(s.body);
}

} // verus!
