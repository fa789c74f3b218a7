//! Payload codec: one command as bytes, and a counted list of commands.
//!
//! A payload is a tag byte followed by the variant's fields in declaration
//! order. Entity ids are `u64`, players one byte, cells `u16`, a type id a
//! `u16` byte length and its UTF-8 bytes, a waypoint list a `u16` count and
//! that many `(x, y)` pairs.

use vstd::prelude::*;
use vstd::utf8::*;

use super::types::{command_views, CommandView, EntityId, GameCommand, PlayerId};
use super::wire::{
    be16, be64, lemma_u16_sub, lemma_u64_sub, push_bytes, push_u16, push_u64, read_u16, read_u64, u16_at, u64_at,
};

verus! {

broadcast use vstd::utf8::encode_utf8_valid_utf8, vstd::utf8::encode_utf8_decode_utf8;

/// Most waypoints a payload carries; a longer path is cut to its first ones.
pub const MAX_PATH_POINTS: u16 = 0xffff;

/// A type id on the wire: its UTF-8 length (kept to 16 bits) and its bytes.
pub open spec fn text_bytes(t: Seq<char>) -> Seq<u8> {
    be16(encode_utf8(t).len() as u16) + encode_utf8(t)
}

/// Waypoints on the wire, each as `x` then `y`.
pub open spec fn points_bytes(ps: Seq<(u16, u16)>) -> Seq<u8>
    decreases ps.len(),
{
    if ps.len() == 0 {
        Seq::empty()
    } else {
        points_bytes(ps.drop_last()) + be16(ps.last().0) + be16(ps.last().1)
    }
}

/// Number of waypoints a payload keeps of `ps`.
pub open spec fn kept_points(ps: Seq<(u16, u16)>) -> nat {
    if ps.len() <= MAX_PATH_POINTS as nat {
        ps.len()
    } else {
        MAX_PATH_POINTS as nat
    }
}

/// Payload bytes of a command.
pub open spec fn command_bytes(c: CommandView) -> Seq<u8> {
    match c {
        CommandView::MoveTo { entity, x, y } => seq![1u8] + be64(entity) + be16(x) + be16(y),
        CommandView::Attack { attacker, target } => seq![2u8] + be64(attacker) + be64(target),
        CommandView::Deploy { entity } => seq![3u8] + be64(entity),
        CommandView::PlaceBuilding { player, type_id, x, y } => seq![4u8, player] + text_bytes(type_id)
            + be16(x) + be16(y),
        CommandView::Produce { player, type_id } => seq![5u8, player] + text_bytes(type_id),
        CommandView::SetRallyPoint { factory, x, y } => seq![6u8] + be64(factory) + be16(x) + be16(y),
        CommandView::Infiltrate { agent, building } => seq![7u8] + be64(agent) + be64(building),
        CommandView::CancelProduce { player, type_id } => seq![8u8, player] + text_bytes(type_id),
        CommandView::CaptureBuilding { engineer, building } => seq![9u8] + be64(engineer) + be64(
            building,
        ),
        CommandView::Guard { entity } => seq![10u8] + be64(entity),
        CommandView::SellBuilding { player, building } => seq![11u8, player] + be64(building),
        CommandView::RepairBuilding { player, building } => seq![12u8, player] + be64(building),
        CommandView::MovePath { entity, points } => seq![13u8] + be64(entity) + be16(
            kept_points(points) as u16,
        ) + points_bytes(points.take(kept_points(points) as int)),
        CommandView::FireSuperWeapon { player, type_id, x, y } => seq![14u8, player] + text_bytes(
            type_id,
        ) + be16(x) + be16(y),
    }
}

/// Appends a type id: its UTF-8 length as a `u16`, then its bytes.
fn push_text(b: &mut Vec<u8>, type_id: &String)
    ensures
        final(b)@ == old(b)@ + text_bytes(type_id@),
{
    let id_bytes = type_id.as_str().as_bytes();
    push_u16(b, id_bytes.len() as u16);
    push_bytes(b, id_bytes);
    assert(b@ =~= old(b)@ + text_bytes(type_id@));
}

/// Appends the first `n` waypoints of `points`.
fn push_points(b: &mut Vec<u8>, points: &Vec<(u16, u16)>, n: usize)
    requires
        n <= points@.len(),
    ensures
        final(b)@ == old(b)@ + points_bytes(points@.take(n as int)),
{
    let mut i: usize = 0;
    while i < n
        invariant
            i <= n <= points@.len(),
            b@ == old(b)@ + points_bytes(points@.take(i as int)),
        decreases n - i,
    {
        let (x, y) = points[i];
        push_u16(b, x);
        push_u16(b, y);
        proof {
            let next = points@.take(i + 1);
            assert(next.drop_last() =~= points@.take(i as int));
            assert(next.last() == (x, y));
            assert(b@ =~= old(b)@ + points_bytes(next));
        }
        i = i + 1;
    }
}

/// Payload bytes of one command (no scheduling envelope).
pub fn encode_command(cmd: &GameCommand) -> (b: Vec<u8>)
    ensures
        b@ == command_bytes(cmd@),
{
    let mut b: Vec<u8> = Vec::new();
    match cmd {
        GameCommand::MoveTo { entity, x, y } => {
            b.push(1);
            push_u64(&mut b, entity.0);
            push_u16(&mut b, *x);
            push_u16(&mut b, *y);
        },
        GameCommand::MovePath { entity, points } => {
            b.push(13);
            push_u64(&mut b, entity.0);
            let n: u16 = if points.len() <= MAX_PATH_POINTS as usize {
                points.len() as u16
            } else {
                MAX_PATH_POINTS
            };
            push_u16(&mut b, n);
            push_points(&mut b, points, n as usize);
        },
        GameCommand::Attack { attacker, target } => {
            b.push(2);
            push_u64(&mut b, attacker.0);
            push_u64(&mut b, target.0);
        },
        GameCommand::Deploy { entity } => {
            b.push(3);
            push_u64(&mut b, entity.0);
        },
        GameCommand::PlaceBuilding { player, type_id, x, y } => {
            b.push(4);
            b.push(player.0);
            push_text(&mut b, type_id);
            push_u16(&mut b, *x);
            push_u16(&mut b, *y);
        },
        GameCommand::Produce { player, type_id } => {
            b.push(5);
            b.push(player.0);
            push_text(&mut b, type_id);
        },
        GameCommand::SetRallyPoint { factory, x, y } => {
            b.push(6);
            push_u64(&mut b, factory.0);
            push_u16(&mut b, *x);
            push_u16(&mut b, *y);
        },
        GameCommand::Infiltrate { agent, building } => {
            b.push(7);
            push_u64(&mut b, agent.0);
            push_u64(&mut b, building.0);
        },
        GameCommand::CancelProduce { player, type_id } => {
            b.push(8);
            b.push(player.0);
            push_text(&mut b, type_id);
        },
        GameCommand::CaptureBuilding { engineer, building } => {
            b.push(9);
            push_u64(&mut b, engineer.0);
            push_u64(&mut b, building.0);
        },
        GameCommand::Guard { entity } => {
            b.push(10);
            push_u64(&mut b, entity.0);
        },
        GameCommand::SellBuilding { player, building } => {
            b.push(11);
            b.push(player.0);
            push_u64(&mut b, building.0);
        },
        GameCommand::RepairBuilding { player, building } => {
            b.push(12);
            b.push(player.0);
            push_u64(&mut b, building.0);
        },
        GameCommand::FireSuperWeapon { player, type_id, x, y } => {
            b.push(14);
            b.push(player.0);
            push_text(&mut b, type_id);
            push_u16(&mut b, *x);
            push_u16(&mut b, *y);
        },
    }
    assert(b@ =~= command_bytes(cmd@));
    b
}


/// Text stored as `n` UTF-8 bytes at `b[i..]`, if they are well-formed.
pub open spec fn text_at(b: Seq<u8>, i: int, n: int) -> Option<Seq<char>> {
    let raw = b.subrange(i, i + n);
    if valid_utf8(raw) {
        Some(decode_utf8(raw))
    } else {
        None
    }
}

/// `n` waypoints stored at `b[i..]`, four bytes each.
pub open spec fn points_at(b: Seq<u8>, i: int, n: nat) -> Seq<(u16, u16)> {
    Seq::new(n, |k: int| (u16_at(b, i + 4 * k), u16_at(b, i + 4 * k + 2)))
}

/// The command a payload decodes to, if any: `None` for an empty payload, an
/// unknown tag, a payload shorter than its fields, or a type id that is not
/// UTF-8. Bytes after the last field are ignored.
pub open spec fn parse_command(b: Seq<u8>) -> Option<CommandView> {
    if b.len() == 0 {
        None
    } else if b[0] == 1u8 {
        if b.len() < 13 {
            None
        } else {
            Some(CommandView::MoveTo { entity: u64_at(b, 1), x: u16_at(b, 9), y: u16_at(b, 11) })
        }
    } else if b[0] == 2u8 {
        if b.len() < 17 {
            None
        } else {
            Some(CommandView::Attack { attacker: u64_at(b, 1), target: u64_at(b, 9) })
        }
    } else if b[0] == 3u8 {
        if b.len() < 9 {
            None
        } else {
            Some(CommandView::Deploy { entity: u64_at(b, 1) })
        }
    } else if b[0] == 4u8 || b[0] == 14u8 {
        if b.len() < 4 {
            None
        } else {
            let n = u16_at(b, 2) as int;
            if b.len() < 8 + n {
                None
            } else {
                match text_at(b, 4, n) {
                    None => None,
                    Some(t) => if b[0] == 4u8 {
                        Some(
                            CommandView::PlaceBuilding {
                                player: b[1],
                                type_id: t,
                                x: u16_at(b, 4 + n),
                                y: u16_at(b, 6 + n),
                            },
                        )
                    } else {
                        Some(
                            CommandView::FireSuperWeapon {
                                player: b[1],
                                type_id: t,
                                x: u16_at(b, 4 + n),
                                y: u16_at(b, 6 + n),
                            },
                        )
                    },
                }
            }
        }
    } else if b[0] == 5u8 || b[0] == 8u8 {
        if b.len() < 4 {
            None
        } else {
            let n = u16_at(b, 2) as int;
            if b.len() < 4 + n {
                None
            } else {
                match text_at(b, 4, n) {
                    None => None,
                    Some(t) => if b[0] == 5u8 {
                        Some(CommandView::Produce { player: b[1], type_id: t })
                    } else {
                        Some(CommandView::CancelProduce { player: b[1], type_id: t })
                    },
                }
            }
        }
    } else if b[0] == 6u8 {
        if b.len() < 13 {
            None
        } else {
            Some(CommandView::SetRallyPoint { factory: u64_at(b, 1), x: u16_at(b, 9), y: u16_at(b, 11) })
        }
    } else if b[0] == 7u8 {
        if b.len() < 17 {
            None
        } else {
            Some(CommandView::Infiltrate { agent: u64_at(b, 1), building: u64_at(b, 9) })
        }
    } else if b[0] == 9u8 {
        if b.len() < 17 {
            None
        } else {
            Some(CommandView::CaptureBuilding { engineer: u64_at(b, 1), building: u64_at(b, 9) })
        }
    } else if b[0] == 10u8 {
        if b.len() < 9 {
            None
        } else {
            Some(CommandView::Guard { entity: u64_at(b, 1) })
        }
    } else if b[0] == 11u8 {
        if b.len() < 10 {
            None
        } else {
            Some(CommandView::SellBuilding { player: b[1], building: u64_at(b, 2) })
        }
    } else if b[0] == 12u8 {
        if b.len() < 10 {
            None
        } else {
            Some(CommandView::RepairBuilding { player: b[1], building: u64_at(b, 2) })
        }
    } else if b[0] == 13u8 {
        if b.len() < 11 {
            None
        } else {
            let n = u16_at(b, 9) as nat;
            if b.len() < 11 + 4 * n {
                None
            } else {
                Some(CommandView::MovePath { entity: u64_at(b, 1), points: points_at(b, 11, n) })
            }
        }
    } else {
        None
    }
}

/// View of an optional command.
pub open spec fn opt_view(c: Option<GameCommand>) -> Option<CommandView> {
    match c {
        Some(c) => Some(c@),
        None => None,
    }
}

/// `std::str::from_utf8`: the bytes as text when they are well-formed UTF-8.
/// Its documentation says the call fails exactly when the slice is not valid
/// UTF-8, and that the text it returns is made of those same bytes.
#[verifier::external_body]
fn utf8_text(bytes: &[u8]) -> (text: Option<&str>)
    ensures
        text is Some <==> valid_utf8(bytes@),
        text matches Some(s) ==> encode_utf8(s@) == bytes@,
{
    std::str::from_utf8(bytes).ok()
}

/// Reads the `n` UTF-8 bytes at `bytes[i..]` as an owned type id.
fn read_text(bytes: &[u8], i: usize, n: usize) -> (t: Option<String>)
    requires
        i + n <= bytes@.len(),
    ensures
        match t {
            Some(s) => text_at(bytes@, i as int, n as int) == Some(s@),
            None => text_at(bytes@, i as int, n as int) is None,
        },
{
    assert(bytes@.len() == bytes.len());
    let raw = vstd::slice::slice_subrange(bytes, i, i + n);
    match utf8_text(raw) {
        Some(s) => {
            let owned = s.to_owned();
            proof {
                assert(decode_utf8(encode_utf8(s@)) == s@);
            }
            Some(owned)
        },
        None => None,
    }
}

/// Reads `n` waypoints stored at `bytes[i..]`.
fn read_points(bytes: &[u8], i: usize, n: usize) -> (ps: Vec<(u16, u16)>)
    requires
        i + 4 * n <= bytes@.len(),
    ensures
        ps@ == points_at(bytes@, i as int, n as nat),
{
    assert(bytes@.len() == bytes.len());
    let mut ps: Vec<(u16, u16)> = Vec::new();
    let mut k: usize = 0;
    let mut off: usize = i;
    while k < n
        invariant
            k <= n,
            i + 4 * n <= bytes@.len(),
            bytes@.len() == bytes.len(),
            off == i + 4 * k,
            ps@ == points_at(bytes@, i as int, k as nat),
        decreases n - k,
    {
        let x = read_u16(bytes, off);
        let y = read_u16(bytes, off + 2);
        ps.push((x, y));
        proof {
            assert(ps@ =~= points_at(bytes@, i as int, (k + 1) as nat));
        }
        off = off + 4;
        k = k + 1;
    }
    ps
}

/// The command a payload decodes to; `None` for an empty or short payload,
/// an unknown tag, or a type id that is not UTF-8.
pub fn decode_command(bytes: &[u8]) -> (cmd: Option<GameCommand>)
    ensures
        opt_view(cmd) == parse_command(bytes@),
{
    if bytes.len() == 0 {
        return None;
    }
    let tag = bytes[0];
    if tag == 1 {
        if bytes.len() < 13 {
            return None;
        }
        let entity = EntityId(read_u64(bytes, 1));
        let x = read_u16(bytes, 9);
        let y = read_u16(bytes, 11);
        Some(GameCommand::MoveTo { entity, x, y })
    } else if tag == 2 {
        if bytes.len() < 17 {
            return None;
        }
        let attacker = EntityId(read_u64(bytes, 1));
        let target = EntityId(read_u64(bytes, 9));
        Some(GameCommand::Attack { attacker, target })
    } else if tag == 3 {
        if bytes.len() < 9 {
            return None;
        }
        Some(GameCommand::Deploy { entity: EntityId(read_u64(bytes, 1)) })
    } else if tag == 4 || tag == 14 {
        if bytes.len() < 4 {
            return None;
        }
        let player = PlayerId(bytes[1]);
        let id_len = read_u16(bytes, 2) as usize;
        if bytes.len() < 8 + id_len {
            return None;
        }
        let type_id = match read_text(bytes, 4, id_len) {
            Some(t) => t,
            None => return None,
        };
        let x = read_u16(bytes, 4 + id_len);
        let y = read_u16(bytes, 6 + id_len);
        if tag == 4 {
            Some(GameCommand::PlaceBuilding { player, type_id, x, y })
        } else {
            Some(GameCommand::FireSuperWeapon { player, type_id, x, y })
        }
    } else if tag == 5 || tag == 8 {
        if bytes.len() < 4 {
            return None;
        }
        let player = PlayerId(bytes[1]);
        let id_len = read_u16(bytes, 2) as usize;
        if bytes.len() < 4 + id_len {
            return None;
        }
        let type_id = match read_text(bytes, 4, id_len) {
            Some(t) => t,
            None => return None,
        };
        if tag == 5 {
            Some(GameCommand::Produce { player, type_id })
        } else {
            Some(GameCommand::CancelProduce { player, type_id })
        }
    } else if tag == 6 {
        if bytes.len() < 13 {
            return None;
        }
        let factory = EntityId(read_u64(bytes, 1));
        let x = read_u16(bytes, 9);
        let y = read_u16(bytes, 11);
        Some(GameCommand::SetRallyPoint { factory, x, y })
    } else if tag == 7 {
        if bytes.len() < 17 {
            return None;
        }
        let agent = EntityId(read_u64(bytes, 1));
        let building = EntityId(read_u64(bytes, 9));
        Some(GameCommand::Infiltrate { agent, building })
    } else if tag == 9 {
        if bytes.len() < 17 {
            return None;
        }
        let engineer = EntityId(read_u64(bytes, 1));
        let building = EntityId(read_u64(bytes, 9));
        Some(GameCommand::CaptureBuilding { engineer, building })
    } else if tag == 10 {
        if bytes.len() < 9 {
            return None;
        }
        Some(GameCommand::Guard { entity: EntityId(read_u64(bytes, 1)) })
    } else if tag == 11 {
        if bytes.len() < 10 {
            return None;
        }
        let player = PlayerId(bytes[1]);
        let building = EntityId(read_u64(bytes, 2));
        Some(GameCommand::SellBuilding { player, building })
    } else if tag == 12 {
        if bytes.len() < 10 {
            return None;
        }
        let player = PlayerId(bytes[1]);
        let building = EntityId(read_u64(bytes, 2));
        Some(GameCommand::RepairBuilding { player, building })
    } else if tag == 13 {
        if bytes.len() < 11 {
            return None;
        }
        let entity = EntityId(read_u64(bytes, 1));
        let n = read_u16(bytes, 9) as usize;
        if bytes.len() < 11 + 4 * n {
            return None;
        }
        let points = read_points(bytes, 11, n);
        Some(GameCommand::MovePath { entity, points })
    } else {
        None
    }
}

/// Whether a command survives the payload format unchanged: its type id
/// takes at most `u16::MAX` UTF-8 bytes and its path at most
/// [`MAX_PATH_POINTS`] waypoints.
pub open spec fn command_fits(c: CommandView) -> bool {
    match c {
        CommandView::PlaceBuilding { type_id, .. } => encode_utf8(type_id).len() <= 0xffff,
        CommandView::Produce { type_id, .. } => encode_utf8(type_id).len() <= 0xffff,
        CommandView::CancelProduce { type_id, .. } => encode_utf8(type_id).len() <= 0xffff,
        CommandView::FireSuperWeapon { type_id, .. } => encode_utf8(type_id).len() <= 0xffff,
        CommandView::MovePath { points, .. } => points.len() <= MAX_PATH_POINTS as nat,
        _ => true,
    }
}

/// Each waypoint takes four bytes: `x` then `y`, big-endian.
pub proof fn lemma_points_bytes(ps: Seq<(u16, u16)>)
    ensures
        points_bytes(ps).len() == 4 * ps.len(),
        forall|k: int|
            0 <= k < ps.len() ==> points_bytes(ps).subrange(4 * k, 4 * k + 4) == be16(#[trigger] ps[k].0)
                + be16(ps[k].1),
    decreases ps.len(),
{
    if ps.len() > 0 {
        let init = ps.drop_last();
        lemma_points_bytes(init);
        let b = points_bytes(ps);
        assert forall|k: int| 0 <= k < ps.len() implies b.subrange(4 * k, 4 * k + 4) == be16(
            #[trigger] ps[k].0,
        ) + be16(ps[k].1) by {
            if k < ps.len() - 1 {
                assert(init[k] == ps[k]);
                assert(b.subrange(4 * k, 4 * k + 4) =~= points_bytes(init).subrange(4 * k, 4 * k + 4));
            } else {
                assert(b.subrange(4 * k, 4 * k + 4) =~= be16(ps.last().0) + be16(ps.last().1));
            }
        }
    }
}

/// A type id written after `p` reads back: its length, then the text.
proof fn lemma_text_roundtrip(p: Seq<u8>, t: Seq<char>, q: Seq<u8>)
    requires
        encode_utf8(t).len() <= 0xffff,
    ensures
        ({
            let b = p + text_bytes(t) + q;
            let n = encode_utf8(t).len() as int;
            &&& u16_at(b, p.len() as int) as int == n
            &&& text_at(b, p.len() as int + 2, n) == Some(t)
            &&& b.len() == p.len() + 2 + n + q.len()
        }),
{
    let u = encode_utf8(t);
    let b = p + text_bytes(t) + q;
    let i = p.len() as int;
    assert(b.subrange(i, i + 2) =~= be16(u.len() as u16));
    lemma_u16_sub(b, i, u.len() as u16);
    assert(b.subrange(i + 2, i + 2 + u.len()) =~= u);
}

/// A waypoint list read back from its own payload.
proof fn lemma_path_roundtrip(entity: u64, points: Seq<(u16, u16)>)
    requires
        points.len() <= MAX_PATH_POINTS as nat,
    ensures
        parse_command(command_bytes(CommandView::MovePath { entity, points })) == Some(
            CommandView::MovePath { entity, points },
        ),
{
    let b = command_bytes(CommandView::MovePath { entity, points });
    let n = points.len();
    assert(points.take(n as int) =~= points);
    let body = points_bytes(points);
    assert(b =~= seq![13u8] + be64(entity) + be16(n as u16) + body);
    assert(b.subrange(1, 9) =~= be64(entity));
    lemma_u64_sub(b, 1, entity);
    assert(b.subrange(9, 11) =~= be16(n as u16));
    lemma_u16_sub(b, 9, n as u16);
    lemma_points_bytes(points);
    assert forall|k: int| 0 <= k < n implies #[trigger] points_at(b, 11, n)[k] == points[k] by {
        let pair = b.subrange(11 + 4 * k, 11 + 4 * k + 4);
        assert(pair =~= body.subrange(4 * k, 4 * k + 4));
        assert(pair == be16(points[k].0) + be16(points[k].1));
        assert(b.subrange(11 + 4 * k, 11 + 4 * k + 2) =~= pair.subrange(0, 2));
        assert(pair.subrange(0, 2) =~= be16(points[k].0));
        lemma_u16_sub(b, 11 + 4 * k, points[k].0);
        assert(b.subrange(11 + 4 * k + 2, 11 + 4 * k + 4) =~= pair.subrange(2, 4));
        assert(pair.subrange(2, 4) =~= be16(points[k].1));
        lemma_u16_sub(b, 11 + 4 * k + 2, points[k].1);
    }
    assert(points_at(b, 11, n) =~= points);
}

/// A type id command without a cell read back from its own payload.
proof fn lemma_text_only_roundtrip(tag: u8, player: u8, type_id: Seq<char>)
    requires
        tag == 5u8 || tag == 8u8,
        encode_utf8(type_id).len() <= 0xffff,
    ensures
        ({
            let b = seq![tag, player] + text_bytes(type_id);
            &&& tag == 5u8 ==> parse_command(b) == Some(CommandView::Produce { player, type_id })
            &&& tag == 8u8 ==> parse_command(b) == Some(CommandView::CancelProduce { player, type_id })
        }),
{
    lemma_text_roundtrip(seq![tag, player], type_id, Seq::empty());
    assert(seq![tag, player] + text_bytes(type_id) =~= seq![tag, player] + text_bytes(type_id) + Seq::<
        u8,
    >::empty());
}

/// A type id command with a cell read back from its own payload.
proof fn lemma_text_cell_roundtrip(tag: u8, player: u8, type_id: Seq<char>, x: u16, y: u16)
    requires
        tag == 4u8 || tag == 14u8,
        encode_utf8(type_id).len() <= 0xffff,
    ensures
        ({
            let b = seq![tag, player] + text_bytes(type_id) + be16(x) + be16(y);
            &&& tag == 4u8 ==> parse_command(b) == Some(
                CommandView::PlaceBuilding { player, type_id, x, y },
            )
            &&& tag == 14u8 ==> parse_command(b) == Some(
                CommandView::FireSuperWeapon { player, type_id, x, y },
            )
        }),
{
    let b = seq![tag, player] + text_bytes(type_id) + be16(x) + be16(y);
    let n = encode_utf8(type_id).len() as int;
    lemma_text_roundtrip(seq![tag, player], type_id, be16(x) + be16(y));
    assert(b =~= seq![tag, player] + text_bytes(type_id) + (be16(x) + be16(y)));
    assert(b.subrange(4 + n, 6 + n) =~= be16(x));
    lemma_u16_sub(b, 4 + n, x);
    assert(b.subrange(6 + n, 8 + n) =~= be16(y));
    lemma_u16_sub(b, 6 + n, y);
}

/// A command of fixed size read back from its own payload.
proof fn lemma_fixed_command_roundtrip(c: CommandView)
    requires
        !(c is PlaceBuilding || c is Produce || c is CancelProduce || c is FireSuperWeapon
            || c is MovePath),
    ensures
        parse_command(command_bytes(c)) == Some(c),
{
    let b = command_bytes(c);
    match c {
        CommandView::MoveTo { entity, x, y } => {
            assert(b.subrange(1, 9) =~= be64(entity));
            lemma_u64_sub(b, 1, entity);
            assert(b.subrange(9, 11) =~= be16(x));
            lemma_u16_sub(b, 9, x);
            assert(b.subrange(11, 13) =~= be16(y));
            lemma_u16_sub(b, 11, y);
        },
        CommandView::Attack { attacker, target } => {
            assert(b.subrange(1, 9) =~= be64(attacker));
            lemma_u64_sub(b, 1, attacker);
            assert(b.subrange(9, 17) =~= be64(target));
            lemma_u64_sub(b, 9, target);
        },
        CommandView::Deploy { entity } => {
            assert(b.subrange(1, 9) =~= be64(entity));
            lemma_u64_sub(b, 1, entity);
        },
        CommandView::SetRallyPoint { factory, x, y } => {
            assert(b.subrange(1, 9) =~= be64(factory));
            lemma_u64_sub(b, 1, factory);
            assert(b.subrange(9, 11) =~= be16(x));
            lemma_u16_sub(b, 9, x);
            assert(b.subrange(11, 13) =~= be16(y));
            lemma_u16_sub(b, 11, y);
        },
        CommandView::Infiltrate { agent, building } => {
            assert(b.subrange(1, 9) =~= be64(agent));
            lemma_u64_sub(b, 1, agent);
            assert(b.subrange(9, 17) =~= be64(building));
            lemma_u64_sub(b, 9, building);
        },
        CommandView::CaptureBuilding { engineer, building } => {
            assert(b.subrange(1, 9) =~= be64(engineer));
            lemma_u64_sub(b, 1, engineer);
            assert(b.subrange(9, 17) =~= be64(building));
            lemma_u64_sub(b, 9, building);
        },
        CommandView::Guard { entity } => {
            assert(b.subrange(1, 9) =~= be64(entity));
            lemma_u64_sub(b, 1, entity);
        },
        CommandView::SellBuilding { player, building } => {
            assert(b.subrange(2, 10) =~= be64(building));
            lemma_u64_sub(b, 2, building);
        },
        CommandView::RepairBuilding { player, building } => {
            assert(b.subrange(2, 10) =~= be64(building));
            lemma_u64_sub(b, 2, building);
        },
        _ => {},
    }
}

/// A command whose type id and path fit decodes back from its own payload.
pub proof fn law_decode_inverts_encode(c: CommandView)
    requires
        command_fits(c),
    ensures
        parse_command(command_bytes(c)) == Some(c),
{
    match c {
        CommandView::MovePath { entity, points } => lemma_path_roundtrip(entity, points),
        CommandView::PlaceBuilding { player, type_id, x, y } => lemma_text_cell_roundtrip(
            4u8,
            player,
            type_id,
            x,
            y,
        ),
        CommandView::Produce { player, type_id } => lemma_text_only_roundtrip(5u8, player, type_id),
        CommandView::CancelProduce { player, type_id } => lemma_text_only_roundtrip(8u8, player, type_id),
        CommandView::FireSuperWeapon { player, type_id, x, y } => lemma_text_cell_roundtrip(
            14u8,
            player,
            type_id,
            x,
            y,
        ),
        _ => lemma_fixed_command_roundtrip(c),
    }
}

/// One list entry: the payload's length as a `u16`, then the payload.
pub open spec fn frame_bytes(c: CommandView) -> Seq<u8> {
    be16(command_bytes(c).len() as u16) + command_bytes(c)
}

/// The list entries of `cs`, in order.
pub open spec fn frames_bytes(cs: Seq<CommandView>) -> Seq<u8>
    decreases cs.len(),
{
    if cs.len() == 0 {
        Seq::empty()
    } else {
        frame_bytes(cs[0]) + frames_bytes(cs.drop_first())
    }
}

/// A command list on the wire: the count as a `u16`, then every entry.
pub open spec fn commands_bytes(cs: Seq<CommandView>) -> Seq<u8> {
    be16(cs.len() as u16) + frames_bytes(cs)
}

/// `pre` in front of the list in `r`, if there is one.
pub open spec fn prepend(pre: Seq<CommandView>, r: Option<Seq<CommandView>>) -> Option<Seq<CommandView>> {
    match r {
        Some(s) => Some(pre + s),
        None => None,
    }
}

/// The first `k` entries stored at the start of `b`, if all of them are
/// there and decode.
pub open spec fn parse_frames(b: Seq<u8>, k: nat) -> Option<Seq<CommandView>>
    decreases k,
{
    if k == 0 {
        Some(Seq::empty())
    } else if b.len() < 2 {
        None
    } else {
        let n = u16_at(b, 0) as int;
        if 2 + n > b.len() {
            None
        } else {
            match parse_command(b.subrange(2, 2 + n)) {
                None => None,
                Some(c) => prepend(seq![c], parse_frames(b.subrange(2 + n, b.len() as int), (k - 1) as nat)),
            }
        }
    }
}

/// The command list a byte string decodes to, if any. Bytes after the last
/// counted entry are ignored.
pub open spec fn parse_commands(b: Seq<u8>) -> Option<Seq<CommandView>> {
    if b.len() < 2 {
        None
    } else {
        parse_frames(b.subrange(2, b.len() as int), u16_at(b, 0) as nat)
    }
}

/// Appending a command appends its entry.
proof fn lemma_frames_push(s: Seq<CommandView>, c: CommandView)
    ensures
        frames_bytes(s.push(c)) == frames_bytes(s) + frame_bytes(c),
    decreases s.len(),
{
    if s.len() == 0 {
        let t = s.push(c);
        assert(t[0] == c);
        assert(t.drop_first() =~= Seq::<CommandView>::empty());
        assert(frames_bytes(t.drop_first()) == Seq::<u8>::empty());
        assert(frames_bytes(t) == frame_bytes(c) + Seq::<u8>::empty());
        assert(frames_bytes(t) =~= frame_bytes(c));
        assert(frames_bytes(s) == Seq::<u8>::empty());
        assert(frames_bytes(s) + frame_bytes(c) =~= frame_bytes(c));
    } else {
        assert(s.push(c).drop_first() =~= s.drop_first().push(c));
        lemma_frames_push(s.drop_first(), c);
        assert(frames_bytes(s.push(c)) =~= frames_bytes(s) + frame_bytes(c));
    }
}

/// Counted list of commands, each entry prefixed with its payload length.
/// Count and lengths are kept to 16 bits.
pub fn encode_commands(cmds: &[GameCommand]) -> (b: Vec<u8>)
    ensures
        b@ == commands_bytes(command_views(cmds@)),
{
    let mut b: Vec<u8> = Vec::new();
    push_u16(&mut b, cmds.len() as u16);
    let mut i: usize = 0;
    while i < cmds.len()
        invariant
            i <= cmds@.len(),
            b@ == be16(cmds@.len() as u16) + frames_bytes(command_views(cmds@.take(i as int))),
        decreases cmds@.len() - i,
    {
        let one = encode_command(&cmds[i]);
        push_u16(&mut b, one.len() as u16);
        push_bytes(&mut b, one.as_slice());
        proof {
            let before = command_views(cmds@.take(i as int));
            assert(command_views(cmds@.take(i + 1)) =~= before.push(cmds@[i as int]@));
            lemma_frames_push(before, cmds@[i as int]@);
            assert(b@ =~= be16(cmds@.len() as u16) + frames_bytes(command_views(cmds@.take(i + 1))));
        }
        i = i + 1;
    }
    assert(cmds@.take(i as int) =~= cmds@);
    assert(command_views(cmds@).len() == cmds@.len());
    b
}

/// Decodes a counted command list; `None` when an entry is missing, cut
/// short, or does not decode.
pub fn decode_commands(bytes: &[u8]) -> (r: Option<Vec<GameCommand>>)
    ensures
        match r {
            Some(v) => parse_commands(bytes@) == Some(command_views(v@)),
            None => parse_commands(bytes@) is None,
        },
{
    if bytes.len() < 2 {
        return None;
    }
    let count = read_u16(bytes, 0) as usize;
    let mut i: usize = 2;
    let mut j: usize = 0;
    let mut out: Vec<GameCommand> = Vec::new();
    proof {
        let r = parse_frames(bytes@.subrange(2, bytes@.len() as int), count as nat);
        assert(command_views(out@) =~= Seq::<CommandView>::empty());
        if let Some(s) = r {
            assert(Seq::<CommandView>::empty() + s =~= s);
        }
    }
    while j < count
        invariant
            2 <= i <= bytes@.len(),
            bytes@.len() == bytes.len(),
            j <= count,
            count == u16_at(bytes@, 0),
            parse_commands(bytes@) == prepend(
                command_views(out@),
                parse_frames(bytes@.subrange(i as int, bytes@.len() as int), (count - j) as nat),
            ),
        decreases count - j,
    {
        let ghost rest = bytes@.subrange(i as int, bytes@.len() as int);
        let ghost k = (count - j) as nat;
        if bytes.len() - i < 2 {
            return None;
        }
        let n = read_u16(bytes, i) as usize;
        proof {
            assert(rest[0] == bytes@[i as int]);
            assert(rest[1] == bytes@[i + 1]);
            assert(u16_at(rest, 0) == n);
        }
        if bytes.len() - i - 2 < n {
            return None;
        }
        let sub = vstd::slice::slice_subrange(bytes, i + 2, i + 2 + n);
        proof {
            assert(rest.subrange(2, 2 + n) =~= sub@);
        }
        let cmd = match decode_command(sub) {
            Some(c) => c,
            None => return None,
        };
        proof {
            let tail = bytes@.subrange(i + 2 + n, bytes@.len() as int);
            assert(rest.subrange(2 + n, rest.len() as int) =~= tail);
            let pre = command_views(out@);
            assert(command_views(out@.push(cmd)) =~= pre + seq![cmd@]);
            match parse_frames(tail, (k - 1) as nat) {
                Some(s) => {
                    assert(pre + (seq![cmd@] + s) =~= (pre + seq![cmd@]) + s);
                },
                None => {},
            }
        }
        out.push(cmd);
        i = i + 2 + n;
        j = j + 1;
    }
    proof {
        assert(command_views(out@) + Seq::<CommandView>::empty() =~= command_views(out@));
    }
    Some(out)
}

/// A payload of at most `u16::MAX` bytes carries all of its command.
pub proof fn lemma_short_payload_fits(c: CommandView)
    requires
        command_bytes(c).len() <= 0xffff,
    ensures
        command_fits(c),
{
    if let CommandView::MovePath { entity, points } = c {
        lemma_points_bytes(points.take(kept_points(points) as int));
    }
}

/// Entries written in front of any bytes read back as the same commands.
proof fn lemma_frames_roundtrip(cs: Seq<CommandView>, t: Seq<u8>)
    requires
        forall|i: int| 0 <= i < cs.len() ==> (#[trigger] command_bytes(cs[i])).len() <= 0xffff,
    ensures
        parse_frames(frames_bytes(cs) + t, cs.len()) == Some(cs),
    decreases cs.len(),
{
    if cs.len() > 0 {
        let c = cs[0];
        let rest = cs.drop_first();
        let body = command_bytes(c);
        let m = body.len() as int;
        let b = frames_bytes(cs) + t;
        assert(command_bytes(cs[0]).len() <= 0xffff);
        assert(b =~= be16(m as u16) + body + (frames_bytes(rest) + t));
        lemma_read_be16_front(m as u16, body + (frames_bytes(rest) + t));
        assert(b.subrange(2, 2 + m) =~= body);
        lemma_short_payload_fits(c);
        law_decode_inverts_encode(c);
        assert(b.subrange(2 + m, b.len() as int) =~= frames_bytes(rest) + t);
        assert forall|i: int| 0 <= i < rest.len() implies (#[trigger] command_bytes(rest[i])).len()
            <= 0xffff by {
            assert(rest[i] == cs[i + 1]);
        }
        lemma_frames_roundtrip(rest, t);
        assert(seq![c] + rest =~= cs);
    }
}

/// Reads the `u16` at the start of `be16(x) + q`.
proof fn lemma_read_be16_front(x: u16, q: Seq<u8>)
    ensures
        u16_at(be16(x) + q, 0) == x,
{
    let b = be16(x) + q;
    assert(b.subrange(0, 2) =~= be16(x));
    lemma_u16_sub(b, 0, x);
}

/// A list of at most `u16::MAX` commands, each with a payload of at most
/// `u16::MAX` bytes, decodes back from its own encoding.
pub proof fn law_decode_commands_inverts_encode(cs: Seq<CommandView>)
    requires
        cs.len() <= 0xffff,
        forall|i: int| 0 <= i < cs.len() ==> (#[trigger] command_bytes(cs[i])).len() <= 0xffff,
    ensures
        parse_commands(commands_bytes(cs)) == Some(cs),
{
    let b = commands_bytes(cs);
    lemma_read_be16_front(cs.len() as u16, frames_bytes(cs));
    assert(b.subrange(2, b.len() as int) =~= frames_bytes(cs) + Seq::<u8>::empty());
    lemma_frames_roundtrip(cs, Seq::empty());
}

} // verus!
