//! Binary wire codec: a fixed, length-free encoding of each tagged message
//! variant — one discriminant byte, then the payload fields in declaration
//! order, integers little-endian — plus a length-prefixed frame for
//! transports that need one.
//!
//! There is no versioning envelope: encoder and decoder must agree exactly
//! on the schema, and a decode failure is a protocol mismatch, fatal to the
//! session. The round-trip laws below pin the two directions to each other.

use vstd::bytes::{
    lemma_auto_spec_u32_to_from_le_bytes, lemma_auto_spec_u64_to_from_le_bytes,
    spec_u32_from_le_bytes, spec_u32_to_le_bytes, spec_u64_from_le_bytes, spec_u64_to_le_bytes,
    u32_from_le_bytes, u32_to_le_bytes, u64_from_le_bytes, u64_to_le_bytes,
};
use vstd::prelude::*;
use vstd::slice::{slice_subrange, slice_to_vec};

use crate::protocol::{NetworkedEntities, PlayerCommand, PlayerInput, ServerMessages, Translation};

verus! {

/// A translation on the wire: the three component words, little-endian.
pub open spec fn spec_encode_translation(t: Translation) -> Seq<u8> {
    spec_u32_to_le_bytes(t.x) + spec_u32_to_le_bytes(t.y) + spec_u32_to_le_bytes(t.z)
}

/// The translation read back from twelve wire bytes.
pub open spec fn spec_decode_translation(b: Seq<u8>) -> Translation {
    Translation {
        x: spec_u32_from_le_bytes(b.subrange(0, 4)),
        y: spec_u32_from_le_bytes(b.subrange(4, 8)),
        z: spec_u32_from_le_bytes(b.subrange(8, 12)),
    }
}

/// A translation's encoding is twelve bytes and decodes to itself.
pub proof fn lemma_translation_round_trip(t: Translation)
    ensures
        spec_encode_translation(t).len() == 12,
        spec_decode_translation(spec_encode_translation(t)) == t,
{
    lemma_auto_spec_u32_to_from_le_bytes();
    let b = spec_encode_translation(t);
    assert(b.subrange(0, 4) =~= spec_u32_to_le_bytes(t.x));
    assert(b.subrange(4, 8) =~= spec_u32_to_le_bytes(t.y));
    assert(b.subrange(8, 12) =~= spec_u32_to_le_bytes(t.z));
}

/// A lifecycle message on the wire: discriminant byte, then payload fields
/// in declaration order.
pub open spec fn spec_encode_server_message(m: ServerMessages) -> Seq<u8> {
    match m {
        ServerMessages::PlayerCreate { id, entity, translation } => seq![0u8]
            + spec_u64_to_le_bytes(id) + spec_u64_to_le_bytes(entity)
            + spec_encode_translation(translation),
        ServerMessages::PlayerRemove { id } => seq![1u8] + spec_u64_to_le_bytes(id),
        ServerMessages::SpawnProjectile { entity, translation } => seq![2u8]
            + spec_u64_to_le_bytes(entity) + spec_encode_translation(translation),
        ServerMessages::DespawnProjectile { entity } => seq![3u8] + spec_u64_to_le_bytes(entity),
        ServerMessages::SpawnWorldBlock { entity, translation, slot } => seq![4u8]
            + spec_u64_to_le_bytes(entity) + spec_encode_translation(translation)
            + spec_u64_to_le_bytes(slot),
        ServerMessages::DespawnWorldBlock { entity } => seq![5u8] + spec_u64_to_le_bytes(entity),
    }
}

/// The lifecycle message read back from wire bytes; `None` is a schema
/// mismatch.
pub open spec fn spec_decode_server_message(b: Seq<u8>) -> Option<ServerMessages> {
    if b.len() == 0 {
        None
    } else if b[0] == 0 && b.len() == 29 {
        Some(
            ServerMessages::PlayerCreate {
                id: spec_u64_from_le_bytes(b.subrange(1, 9)),
                entity: spec_u64_from_le_bytes(b.subrange(9, 17)),
                translation: spec_decode_translation(b.subrange(17, 29)),
            },
        )
    } else if b[0] == 1 && b.len() == 9 {
        Some(ServerMessages::PlayerRemove { id: spec_u64_from_le_bytes(b.subrange(1, 9)) })
    } else if b[0] == 2 && b.len() == 21 {
        Some(
            ServerMessages::SpawnProjectile {
                entity: spec_u64_from_le_bytes(b.subrange(1, 9)),
                translation: spec_decode_translation(b.subrange(9, 21)),
            },
        )
    } else if b[0] == 3 && b.len() == 9 {
        Some(
            ServerMessages::DespawnProjectile { entity: spec_u64_from_le_bytes(b.subrange(1, 9)) },
        )
    } else if b[0] == 4 && b.len() == 29 {
        Some(
            ServerMessages::SpawnWorldBlock {
                entity: spec_u64_from_le_bytes(b.subrange(1, 9)),
                translation: spec_decode_translation(b.subrange(9, 21)),
                slot: spec_u64_from_le_bytes(b.subrange(21, 29)),
            },
        )
    } else if b[0] == 5 && b.len() == 9 {
        Some(
            ServerMessages::DespawnWorldBlock { entity: spec_u64_from_le_bytes(b.subrange(1, 9)) },
        )
    } else {
        None
    }
}

/// Lifecycle round trip: every message decodes back from its own encoding.
pub proof fn lemma_server_message_round_trip(m: ServerMessages)
    ensures
        spec_decode_server_message(spec_encode_server_message(m)) == Some(m),
{
    lemma_auto_spec_u64_to_from_le_bytes();
    let b = spec_encode_server_message(m);
    match m {
        ServerMessages::PlayerCreate { id, entity, translation } => {
            lemma_translation_round_trip(translation);
            assert(b.subrange(1, 9) =~= spec_u64_to_le_bytes(id));
            assert(b.subrange(9, 17) =~= spec_u64_to_le_bytes(entity));
            assert(b.subrange(17, 29) =~= spec_encode_translation(translation));
        },
        ServerMessages::PlayerRemove { id } => {
            assert(b.subrange(1, 9) =~= spec_u64_to_le_bytes(id));
        },
        ServerMessages::SpawnProjectile { entity, translation } => {
            lemma_translation_round_trip(translation);
            assert(b.subrange(1, 9) =~= spec_u64_to_le_bytes(entity));
            assert(b.subrange(9, 21) =~= spec_encode_translation(translation));
        },
        ServerMessages::DespawnProjectile { entity } => {
            assert(b.subrange(1, 9) =~= spec_u64_to_le_bytes(entity));
        },
        ServerMessages::SpawnWorldBlock { entity, translation, slot } => {
            lemma_translation_round_trip(translation);
            assert(b.subrange(1, 9) =~= spec_u64_to_le_bytes(entity));
            assert(b.subrange(9, 21) =~= spec_encode_translation(translation));
            assert(b.subrange(21, 29) =~= spec_u64_to_le_bytes(slot));
        },
        ServerMessages::DespawnWorldBlock { entity } => {
            assert(b.subrange(1, 9) =~= spec_u64_to_le_bytes(entity));
        },
    }
}

/// Appends a translation's twelve wire bytes.
fn push_translation(out: &mut Vec<u8>, t: Translation)
    ensures
        final(out)@ == old(out)@ + spec_encode_translation(t),
{
    let mut bx = u32_to_le_bytes(t.x);
    out.append(&mut bx);
    let mut by = u32_to_le_bytes(t.y);
    out.append(&mut by);
    let mut bz = u32_to_le_bytes(t.z);
    out.append(&mut bz);
    assert(out@ =~= old(out)@ + spec_encode_translation(t));
}

/// Decodes the twelve wire bytes of one translation.
fn decode_translation(b: &[u8]) -> (r: Translation)
    requires
        b@.len() == 12,
    ensures
        r == spec_decode_translation(b@),
{
    let x = u32_from_le_bytes(slice_subrange(b, 0, 4));
    let y = u32_from_le_bytes(slice_subrange(b, 4, 8));
    let z = u32_from_le_bytes(slice_subrange(b, 8, 12));
    Translation { x, y, z }
}

/// Encodes one lifecycle message for the reliable channel.
pub fn encode_server_message(m: &ServerMessages) -> (r: Vec<u8>)
    ensures
        r@ == spec_encode_server_message(*m),
{
    let mut out: Vec<u8> = Vec::new();
    match *m {
        ServerMessages::PlayerCreate { id, entity, translation } => {
            out.push(0u8);
            let mut b1 = u64_to_le_bytes(id);
            out.append(&mut b1);
            let mut b2 = u64_to_le_bytes(entity);
            out.append(&mut b2);
            push_translation(&mut out, translation);
        },
        ServerMessages::PlayerRemove { id } => {
            out.push(1u8);
            let mut b1 = u64_to_le_bytes(id);
            out.append(&mut b1);
        },
        ServerMessages::SpawnProjectile { entity, translation } => {
            out.push(2u8);
            let mut b1 = u64_to_le_bytes(entity);
            out.append(&mut b1);
            push_translation(&mut out, translation);
        },
        ServerMessages::DespawnProjectile { entity } => {
            out.push(3u8);
            let mut b1 = u64_to_le_bytes(entity);
            out.append(&mut b1);
        },
        ServerMessages::SpawnWorldBlock { entity, translation, slot } => {
            out.push(4u8);
            let mut b1 = u64_to_le_bytes(entity);
            out.append(&mut b1);
            push_translation(&mut out, translation);
            let mut b2 = u64_to_le_bytes(slot);
            out.append(&mut b2);
        },
        ServerMessages::DespawnWorldBlock { entity } => {
            out.push(5u8);
            let mut b1 = u64_to_le_bytes(entity);
            out.append(&mut b1);
        },
    }
    assert(out@ =~= spec_encode_server_message(*m));
    out
}

/// Decodes one lifecycle message from the reliable channel; `None` is a
/// schema mismatch, fatal to the session.
pub fn decode_server_message(b: &[u8]) -> (r: Option<ServerMessages>)
    ensures
        r == spec_decode_server_message(b@),
{
    if b.len() == 0 {
        return None;
    }
    let tag = b[0];
    let n = b.len();
    if tag == 0 && n == 29 {
        let id = u64_from_le_bytes(slice_subrange(b, 1, 9));
        let entity = u64_from_le_bytes(slice_subrange(b, 9, 17));
        let translation = decode_translation(slice_subrange(b, 17, 29));
        Some(ServerMessages::PlayerCreate { id, entity, translation })
    } else if tag == 1 && n == 9 {
        let id = u64_from_le_bytes(slice_subrange(b, 1, 9));
        Some(ServerMessages::PlayerRemove { id })
    } else if tag == 2 && n == 21 {
        let entity = u64_from_le_bytes(slice_subrange(b, 1, 9));
        let translation = decode_translation(slice_subrange(b, 9, 21));
        Some(ServerMessages::SpawnProjectile { entity, translation })
    } else if tag == 3 && n == 9 {
        let entity = u64_from_le_bytes(slice_subrange(b, 1, 9));
        Some(ServerMessages::DespawnProjectile { entity })
    } else if tag == 4 && n == 29 {
        let entity = u64_from_le_bytes(slice_subrange(b, 1, 9));
        let translation = decode_translation(slice_subrange(b, 9, 21));
        let slot = u64_from_le_bytes(slice_subrange(b, 21, 29));
        Some(ServerMessages::SpawnWorldBlock { entity, translation, slot })
    } else if tag == 5 && n == 9 {
        let entity = u64_from_le_bytes(slice_subrange(b, 1, 9));
        Some(ServerMessages::DespawnWorldBlock { entity })
    } else {
        None
    }
}

/// A command on the wire: discriminant byte, then the payload.
pub open spec fn spec_encode_player_command(c: PlayerCommand) -> Seq<u8> {
    match c {
        PlayerCommand::BasicAttack { cast_at } => seq![0u8] + spec_encode_translation(cast_at),
    }
}

/// The command read back from wire bytes; `None` is a schema mismatch.
pub open spec fn spec_decode_player_command(b: Seq<u8>) -> Option<PlayerCommand> {
    if b.len() == 13 && b[0] == 0 {
        Some(PlayerCommand::BasicAttack { cast_at: spec_decode_translation(b.subrange(1, 13)) })
    } else {
        None
    }
}

/// Command round trip: every command decodes back from its own encoding.
pub proof fn lemma_player_command_round_trip(c: PlayerCommand)
    ensures
        spec_decode_player_command(spec_encode_player_command(c)) == Some(c),
{
    match c {
        PlayerCommand::BasicAttack { cast_at } => {
            lemma_translation_round_trip(cast_at);
            let b = spec_encode_player_command(c);
            assert(b.subrange(1, 13) =~= spec_encode_translation(cast_at));
        },
    }
}

/// Encodes one command for the reliable client-to-server channel.
pub fn encode_player_command(c: &PlayerCommand) -> (r: Vec<u8>)
    ensures
        r@ == spec_encode_player_command(*c),
{
    let mut out: Vec<u8> = Vec::new();
    match *c {
        PlayerCommand::BasicAttack { cast_at } => {
            out.push(0u8);
            push_translation(&mut out, cast_at);
        },
    }
    assert(out@ =~= spec_encode_player_command(*c));
    out
}

/// Decodes one command from the reliable client-to-server channel.
pub fn decode_player_command(b: &[u8]) -> (r: Option<PlayerCommand>)
    ensures
        r == spec_decode_player_command(b@),
{
    if b.len() == 13 {
        if b[0] == 0 {
            let cast_at = decode_translation(slice_subrange(b, 1, 13));
            return Some(PlayerCommand::BasicAttack { cast_at });
        }
        return None;
    }
    None
}

/// An input message on the wire: the stated position alone, no
/// discriminant — the channel carries nothing else.
pub open spec fn spec_encode_player_input(p: PlayerInput) -> Seq<u8> {
    spec_encode_translation(p.position)
}

/// The input read back from wire bytes; `None` is a schema mismatch.
pub open spec fn spec_decode_player_input(b: Seq<u8>) -> Option<PlayerInput> {
    if b.len() == 12 {
        Some(PlayerInput { position: spec_decode_translation(b) })
    } else {
        None
    }
}

/// Input round trip: every input decodes back from its own encoding.
pub proof fn lemma_player_input_round_trip(p: PlayerInput)
    ensures
        spec_decode_player_input(spec_encode_player_input(p)) == Some(p),
{
    lemma_translation_round_trip(p.position);
}

/// Encodes the tick's input for the unreliable client-to-server channel.
pub fn encode_player_input(p: &PlayerInput) -> (r: Vec<u8>)
    ensures
        r@ == spec_encode_player_input(*p),
{
    let mut out: Vec<u8> = Vec::new();
    push_translation(&mut out, p.position);
    assert(out@ =~= spec_encode_player_input(*p));
    out
}

/// Decodes one input message from the unreliable channel.
pub fn decode_player_input(b: &[u8]) -> (r: Option<PlayerInput>)
    ensures
        r == spec_decode_player_input(b@),
{
    if b.len() == 12 {
        let position = decode_translation(b);
        Some(PlayerInput { position })
    } else {
        None
    }
}

/// A snapshot's entry list on the wire: for each pair, the entity
/// identifier then the translation, twenty bytes an entry, in order.
pub open spec fn spec_encode_pairs(es: Seq<u64>, ts: Seq<Translation>) -> Seq<u8>
    decreases es.len(),
{
    if es.len() == 0 || ts.len() == 0 {
        Seq::empty()
    } else {
        spec_u64_to_le_bytes(es.first()) + spec_encode_translation(ts.first())
            + spec_encode_pairs(es.drop_first(), ts.drop_first())
    }
}

/// A snapshot on the wire: the entry count, then the entries.
pub open spec fn spec_encode_snapshot(es: Seq<u64>, ts: Seq<Translation>) -> Seq<u8> {
    spec_u32_to_le_bytes(es.len() as u32) + spec_encode_pairs(es, ts)
}

/// `k` snapshot entries read back from wire bytes, which must hold exactly
/// them; `None` is a schema mismatch.
pub open spec fn spec_decode_pairs(b: Seq<u8>, k: nat) -> Option<(Seq<u64>, Seq<Translation>)>
    decreases k,
{
    if k == 0 {
        if b.len() == 0 {
            Some((Seq::empty(), Seq::empty()))
        } else {
            None
        }
    } else if b.len() < 20 {
        None
    } else {
        let e = spec_u64_from_le_bytes(b.subrange(0, 8));
        let t = spec_decode_translation(b.subrange(8, 20));
        match spec_decode_pairs(b.skip(20), (k - 1) as nat) {
            Some(rest) => Some((seq![e] + rest.0, seq![t] + rest.1)),
            None => None,
        }
    }
}

/// The snapshot columns read back from wire bytes.
pub open spec fn spec_decode_snapshot(b: Seq<u8>) -> Option<(Seq<u64>, Seq<Translation>)> {
    if b.len() < 4 {
        None
    } else {
        spec_decode_pairs(b.skip(4), spec_u32_from_le_bytes(b.subrange(0, 4)) as nat)
    }
}

/// Entry-list round trip: the encoding of equal-length columns is twenty
/// bytes an entry and decodes back to the columns.
pub proof fn lemma_pairs_round_trip(es: Seq<u64>, ts: Seq<Translation>)
    requires
        es.len() == ts.len(),
    ensures
        spec_encode_pairs(es, ts).len() == 20 * es.len(),
        spec_decode_pairs(spec_encode_pairs(es, ts), es.len() as nat) == Some((es, ts)),
    decreases es.len(),
{
    if es.len() > 0 {
        lemma_auto_spec_u64_to_from_le_bytes();
        lemma_translation_round_trip(ts.first());
        lemma_pairs_round_trip(es.drop_first(), ts.drop_first());
        let b = spec_encode_pairs(es, ts);
        assert(b.subrange(0, 8) =~= spec_u64_to_le_bytes(es.first()));
        assert(b.subrange(8, 20) =~= spec_encode_translation(ts.first()));
        assert(b.skip(20) =~= spec_encode_pairs(es.drop_first(), ts.drop_first()));
        assert(seq![es.first()] + es.drop_first() =~= es);
        assert(seq![ts.first()] + ts.drop_first() =~= ts);
    }
}

/// Snapshot round trip: every snapshot decodes back from its own encoding.
pub proof fn lemma_snapshot_round_trip(es: Seq<u64>, ts: Seq<Translation>)
    requires
        es.len() == ts.len(),
        es.len() <= u32::MAX,
    ensures
        spec_decode_snapshot(spec_encode_snapshot(es, ts)) == Some((es, ts)),
{
    lemma_auto_spec_u32_to_from_le_bytes();
    lemma_pairs_round_trip(es, ts);
    let b = spec_encode_snapshot(es, ts);
    assert(b.subrange(0, 4) =~= spec_u32_to_le_bytes(es.len() as u32));
    assert(b.skip(4) =~= spec_encode_pairs(es, ts));
}

/// Encodes the tick's snapshot for the unreliable channel.
pub fn encode_networked_entities(s: &NetworkedEntities) -> (r: Vec<u8>)
    requires
        s.wf(),
        s.entities@.len() <= u32::MAX,
    ensures
        r@ == spec_encode_snapshot(s.entities@, s.translations@),
{
    let ghost es = s.entities@;
    let ghost ts = s.translations@;
    let n = s.entities.len();
    let mut out = u32_to_le_bytes(n as u32);
    proof {
        assert(es.skip(0) =~= es);
        assert(ts.skip(0) =~= ts);
    }
    let mut i: usize = 0;
    while i < n
        invariant
            es == s.entities@,
            ts == s.translations@,
            n == es.len(),
            n == ts.len(),
            i <= n,
            out@ + spec_encode_pairs(es.skip(i as int), ts.skip(i as int))
                == spec_encode_snapshot(es, ts),
        decreases n - i,
    {
        let ghost rest_es = es.skip(i as int);
        let ghost rest_ts = ts.skip(i as int);
        proof {
            assert(rest_es.first() == es[i as int]);
            assert(rest_ts.first() == ts[i as int]);
            assert(rest_es.drop_first() =~= es.skip(i + 1));
            assert(rest_ts.drop_first() =~= ts.skip(i + 1));
        }
        let mut be = u64_to_le_bytes(s.entities[i]);
        out.append(&mut be);
        push_translation(&mut out, s.translations[i]);
        assert(out@ + spec_encode_pairs(es.skip(i + 1), ts.skip(i + 1)) =~= spec_encode_snapshot(
            es,
            ts,
        ));
        i = i + 1;
    }
    assert(es.skip(n as int) =~= Seq::<u64>::empty());
    assert(out@ =~= spec_encode_snapshot(es, ts));
    out
}

/// Decodes one snapshot from the unreliable channel; `None` is a schema
/// mismatch.
pub fn decode_networked_entities(b: &[u8]) -> (r: Option<NetworkedEntities>)
    ensures
        match r {
            Some(s) => s.wf() && spec_decode_snapshot(b@) == Some((s.entities@, s.translations@)),
            None => spec_decode_snapshot(b@) is None,
        },
{
    if b.len() < 4 {
        return None;
    }
    let k = u32_from_le_bytes(slice_subrange(b, 0, 4));
    let mut out = NetworkedEntities::new();
    let mut pos: usize = 4;
    let mut remaining = k;
    proof {
        assert(Seq::<u64>::empty() + Seq::<u64>::empty() =~= Seq::<u64>::empty());
    }
    while remaining > 0
        invariant
            4 <= pos <= b@.len(),
            remaining <= k,
            out.wf(),
            spec_decode_snapshot(b@) == spec_decode_pairs(b@.skip(4), k as nat),
            ({
                let whole = spec_decode_pairs(b@.skip(4), k as nat);
                let tail = spec_decode_pairs(b@.skip(pos as int), remaining as nat);
                whole == match tail {
                    Some(rest) => Some::<(Seq<u64>, Seq<Translation>)>(
                        (out.entities@ + rest.0, out.translations@ + rest.1),
                    ),
                    None => None::<(Seq<u64>, Seq<Translation>)>,
                }
            }),
        decreases remaining,
    {
        let ghost tail_bytes = b@.skip(pos as int);
        if b.len() - pos < 20 {
            return None;
        }
        let e = u64_from_le_bytes(slice_subrange(b, pos, pos + 8));
        let t = decode_translation(slice_subrange(b, pos + 8, pos + 20));
        proof {
            assert(tail_bytes.subrange(0, 8) =~= b@.subrange(pos as int, pos + 8));
            assert(tail_bytes.subrange(8, 20) =~= b@.subrange(pos + 8, pos + 20));
            assert(tail_bytes.skip(20) =~= b@.skip(pos + 20));
        }
        let ghost pre_es = out.entities@;
        let ghost pre_ts = out.translations@;
        out.push(e, t);
        proof {
            let tail1 = spec_decode_pairs(b@.skip(pos + 20), (remaining - 1) as nat);
            match tail1 {
                Some(rest) => {
                    assert(pre_es + (seq![e] + rest.0) =~= out.entities@ + rest.0);
                    assert(pre_ts + (seq![t] + rest.1) =~= out.translations@ + rest.1);
                },
                None => {},
            }
        }
        pos = pos + 20;
        remaining = remaining - 1;
    }
    if pos != b.len() {
        return None;
    }
    proof {
        assert(b@.skip(pos as int).len() == 0);
        assert(out.entities@ + Seq::<u64>::empty() =~= out.entities@);
        assert(out.translations@ + Seq::<Translation>::empty() =~= out.translations@);
    }
    Some(out)
}

/// A length-prefixed frame: the payload's length, then the payload. For a
/// byte-stream transport that does not preserve message boundaries.
pub open spec fn spec_frame(payload: Seq<u8>) -> Seq<u8> {
    spec_u32_to_le_bytes(payload.len() as u32) + payload
}

/// The payload read back from a frame; `None` when the prefix and the
/// length disagree.
pub open spec fn spec_unframe(b: Seq<u8>) -> Option<Seq<u8>> {
    if b.len() >= 4 && spec_u32_from_le_bytes(b.subrange(0, 4)) == b.len() - 4 {
        Some(b.skip(4))
    } else {
        None
    }
}

/// Frame round trip: every payload comes back out of its own frame.
pub proof fn lemma_frame_round_trip(payload: Seq<u8>)
    requires
        payload.len() <= u32::MAX,
    ensures
        spec_unframe(spec_frame(payload)) == Some(payload),
{
    lemma_auto_spec_u32_to_from_le_bytes();
    let b = spec_frame(payload);
    assert(b.subrange(0, 4) =~= spec_u32_to_le_bytes(payload.len() as u32));
    assert(b.skip(4) =~= payload);
}

/// Wraps an encoded message in a length-prefixed frame.
pub fn frame_message(payload: &Vec<u8>) -> (r: Vec<u8>)
    requires
        payload@.len() <= u32::MAX,
    ensures
        r@ == spec_frame(payload@),
{
    let n = payload.len();
    let mut out = u32_to_le_bytes(n as u32);
    let mut body = slice_to_vec(payload.as_slice());
    out.append(&mut body);
    assert(out@ =~= spec_frame(payload@));
    out
}

/// Unwraps a length-prefixed frame, checking the prefix against the bytes
/// actually present.
pub fn unframe_message(b: &[u8]) -> (r: Option<Vec<u8>>)
    ensures
        match r {
            Some(p) => spec_unframe(b@) == Some(p@),
            None => spec_unframe(b@) is None,
        },
{
    if b.len() < 4 {
        return None;
    }
    let n = u32_from_le_bytes(slice_subrange(b, 0, 4));
    if n as usize != b.len() - 4 {
        return None;
    }
    let payload = slice_to_vec(slice_subrange(b, 4, b.len()));
    assert(payload@ =~= b@.skip(4));
    Some(payload)
}

} // verus!
