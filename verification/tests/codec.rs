use replication::codec::{
    decode_networked_entities, decode_player_command, decode_player_input, decode_server_message,
    encode_networked_entities, encode_player_command, encode_player_input, encode_server_message,
    frame_message, unframe_message,
};
use replication::protocol::{NetworkedEntities, PlayerCommand, PlayerInput, ServerMessages, Translation};

fn t(x: u32, y: u32, z: u32) -> Translation {
    Translation { x, y, z }
}

#[test]
fn server_message_round_trips() {
    let msgs = vec![
        ServerMessages::PlayerCreate { id: 7, entity: 42, translation: t(1, 2, 3) },
        ServerMessages::PlayerRemove { id: 7 },
        ServerMessages::SpawnProjectile { entity: 9, translation: t(4, 5, 6) },
        ServerMessages::DespawnProjectile { entity: 9 },
        ServerMessages::SpawnWorldBlock { entity: 11, translation: t(0, 20, 0), slot: 987654321 },
        ServerMessages::DespawnWorldBlock { entity: 11 },
    ];
    for m in msgs {
        let bytes = encode_server_message(&m);
        assert_eq!(decode_server_message(&bytes), Some(m));
    }
}

#[test]
fn player_remove_exact_bytes() {
    let bytes = encode_server_message(&ServerMessages::PlayerRemove { id: 1 });
    assert_eq!(bytes, vec![1u8, 1, 0, 0, 0, 0, 0, 0, 0]);
}

#[test]
fn player_create_exact_bytes() {
    let m = ServerMessages::PlayerCreate {
        id: 0x0102030405060708,
        entity: 2,
        translation: t(1, 0x100, 0xFFFFFFFF),
    };
    let bytes = encode_server_message(&m);
    let mut expected = vec![0u8];
    expected.extend_from_slice(&[8, 7, 6, 5, 4, 3, 2, 1]);
    expected.extend_from_slice(&[2, 0, 0, 0, 0, 0, 0, 0]);
    expected.extend_from_slice(&[1, 0, 0, 0]);
    expected.extend_from_slice(&[0, 1, 0, 0]);
    expected.extend_from_slice(&[0xFF, 0xFF, 0xFF, 0xFF]);
    assert_eq!(bytes, expected);
}

#[test]
fn translations_carry_float_words_losslessly() {
    let pos = [-19.25f32, 0.51f32, 17.0f32];
    let m = ServerMessages::SpawnProjectile {
        entity: 3,
        translation: t(pos[0].to_bits(), pos[1].to_bits(), pos[2].to_bits()),
    };
    let bytes = encode_server_message(&m);
    match decode_server_message(&bytes) {
        Some(ServerMessages::SpawnProjectile { entity, translation }) => {
            assert_eq!(entity, 3);
            assert_eq!(f32::from_bits(translation.x), -19.25f32);
            assert_eq!(f32::from_bits(translation.y), 0.51f32);
            assert_eq!(f32::from_bits(translation.z), 17.0f32);
        },
        other => panic!("wrong decode: {:?}", other),
    }
}

#[test]
fn decode_rejects_schema_mismatch() {
    assert_eq!(decode_server_message(&[]), None);
    assert_eq!(decode_server_message(&[9, 0, 0, 0, 0, 0, 0, 0, 0]), None);
    // right tag, wrong length
    assert_eq!(decode_server_message(&[1, 1, 0, 0]), None);
    let mut bytes = encode_server_message(&ServerMessages::PlayerRemove { id: 1 });
    bytes.push(0);
    assert_eq!(decode_server_message(&bytes), None);
}

#[test]
fn player_command_round_trip_and_bytes() {
    let c = PlayerCommand::BasicAttack { cast_at: t(5, 6, 7) };
    let bytes = encode_player_command(&c);
    assert_eq!(
        bytes,
        vec![0u8, 5, 0, 0, 0, 6, 0, 0, 0, 7, 0, 0, 0]
    );
    assert_eq!(decode_player_command(&bytes), Some(c));
    assert_eq!(decode_player_command(&bytes[..12]), None);
    assert_eq!(decode_player_command(&[1u8, 0, 0, 0, 0, 0, 0, 0, 0, 0, 0, 0, 0]), None);
}

#[test]
fn player_input_round_trip_and_bytes() {
    let p = PlayerInput { position: t(1, 2, 3) };
    let bytes = encode_player_input(&p);
    assert_eq!(bytes, vec![1u8, 0, 0, 0, 2, 0, 0, 0, 3, 0, 0, 0]);
    assert_eq!(decode_player_input(&bytes), Some(p));
    assert_eq!(decode_player_input(&bytes[..11]), None);
}

#[test]
fn snapshot_round_trip() {
    let mut s = NetworkedEntities::new();
    s.push(1, t(10, 11, 12));
    s.push(2, t(20, 21, 22));
    s.push(u64::MAX, t(0, 0, 0));
    let bytes = encode_networked_entities(&s);
    assert_eq!(bytes.len(), 4 + 3 * 20);
    assert_eq!(&bytes[..4], &[3, 0, 0, 0]);
    let back = decode_networked_entities(&bytes).unwrap();
    assert_eq!(back.entities, s.entities);
    assert_eq!(back.translations, s.translations);
}

#[test]
fn empty_snapshot_round_trip() {
    let s = NetworkedEntities::new();
    let bytes = encode_networked_entities(&s);
    assert_eq!(bytes, vec![0u8, 0, 0, 0]);
    let back = decode_networked_entities(&bytes).unwrap();
    assert!(back.entities.is_empty());
    assert!(back.translations.is_empty());
}

#[test]
fn snapshot_decode_rejects_bad_shapes() {
    assert_eq!(decode_networked_entities(&[]), None);
    assert_eq!(decode_networked_entities(&[0, 0]), None);
    // count says one entry, no bytes follow
    assert_eq!(decode_networked_entities(&[1, 0, 0, 0]), None);
    // count says none, trailing junk follows
    assert_eq!(decode_networked_entities(&[0, 0, 0, 0, 5]), None);
    // one entry, truncated payload
    let mut s = NetworkedEntities::new();
    s.push(1, t(1, 2, 3));
    let bytes = encode_networked_entities(&s);
    assert_eq!(decode_networked_entities(&bytes[..bytes.len() - 1]), None);
}

#[test]
fn frame_round_trip_and_mismatch() {
    let payload = encode_server_message(&ServerMessages::PlayerRemove { id: 3 });
    let framed = frame_message(&payload);
    assert_eq!(&framed[..4], &[9, 0, 0, 0]);
    assert_eq!(unframe_message(&framed), Some(payload));
    assert_eq!(unframe_message(&framed[..framed.len() - 1]), None);
    assert_eq!(unframe_message(&[0, 0]), None);
}
