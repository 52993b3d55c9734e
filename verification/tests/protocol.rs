use replication::protocol::{ClientChannel, NetworkedEntities, ServerChannel, Translation};
use replication::{accepts_protocol, PROTOCOL_ID};

#[test]
fn handshake_accepts_only_the_own_protocol_tag() {
    assert!(accepts_protocol(PROTOCOL_ID));
    assert!(!accepts_protocol(PROTOCOL_ID + 1));
    assert!(!accepts_protocol(0));
}

#[test]
fn channel_disciplines_match_their_purpose() {
    // lifecycle events must never be lost; snapshots may be
    assert!(ServerChannel::ServerMessages.reliable());
    assert!(!ServerChannel::NetworkedEntities.reliable());
    // commands must never be lost; superseded inputs may be
    assert!(ClientChannel::Command.reliable());
    assert!(!ClientChannel::Input.reliable());
}

#[test]
fn channel_identifiers_are_distinct_within_a_direction() {
    assert_ne!(
        ServerChannel::ServerMessages.channel_id(),
        ServerChannel::NetworkedEntities.channel_id()
    );
    assert_ne!(ClientChannel::Input.channel_id(), ClientChannel::Command.channel_id());
}

#[test]
fn snapshot_columns_stay_parallel() {
    let mut s = NetworkedEntities::new();
    s.push(1, Translation { x: 1, y: 2, z: 3 });
    s.push(2, Translation { x: 4, y: 5, z: 6 });
    assert_eq!(s.entities.len(), s.translations.len());
    assert_eq!(s.entities, vec![1, 2]);
}
