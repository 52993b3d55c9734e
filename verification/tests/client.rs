use replication::client::ClientStore;
use replication::protocol::{NetworkedEntities, ServerMessages, Translation};

fn t(x: u32, y: u32, z: u32) -> Translation {
    Translation { x, y, z }
}

#[test]
fn fresh_store_is_empty() {
    let c = ClientStore::new(7);
    assert_eq!(c.own_id, 7);
    assert_eq!(c.mapping.0.len(), 0);
    assert_eq!(c.lobby.players.len(), 0);
    assert_eq!(c.locals.len(), 0);
}

#[test]
fn player_create_maps_and_registers() {
    let mut c = ClientStore::new(7);
    c.apply_server_message(&ServerMessages::PlayerCreate {
        id: 100,
        entity: 42,
        translation: t(1, 2, 3),
    });
    let local = c.mapping.0.get(42).unwrap();
    let info = c.lobby.players.get(100).unwrap();
    assert_eq!(info.server_entity, 42);
    assert_eq!(info.client_entity, local);
    let le = c.locals.get(local).unwrap();
    assert_eq!(le.translation, t(1, 2, 3));
    assert!(!le.controlled);
}

#[test]
fn own_player_create_is_tagged_controlled() {
    let mut c = ClientStore::new(7);
    c.apply_server_message(&ServerMessages::PlayerCreate {
        id: 7,
        entity: 42,
        translation: t(1, 2, 3),
    });
    let local = c.mapping.0.get(42).unwrap();
    assert!(c.locals.get(local).unwrap().controlled);
}

#[test]
fn player_remove_resolves_through_the_lobby_mirror() {
    let mut c = ClientStore::new(7);
    c.apply_server_message(&ServerMessages::PlayerCreate {
        id: 100,
        entity: 42,
        translation: t(1, 2, 3),
    });
    c.apply_server_message(&ServerMessages::PlayerRemove { id: 100 });
    assert_eq!(c.mapping.0.len(), 0);
    assert_eq!(c.lobby.players.len(), 0);
    assert_eq!(c.locals.len(), 0);
}

#[test]
fn player_remove_of_unknown_connection_is_a_no_op() {
    let mut c = ClientStore::new(7);
    c.apply_server_message(&ServerMessages::PlayerCreate {
        id: 100,
        entity: 42,
        translation: t(1, 2, 3),
    });
    c.apply_server_message(&ServerMessages::PlayerRemove { id: 999 });
    assert_eq!(c.mapping.0.len(), 1);
    assert_eq!(c.locals.len(), 1);
}

#[test]
fn spawn_then_despawn_unbinds_and_destroys() {
    let mut c = ClientStore::new(7);
    c.apply_server_message(&ServerMessages::SpawnProjectile { entity: 9, translation: t(4, 5, 6) });
    assert_eq!(c.mapping.0.len(), 1);
    assert_eq!(c.locals.len(), 1);
    c.apply_server_message(&ServerMessages::DespawnProjectile { entity: 9 });
    assert_eq!(c.mapping.0.len(), 0);
    assert_eq!(c.locals.len(), 0);
}

#[test]
fn despawn_of_unmapped_identifier_is_a_no_op() {
    let mut c = ClientStore::new(7);
    c.apply_server_message(&ServerMessages::SpawnWorldBlock {
        entity: 11,
        translation: t(0, 20, 0),
        slot: 5,
    });
    // never mapped
    c.apply_server_message(&ServerMessages::DespawnProjectile { entity: 999 });
    // already removed
    c.apply_server_message(&ServerMessages::DespawnWorldBlock { entity: 11 });
    c.apply_server_message(&ServerMessages::DespawnWorldBlock { entity: 11 });
    assert_eq!(c.mapping.0.len(), 0);
    assert_eq!(c.locals.len(), 0);
}

#[test]
fn second_spawn_of_same_identifier_overwrites_never_duplicates() {
    let mut c = ClientStore::new(7);
    c.apply_server_message(&ServerMessages::SpawnProjectile { entity: 9, translation: t(1, 1, 1) });
    let first_local = c.mapping.0.get(9).unwrap();
    c.apply_server_message(&ServerMessages::SpawnProjectile { entity: 9, translation: t(2, 2, 2) });
    // still exactly one mapping entry, rebound to the newer local entity
    assert_eq!(c.mapping.0.len(), 1);
    let second_local = c.mapping.0.get(9).unwrap();
    assert_ne!(first_local, second_local);
}

#[test]
fn snapshot_moves_mapped_entities() {
    let mut c = ClientStore::new(7);
    c.apply_server_message(&ServerMessages::PlayerCreate {
        id: 100,
        entity: 42,
        translation: t(1, 2, 3),
    });
    let local = c.mapping.0.get(42).unwrap();
    let mut snap = NetworkedEntities::new();
    snap.push(42, t(9, 9, 9));
    c.apply_snapshot(&snap);
    assert_eq!(c.locals.get(local).unwrap().translation, t(9, 9, 9));
}

#[test]
fn snapshot_never_creates_an_entity() {
    let mut c = ClientStore::new(7);
    c.apply_server_message(&ServerMessages::PlayerCreate {
        id: 100,
        entity: 42,
        translation: t(1, 2, 3),
    });
    let mut snap = NetworkedEntities::new();
    snap.push(42, t(9, 9, 9));
    snap.push(77, t(8, 8, 8));
    c.apply_snapshot(&snap);
    assert_eq!(c.locals.len(), 1);
    assert_eq!(c.mapping.0.len(), 1);
    assert!(c.mapping.0.get(77).is_none());
}

#[test]
fn empty_snapshot_changes_nothing() {
    let mut c = ClientStore::new(7);
    c.apply_server_message(&ServerMessages::SpawnProjectile { entity: 9, translation: t(1, 1, 1) });
    let snap = NetworkedEntities::new();
    c.apply_snapshot(&snap);
    assert_eq!(c.locals.len(), 1);
    let local = c.mapping.0.get(9).unwrap();
    assert_eq!(c.locals.get(local).unwrap().translation, t(1, 1, 1));
}

#[test]
fn snapshot_does_not_move_the_controlled_player() {
    let mut c = ClientStore::new(7);
    c.apply_server_message(&ServerMessages::PlayerCreate {
        id: 7,
        entity: 42,
        translation: t(1, 2, 3),
    });
    let local = c.mapping.0.get(42).unwrap();
    let mut snap = NetworkedEntities::new();
    snap.push(42, t(9, 9, 9));
    c.apply_snapshot(&snap);
    // the local camera is authoritative for this one entity
    assert_eq!(c.locals.get(local).unwrap().translation, t(1, 2, 3));
}

#[test]
fn local_identifiers_are_never_reused() {
    let mut c = ClientStore::new(7);
    c.apply_server_message(&ServerMessages::SpawnProjectile { entity: 9, translation: t(1, 1, 1) });
    let first = c.mapping.0.get(9).unwrap();
    c.apply_server_message(&ServerMessages::DespawnProjectile { entity: 9 });
    c.apply_server_message(&ServerMessages::SpawnProjectile { entity: 9, translation: t(2, 2, 2) });
    let second = c.mapping.0.get(9).unwrap();
    assert_ne!(first, second);
}
