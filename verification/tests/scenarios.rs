use replication::client::ClientStore;
use replication::protocol::{PlayerInput, ServerMessages, Translation};
use replication::server::{ServerStore, PROJECTILE_LIFETIME_TICKS};

fn t(x: u32, y: u32, z: u32) -> Translation {
    Translation { x, y, z }
}

// A late joiner is told about every pre-existing entity, before the first
// snapshot it processes can reference those identifiers meaningfully.
#[test]
fn catch_up_completeness_for_late_joiner() {
    let mut server = ServerStore::new();
    let _ = server.handle_connect(101, t(1, 0, 0));
    let _ = server.handle_connect(102, t(2, 0, 0));
    let _ = server.handle_connect(103, t(3, 0, 0));
    let _ = server.spawn_world_block(5, t(0, 20, 0));

    let (catch_up, broadcast) = server.handle_connect(104, t(4, 0, 0));
    // exactly four lifecycle messages: three players and one world block
    assert_eq!(catch_up.len(), 4);
    assert_eq!(
        catch_up
            .iter()
            .filter(|m| matches!(m, ServerMessages::PlayerCreate { .. }))
            .count(),
        3
    );
    assert_eq!(
        catch_up
            .iter()
            .filter(|m| matches!(m, ServerMessages::SpawnWorldBlock { .. }))
            .count(),
        1
    );

    // the new client drains the reliable channel first...
    let mut client = ClientStore::new(104);
    for m in &catch_up {
        client.apply_server_message(m);
    }
    client.apply_server_message(&broadcast);
    // ...so the first snapshot finds every identifier already mapped
    let snap = server.build_snapshot();
    assert_eq!(snap.entities.len(), 5);
    for e in &snap.entities {
        assert!(client.mapping.0.get(*e).is_some());
    }
    let before = client.locals.len();
    client.apply_snapshot(&snap);
    assert_eq!(client.locals.len(), before);
}

// A disconnect empties the lobby entry, is broadcast once, and clears the
// other clients' mapping entry for the leaver's entity.
#[test]
fn disconnect_cleanup_reaches_every_store() {
    let mut server = ServerStore::new();
    let (_, create_a) = server.handle_connect(101, t(1, 0, 0));
    let (_, create_b) = server.handle_connect(102, t(2, 0, 0));

    let mut other = ClientStore::new(101);
    other.apply_server_message(&create_a);
    other.apply_server_message(&create_b);
    let b_entity = match create_b {
        ServerMessages::PlayerCreate { entity, .. } => entity,
        _ => unreachable!(),
    };
    assert!(other.mapping.0.get(b_entity).is_some());

    let remove = server.handle_disconnect(102);
    assert_eq!(server.player_entity(102), None);
    assert_eq!(remove, ServerMessages::PlayerRemove { id: 102 });

    other.apply_server_message(&remove);
    assert!(other.mapping.0.get(b_entity).is_none());
    assert!(other.lobby.players.get(102).is_none());
    assert_eq!(other.locals.len(), 1);
}

// Dropping every third snapshot neither loses nor duplicates an entity, and
// positions converge to the authoritative state as soon as any snapshot
// arrives.
#[test]
fn loss_tolerance_under_dropped_snapshots() {
    let mut server = ServerStore::new();
    let (_, create_a) = server.handle_connect(101, t(1, 0, 0));
    let (_, create_b) = server.handle_connect(102, t(2, 0, 0));

    let mut client = ClientStore::new(103);
    client.apply_server_message(&create_a);
    client.apply_server_message(&create_b);

    for tick in 0u32..12 {
        // the players state fresh positions every tick
        server.apply_input(101, PlayerInput { position: t(tick, 0, 0) });
        server.apply_input(102, PlayerInput { position: t(0, tick, 0) });
        let snap = server.build_snapshot();
        if tick % 3 == 2 {
            // this snapshot is lost on the wire
            continue;
        }
        client.apply_snapshot(&snap);
    }

    // no entity was duplicated or lost by the drops
    assert_eq!(client.locals.len(), 2);
    assert_eq!(client.mapping.0.len(), 2);
    // the last applied snapshot was tick 10; the client has caught up to it
    let la = client.mapping.0.get(server.player_entity(101).unwrap()).unwrap();
    let lb = client.mapping.0.get(server.player_entity(102).unwrap()).unwrap();
    assert_eq!(client.locals.get(la).unwrap().translation, t(10, 0, 0));
    assert_eq!(client.locals.get(lb).unwrap().translation, t(0, 10, 0));
    // one more received snapshot closes the gap entirely
    client.apply_snapshot(&server.build_snapshot());
    assert_eq!(client.locals.get(la).unwrap().translation, t(11, 0, 0));
    assert_eq!(server.player_translation(101).unwrap(), t(11, 0, 0));
}

// One basic-attack command yields exactly one projectile spawn broadcast,
// and the projectile's fixed lifetime ends in exactly one matching despawn.
#[test]
fn command_effect_spawns_once_and_despawns_once() {
    let mut server = ServerStore::new();
    let (_, create) = server.handle_connect(101, t(1, 0, 0));
    let mut client = ClientStore::new(101);
    client.apply_server_message(&create);

    // the caster's position offset toward the target, computed at the edge
    let spawn_at = t(8, 1, 8);
    let (entity, spawn_msg) = server.cast_projectile(101, spawn_at).unwrap();
    assert_eq!(
        spawn_msg,
        ServerMessages::SpawnProjectile { entity, translation: spawn_at }
    );
    client.apply_server_message(&spawn_msg);
    assert_eq!(client.locals.len(), 2);

    let mut despawns = Vec::new();
    for _ in 0..PROJECTILE_LIFETIME_TICKS {
        despawns.extend(server.tick_projectiles());
    }
    // exactly one despawn, referencing the spawned entity
    assert_eq!(despawns, vec![ServerMessages::DespawnProjectile { entity }]);

    for m in &despawns {
        client.apply_server_message(m);
    }
    assert_eq!(client.locals.len(), 1);
    assert!(client.mapping.0.get(entity).is_none());
}
