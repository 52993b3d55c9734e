use replication::protocol::{PlayerInput, ServerMessages, Translation};
use replication::server::{ServerStore, PROJECTILE_LIFETIME_TICKS};

fn t(x: u32, y: u32, z: u32) -> Translation {
    Translation { x, y, z }
}

#[test]
fn first_connect_gets_empty_catch_up() {
    let mut s = ServerStore::new();
    let (catch_up, broadcast) = s.handle_connect(100, t(1, 2, 3));
    assert!(catch_up.is_empty());
    assert_eq!(
        broadcast,
        ServerMessages::PlayerCreate { id: 100, entity: 0, translation: t(1, 2, 3) }
    );
    assert_eq!(s.player_entity(100), Some(0));
    assert_eq!(s.player_translation(100), Some(t(1, 2, 3)));
}

#[test]
fn second_connect_catches_up_on_first_player() {
    let mut s = ServerStore::new();
    let _ = s.handle_connect(100, t(1, 2, 3));
    let (catch_up, broadcast) = s.handle_connect(200, t(4, 5, 6));
    assert_eq!(
        catch_up,
        vec![ServerMessages::PlayerCreate { id: 100, entity: 0, translation: t(1, 2, 3) }]
    );
    assert_eq!(
        broadcast,
        ServerMessages::PlayerCreate { id: 200, entity: 1, translation: t(4, 5, 6) }
    );
}

#[test]
fn disconnect_removes_lobby_entry_and_entity() {
    let mut s = ServerStore::new();
    let _ = s.handle_connect(100, t(1, 2, 3));
    let _ = s.handle_connect(200, t(4, 5, 6));
    let msg = s.handle_disconnect(100);
    assert_eq!(msg, ServerMessages::PlayerRemove { id: 100 });
    assert_eq!(s.player_entity(100), None);
    assert_eq!(s.entities.len(), 1);
    assert_eq!(s.player_entity(200), Some(1));
}

#[test]
fn disconnect_of_unknown_client_changes_nothing_but_still_announces() {
    let mut s = ServerStore::new();
    let _ = s.handle_connect(100, t(1, 2, 3));
    let msg = s.handle_disconnect(999);
    assert_eq!(msg, ServerMessages::PlayerRemove { id: 999 });
    assert_eq!(s.entities.len(), 1);
    assert_eq!(s.player_entity(100), Some(0));
}

#[test]
fn input_overwrites_player_translation() {
    let mut s = ServerStore::new();
    let _ = s.handle_connect(100, t(1, 2, 3));
    s.apply_input(100, PlayerInput { position: t(9, 9, 9) });
    assert_eq!(s.player_translation(100), Some(t(9, 9, 9)));
    // last write wins
    s.apply_input(100, PlayerInput { position: t(7, 7, 7) });
    assert_eq!(s.player_translation(100), Some(t(7, 7, 7)));
}

#[test]
fn input_from_unknown_client_is_dropped() {
    let mut s = ServerStore::new();
    let _ = s.handle_connect(100, t(1, 2, 3));
    s.apply_input(999, PlayerInput { position: t(9, 9, 9) });
    assert_eq!(s.player_translation(100), Some(t(1, 2, 3)));
}

#[test]
fn cast_spawns_exactly_one_projectile() {
    let mut s = ServerStore::new();
    let _ = s.handle_connect(100, t(1, 2, 3));
    let before = s.entities.len();
    let (entity, msg) = s.cast_projectile(100, t(8, 1, 8)).unwrap();
    assert_eq!(msg, ServerMessages::SpawnProjectile { entity, translation: t(8, 1, 8) });
    assert_eq!(s.entities.len(), before + 1);
}

#[test]
fn cast_from_unknown_client_spawns_nothing() {
    let mut s = ServerStore::new();
    assert!(s.cast_projectile(999, t(8, 1, 8)).is_none());
    assert_eq!(s.entities.len(), 0);
}

#[test]
fn world_block_spawn_carries_feed_slot() {
    let mut s = ServerStore::new();
    let (entity, msg) = s.spawn_world_block(987654321, t(0, 20, 0));
    assert_eq!(
        msg,
        ServerMessages::SpawnWorldBlock { entity, translation: t(0, 20, 0), slot: 987654321 }
    );
    assert_eq!(s.entities.len(), 1);
}

#[test]
fn bot_spawn_allocates_synthetic_ids() {
    let mut s = ServerStore::new();
    let (bot_id, entity, msg) = s.spawn_bot(t(1, 1, 1)).unwrap();
    assert_eq!(bot_id, 0);
    assert_eq!(msg, ServerMessages::PlayerCreate { id: 0, entity, translation: t(1, 1, 1) });
    let (bot_id2, _, _) = s.spawn_bot(t(2, 2, 2)).unwrap();
    assert_eq!(bot_id2, 1);
}

#[test]
fn bot_spawn_refuses_taken_identifier() {
    let mut s = ServerStore::new();
    // a transport-assigned client already holds identifier 0
    let _ = s.handle_connect(0, t(1, 2, 3));
    assert!(s.spawn_bot(t(2, 2, 2)).is_none());
    // the allocator has moved on, so the next bot fits
    assert!(s.spawn_bot(t(2, 2, 2)).is_some());
}

#[test]
fn projectile_expires_after_its_fixed_lifetime_with_one_despawn() {
    let mut s = ServerStore::new();
    let _ = s.handle_connect(100, t(1, 2, 3));
    let (entity, _) = s.cast_projectile(100, t(8, 1, 8)).unwrap();
    for _ in 0..PROJECTILE_LIFETIME_TICKS - 1 {
        assert!(s.tick_projectiles().is_empty());
    }
    let msgs = s.tick_projectiles();
    assert_eq!(msgs, vec![ServerMessages::DespawnProjectile { entity }]);
    // only the player is left
    assert_eq!(s.entities.len(), 1);
    // a later sweep despawns nothing further
    assert!(s.tick_projectiles().is_empty());
}

#[test]
fn staggered_projectiles_expire_separately_in_spawn_order() {
    let mut s = ServerStore::new();
    let _ = s.handle_connect(100, t(1, 2, 3));
    let (first, _) = s.cast_projectile(100, t(5, 1, 5)).unwrap();
    for _ in 0..3 {
        assert!(s.tick_projectiles().is_empty());
    }
    let (second, _) = s.cast_projectile(100, t(6, 1, 6)).unwrap();
    for _ in 0..PROJECTILE_LIFETIME_TICKS - 4 {
        assert!(s.tick_projectiles().is_empty());
    }
    assert_eq!(s.tick_projectiles(), vec![ServerMessages::DespawnProjectile { entity: first }]);
    for _ in 0..2 {
        assert!(s.tick_projectiles().is_empty());
    }
    assert_eq!(s.tick_projectiles(), vec![ServerMessages::DespawnProjectile { entity: second }]);
}

#[test]
fn collision_destroys_block_and_announces_it_once() {
    let mut s = ServerStore::new();
    let _ = s.handle_connect(100, t(1, 2, 3));
    let (proj, _) = s.cast_projectile(100, t(8, 1, 8)).unwrap();
    let (block, _) = s.spawn_world_block(5, t(0, 20, 0));
    let msg = s.handle_collision(proj, block, true);
    assert_eq!(msg, Some(ServerMessages::DespawnWorldBlock { entity: block }));
    // the block is gone, the projectile is not
    assert_eq!(s.entities.len(), 2);
    // a second report of the same contact is a no-op
    assert_eq!(s.handle_collision(proj, block, true), None);
}

#[test]
fn collision_arguments_commute() {
    let mut s = ServerStore::new();
    let _ = s.handle_connect(100, t(1, 2, 3));
    let (proj, _) = s.cast_projectile(100, t(8, 1, 8)).unwrap();
    let (block, _) = s.spawn_world_block(5, t(0, 20, 0));
    let msg = s.handle_collision(block, proj, true);
    assert_eq!(msg, Some(ServerMessages::DespawnWorldBlock { entity: block }));
}

#[test]
fn collision_of_other_pairings_or_contact_end_is_ignored() {
    let mut s = ServerStore::new();
    let _ = s.handle_connect(100, t(1, 2, 3));
    let _ = s.handle_connect(200, t(4, 5, 6));
    let (proj, _) = s.cast_projectile(100, t(8, 1, 8)).unwrap();
    let (block, _) = s.spawn_world_block(5, t(0, 20, 0));
    assert_eq!(s.handle_collision(0, 1, true), None);
    assert_eq!(s.handle_collision(proj, 0, true), None);
    assert_eq!(s.handle_collision(proj, block, false), None);
    assert_eq!(s.entities.len(), 4);
}

#[test]
fn snapshot_lists_every_live_entity_in_store_order() {
    let mut s = ServerStore::new();
    let _ = s.handle_connect(100, t(1, 2, 3));
    let (proj, _) = s.cast_projectile(100, t(8, 1, 8)).unwrap();
    let (block, _) = s.spawn_world_block(5, t(0, 20, 0));
    let snap = s.build_snapshot();
    assert_eq!(snap.entities, vec![0, proj, block]);
    assert_eq!(snap.translations, vec![t(1, 2, 3), t(8, 1, 8), t(0, 20, 0)]);
}
