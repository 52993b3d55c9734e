//! Server authority store: the canonical record of every replicated entity,
//! the lobby of connected clients, and the per-tick operations of the
//! reconciliation loop.
//!
//! Every operation that removes an entity from the store returns the despawn
//! notification that must be broadcast in the same tick: destruction and
//! notification are coupled in each contract, so an entity can never leave
//! the authoritative store without its reliable notification.

use vstd::prelude::*;

use crate::idmap::{
    distinct_keys, index_of_key, lemma_distinct_drop_last, lemma_map_of_contains,
    lemma_map_of_index, map_of, IdMap,
};
use crate::protocol::{NetworkedEntities, PlayerInput, ServerMessages, Translation};

verus! {

/// Ticks a projectile lives after it is spawned.
pub const PROJECTILE_LIFETIME_TICKS: u32 = 90;

/// The category of a replicated entity, with its category-specific state.
#[derive(Clone, Copy, Debug, PartialEq, Eq, Structural)]
pub enum EntityKind {
    /// Controlled by the connection that owns it.
    Player { owner: u64 },
    /// Lives for `ttl` more ticks, then despawns.
    Projectile { ttl: u32 },
    /// Spawned from the periodic external feed; `slot` is the feed's
    /// sequence number.
    WorldBlock { slot: u64 },
}

/// The authoritative state of one replicated entity.
#[derive(Clone, Copy, Debug, PartialEq, Eq, Structural)]
pub struct EntityData {
    pub kind: EntityKind,
    pub translation: Translation,
}

/// The lobby: one live entry per connected client, from connection
/// identifier to the client's player entity.
pub struct ServerLobby {
    pub players: IdMap<u64>,
}

/// The server's authority store and identifier allocators. Entity
/// identifiers count up and are never reused, so a destroyed entity's
/// identifier can never alias a later one.
pub struct ServerStore {
    pub lobby: ServerLobby,
    pub entities: IdMap<EntityData>,
    pub next_entity: u64,
    pub next_bot_id: u64,
}

/// The lifecycle message that announces an existing entity to a client that
/// has not seen it: the catch-up and broadcast form of a creation.
pub open spec fn create_message(e: u64, d: EntityData) -> ServerMessages {
    match d.kind {
        EntityKind::Player { owner } => ServerMessages::PlayerCreate {
            id: owner,
            entity: e,
            translation: d.translation,
        },
        EntityKind::Projectile { ttl: _ } => ServerMessages::SpawnProjectile {
            entity: e,
            translation: d.translation,
        },
        EntityKind::WorldBlock { slot } => ServerMessages::SpawnWorldBlock {
            entity: e,
            translation: d.translation,
            slot,
        },
    }
}

/// One creation message per live entity, in store order.
pub open spec fn catch_up_messages(s: Seq<(u64, EntityData)>) -> Seq<ServerMessages> {
    s.map(|i: int, p: (u64, EntityData)| create_message(p.0, p.1))
}

impl ServerStore {
    /// Well-formed: the tables hold each key once, every allocated entity
    /// identifier is below the allocator's next value, and every lobby entry
    /// points at a live player entity owned by that client.
    pub open spec fn wf(&self) -> bool {
        &&& self.lobby.players.wf()
        &&& self.entities.wf()
        &&& forall|k: u64| #[trigger] self.entities.as_map().dom().contains(k)
            ==> k < self.next_entity
        &&& forall|c: u64| #[trigger] self.lobby.players.as_map().dom().contains(c) ==> {
            let e = self.lobby.players.as_map()[c];
            &&& self.entities.as_map().dom().contains(e)
            &&& match self.entities.as_map()[e].kind {
                EntityKind::Player { owner } => owner == c,
                _ => false,
            }
        }
    }

    pub fn new() -> (r: ServerStore)
        ensures
            r.wf(),
            r.lobby.players.as_map() =~= Map::<u64, u64>::empty(),
            r.entities.pairs() =~= Seq::<(u64, EntityData)>::empty(),
            r.next_entity == 0,
            r.next_bot_id == 0,
    {
        ServerStore {
            lobby: ServerLobby { players: IdMap::new() },
            entities: IdMap::new(),
            next_entity: 0,
            next_bot_id: 0,
        }
    }

    /// The player entity controlled by a connection, if it is in the lobby.
    pub fn player_entity(&self, client_id: u64) -> (r: Option<u64>)
        requires
            self.wf(),
        ensures
            match r {
                Some(e) => self.lobby.players.as_map().dom().contains(client_id)
                    && e == self.lobby.players.as_map()[client_id],
                None => !self.lobby.players.as_map().dom().contains(client_id),
            },
    {
        self.lobby.players.get(client_id)
    }

    /// The current translation of a connection's player entity.
    pub fn player_translation(&self, client_id: u64) -> (r: Option<Translation>)
        requires
            self.wf(),
        ensures
            match r {
                Some(t) => self.lobby.players.as_map().dom().contains(client_id)
                    && t == self.entities.as_map()[self.lobby.players.as_map()[client_id]]
                        .translation,
                None => !self.lobby.players.as_map().dom().contains(client_id),
            },
    {
        match self.lobby.players.get(client_id) {
            Some(e) => {
                match self.entities.get(e) {
                    Some(d) => Some(d.translation),
                    None => {
                        proof {
                            assert(false);
                        }
                        None
                    },
                }
            },
            None => None,
        }
    }

    /// Allocates a fresh entity identifier and records the entity. The new
    /// identifier was never live before, so no table or client can already
    /// reference it.
    fn alloc_entity(&mut self, d: EntityData) -> (r: u64)
        requires
            old(self).wf(),
            old(self).next_entity < u64::MAX,
        ensures
            final(self).wf(),
            r == old(self).next_entity,
            !old(self).entities.as_map().dom().contains(r),
            final(self).entities.pairs() == old(self).entities.pairs().push((r, d)),
            final(self).entities.as_map() =~= old(self).entities.as_map().insert(r, d),
            final(self).lobby.players == old(self).lobby.players,
            final(self).next_entity == old(self).next_entity + 1,
            final(self).next_bot_id == old(self).next_bot_id,
    {
        let e = self.next_entity;
        self.entities.insert(e, d);
        self.next_entity = self.next_entity + 1;
        e
    }

    /// Accepts a connection: spawns the client's player entity at the given
    /// position and enters it in the lobby. Returns first the catch-up list
    /// — one creation message for every entity that predates the connection,
    /// to be sent to the new client alone, before anything else — and then
    /// the creation of the new player, to be broadcast to every client.
    pub fn handle_connect(&mut self, client_id: u64, spawn: Translation) -> (r: (
        Vec<ServerMessages>,
        ServerMessages,
    ))
        requires
            old(self).wf(),
            !old(self).lobby.players.as_map().dom().contains(client_id),
            old(self).next_entity < u64::MAX,
        ensures
            final(self).wf(),
            r.0@ == catch_up_messages(old(self).entities.pairs()),
            r.1 == (ServerMessages::PlayerCreate {
                id: client_id,
                entity: old(self).next_entity,
                translation: spawn,
            }),
            final(self).entities.pairs() == old(self).entities.pairs().push((
                old(self).next_entity,
                EntityData { kind: EntityKind::Player { owner: client_id }, translation: spawn },
            )),
            final(self).lobby.players.as_map() =~= old(self).lobby.players.as_map().insert(
                client_id,
                old(self).next_entity,
            ),
            final(self).next_entity == old(self).next_entity + 1,
            final(self).next_bot_id == old(self).next_bot_id,
    {
        let ghost s = self.entities.pairs();
        let n = self.entities.len();
        let mut catch_up: Vec<ServerMessages> = Vec::new();
        let mut i: usize = 0;
        while i < n
            invariant
                self == old(self),
                n == s.len(),
                s == self.entities.pairs(),
                i <= n,
                catch_up@ == catch_up_messages(s.subrange(0, i as int)),
            decreases n - i,
        {
            let (e, d) = self.entities.pair_at(i);
            let m = match d.kind {
                EntityKind::Player { owner } => ServerMessages::PlayerCreate {
                    id: owner,
                    entity: e,
                    translation: d.translation,
                },
                EntityKind::Projectile { ttl: _ } => ServerMessages::SpawnProjectile {
                    entity: e,
                    translation: d.translation,
                },
                EntityKind::WorldBlock { slot } => ServerMessages::SpawnWorldBlock {
                    entity: e,
                    translation: d.translation,
                    slot,
                },
            };
            catch_up.push(m);
            assert(catch_up@ =~= catch_up_messages(s.subrange(0, i + 1)));
            i = i + 1;
        }
        assert(s.subrange(0, n as int) =~= s);
        let entity = self.alloc_entity(
            EntityData { kind: EntityKind::Player { owner: client_id }, translation: spawn },
        );
        self.lobby.players.insert(client_id, entity);
        let broadcast = ServerMessages::PlayerCreate { id: client_id, entity, translation: spawn };
        (catch_up, broadcast)
    }

    /// Removes a disconnected client: its lobby entry is dropped and its
    /// player entity is destroyed, and the matching removal notification is
    /// returned for broadcast. A client that was never in the lobby leaves
    /// the store unchanged, but the removal is still announced, as the
    /// transport reports the disconnect either way.
    pub fn handle_disconnect(&mut self, client_id: u64) -> (r: ServerMessages)
        requires
            old(self).wf(),
        ensures
            final(self).wf(),
            r == (ServerMessages::PlayerRemove { id: client_id }),
            final(self).lobby.players.as_map() =~= old(self).lobby.players.as_map().remove(
                client_id,
            ),
            old(self).lobby.players.as_map().dom().contains(client_id) ==> {
                let e = old(self).lobby.players.as_map()[client_id];
                let ix = index_of_key(old(self).entities.pairs(), e);
                &&& final(self).entities.as_map() =~= old(self).entities.as_map().remove(e)
                &&& 0 <= ix < old(self).entities.pairs().len()
                &&& old(self).entities.pairs()[ix].0 == e
                &&& final(self).entities.pairs() == old(self).entities.pairs().remove(ix)
            },
            !old(self).lobby.players.as_map().dom().contains(client_id)
                ==> final(self).entities == old(self).entities,
            final(self).next_entity == old(self).next_entity,
            final(self).next_bot_id == old(self).next_bot_id,
    {
        match self.lobby.players.remove(client_id) {
            Some(e) => {
                self.entities.remove(e);
                assert(final(self).wf()) by {
                    assert forall|c: u64|
                        #[trigger] self.lobby.players.as_map().dom().contains(c) implies {
                        let e2 = self.lobby.players.as_map()[c];
                        &&& self.entities.as_map().dom().contains(e2)
                        &&& match self.entities.as_map()[e2].kind {
                            EntityKind::Player { owner } => owner == c,
                            _ => false,
                        }
                    } by {
                        assert(old(self).lobby.players.as_map().dom().contains(c));
                        assert(c != client_id);
                        let e2 = old(self).lobby.players.as_map()[c];
                        assert(match old(self).entities.as_map()[e2].kind {
                            EntityKind::Player { owner } => owner == c,
                            _ => false,
                        });
                        assert(match old(self).entities.as_map()[e].kind {
                            EntityKind::Player { owner } => owner == client_id,
                            _ => false,
                        });
                        assert(e2 != e);
                    }
                }
            },
            None => {},
        }
        ServerMessages::PlayerRemove { id: client_id }
    }

    /// Applies the latest input from a connection: the stated position
    /// directly overwrites the player entity's translation — last write per
    /// tick wins, with no server-side plausibility check. Input from a
    /// connection that is not in the lobby is dropped.
    pub fn apply_input(&mut self, client_id: u64, input: PlayerInput)
        requires
            old(self).wf(),
        ensures
            final(self).wf(),
            old(self).lobby.players.as_map().dom().contains(client_id) ==> {
                let e = old(self).lobby.players.as_map()[client_id];
                let d = EntityData {
                    kind: old(self).entities.as_map()[e].kind,
                    translation: input.position,
                };
                let ix = index_of_key(old(self).entities.pairs(), e);
                &&& final(self).entities.as_map() =~= old(self).entities.as_map().insert(e, d)
                &&& 0 <= ix < old(self).entities.pairs().len()
                &&& old(self).entities.pairs()[ix].0 == e
                &&& final(self).entities.pairs() == old(self).entities.pairs().update(ix, (e, d))
            },
            !old(self).lobby.players.as_map().dom().contains(client_id)
                ==> final(self).entities == old(self).entities,
            final(self).lobby.players == old(self).lobby.players,
            final(self).next_entity == old(self).next_entity,
            final(self).next_bot_id == old(self).next_bot_id,
    {
        match self.lobby.players.get(client_id) {
            Some(e) => {
                match self.entities.get(e) {
                    Some(d) => {
                        self.entities.insert(
                            e,
                            EntityData { kind: d.kind, translation: input.position },
                        );
                    },
                    None => {
                        proof {
                            assert(false);
                        }
                    },
                }
            },
            None => {},
        }
    }

    /// Executes one basic-attack command from a connection: spawns a single
    /// projectile with the fixed lifetime at the given translation — the
    /// caller computes it from the caster's current position toward the
    /// requested target — and returns the spawn broadcast. A command from a
    /// connection that is not in the lobby spawns nothing.
    pub fn cast_projectile(&mut self, client_id: u64, spawn: Translation) -> (r: Option<
        (u64, ServerMessages),
    >)
        requires
            old(self).wf(),
            old(self).next_entity < u64::MAX,
        ensures
            final(self).wf(),
            r is Some <==> old(self).lobby.players.as_map().dom().contains(client_id),
            r matches Some((e, m)) ==> {
                let d = EntityData {
                    kind: EntityKind::Projectile { ttl: PROJECTILE_LIFETIME_TICKS },
                    translation: spawn,
                };
                &&& e == old(self).next_entity
                &&& m == (ServerMessages::SpawnProjectile { entity: e, translation: spawn })
                &&& final(self).entities.pairs() == old(self).entities.pairs().push((e, d))
                &&& final(self).entities.as_map() =~= old(self).entities.as_map().insert(e, d)
                &&& final(self).next_entity == old(self).next_entity + 1
            },
            r is None ==> final(self).entities == old(self).entities && final(self).next_entity
                == old(self).next_entity,
            final(self).lobby.players == old(self).lobby.players,
            final(self).next_bot_id == old(self).next_bot_id,
    {
        if self.lobby.players.contains_key(client_id) {
            let e = self.alloc_entity(
                EntityData {
                    kind: EntityKind::Projectile { ttl: PROJECTILE_LIFETIME_TICKS },
                    translation: spawn,
                },
            );
            Some((e, ServerMessages::SpawnProjectile { entity: e, translation: spawn }))
        } else {
            None
        }
    }

    /// Spawns one world block tagged with the external feed's sequence
    /// number, and returns the spawn broadcast.
    pub fn spawn_world_block(&mut self, slot: u64, spawn: Translation) -> (r: (
        u64,
        ServerMessages,
    ))
        requires
            old(self).wf(),
            old(self).next_entity < u64::MAX,
        ensures
            final(self).wf(),
            ({
                let d = EntityData { kind: EntityKind::WorldBlock { slot }, translation: spawn };
                &&& r.0 == old(self).next_entity
                &&& r.1 == (ServerMessages::SpawnWorldBlock {
                    entity: r.0,
                    translation: spawn,
                    slot,
                })
                &&& final(self).entities.pairs() == old(self).entities.pairs().push((r.0, d))
                &&& final(self).entities.as_map() =~= old(self).entities.as_map().insert(r.0, d)
            }),
            final(self).lobby.players == old(self).lobby.players,
            final(self).next_entity == old(self).next_entity + 1,
            final(self).next_bot_id == old(self).next_bot_id,
    {
        let e = self.alloc_entity(
            EntityData { kind: EntityKind::WorldBlock { slot }, translation: spawn },
        );
        (e, ServerMessages::SpawnWorldBlock { entity: e, translation: spawn, slot })
    }

    /// Spawns a bot: a player entity owned by a synthetic connection
    /// identifier from the bot allocator. Bot identifiers count from zero,
    /// independently of transport-assigned identifiers; a bot identifier
    /// already taken in the lobby is refused rather than overwriting a live
    /// client's entry.
    pub fn spawn_bot(&mut self, spawn: Translation) -> (r: Option<(u64, u64, ServerMessages)>)
        requires
            old(self).wf(),
            old(self).next_entity < u64::MAX,
            old(self).next_bot_id < u64::MAX,
        ensures
            final(self).wf(),
            final(self).next_bot_id == old(self).next_bot_id + 1,
            r is Some <==> !old(self).lobby.players.as_map().dom().contains(
                old(self).next_bot_id,
            ),
            r matches Some((c, e, m)) ==> {
                let d = EntityData { kind: EntityKind::Player { owner: c }, translation: spawn };
                &&& c == old(self).next_bot_id
                &&& e == old(self).next_entity
                &&& m == (ServerMessages::PlayerCreate { id: c, entity: e, translation: spawn })
                &&& final(self).entities.pairs() == old(self).entities.pairs().push((e, d))
                &&& final(self).lobby.players.as_map()
                    =~= old(self).lobby.players.as_map().insert(c, e)
                &&& final(self).next_entity == old(self).next_entity + 1
            },
            r is None ==> final(self).entities == old(self).entities && final(self).lobby.players
                == old(self).lobby.players && final(self).next_entity == old(self).next_entity,
    {
        let c = self.next_bot_id;
        self.next_bot_id = self.next_bot_id + 1;
        if self.lobby.players.contains_key(c) {
            None
        } else {
            let e = self.alloc_entity(
                EntityData { kind: EntityKind::Player { owner: c }, translation: spawn },
            );
            self.lobby.players.insert(c, e);
            Some((c, e, ServerMessages::PlayerCreate { id: c, entity: e, translation: spawn }))
        }
    }
}

/// A live entity of projectile kind.
pub open spec fn is_live_projectile(m: Map<u64, EntityData>, e: u64) -> bool {
    m.dom().contains(e) && m[e].kind is Projectile
}

/// A live entity of world-block kind.
pub open spec fn is_live_world_block(m: Map<u64, EntityData>, e: u64) -> bool {
    m.dom().contains(e) && m[e].kind is WorldBlock
}

impl ServerStore {
    /// Resolves one physics collision notification. When contact begins
    /// between a live projectile and a live world block, the block is
    /// destroyed and its despawn notification is returned for broadcast in
    /// the same tick; every other pairing, and every contact end, leaves the
    /// store unchanged.
    pub fn handle_collision(&mut self, e1: u64, e2: u64, started: bool) -> (r: Option<
        ServerMessages,
    >)
        requires
            old(self).wf(),
        ensures
            final(self).wf(),
            r is Some <==> started && {
                let m = old(self).entities.as_map();
                ||| is_live_projectile(m, e1) && is_live_world_block(m, e2)
                ||| is_live_projectile(m, e2) && is_live_world_block(m, e1)
            },
            r matches Some(msg) ==> {
                let m = old(self).entities.as_map();
                let b: u64 = if is_live_projectile(m, e1) && is_live_world_block(m, e2) {
                    e2
                } else {
                    e1
                };
                let ix = index_of_key(old(self).entities.pairs(), b);
                &&& msg == (ServerMessages::DespawnWorldBlock { entity: b })
                &&& final(self).entities.as_map() =~= m.remove(b)
                &&& 0 <= ix < old(self).entities.pairs().len()
                &&& old(self).entities.pairs()[ix].0 == b
                &&& final(self).entities.pairs() == old(self).entities.pairs().remove(ix)
            },
            r is None ==> final(self).entities == old(self).entities,
            final(self).lobby.players == old(self).lobby.players,
            final(self).next_entity == old(self).next_entity,
            final(self).next_bot_id == old(self).next_bot_id,
    {
        if !started {
            return None;
        }
        let d1 = self.entities.get(e1);
        let d2 = self.entities.get(e2);
        let projectile_hit_block = {
            match (d1, d2) {
                (Some(a), Some(b)) => (a.kind matches EntityKind::Projectile { .. })
                    && (b.kind matches EntityKind::WorldBlock { .. }),
                _ => false,
            }
        };
        let block_hit_projectile = {
            match (d1, d2) {
                (Some(a), Some(b)) => (b.kind matches EntityKind::Projectile { .. })
                    && (a.kind matches EntityKind::WorldBlock { .. }),
                _ => false,
            }
        };
        let b: u64 = if projectile_hit_block {
            e2
        } else if block_hit_projectile {
            e1
        } else {
            return None;
        };
        self.entities.remove(b);
        assert(final(self).wf()) by {
            assert forall|c: u64|
                #[trigger] self.lobby.players.as_map().dom().contains(c) implies {
                let e = self.lobby.players.as_map()[c];
                &&& self.entities.as_map().dom().contains(e)
                &&& match self.entities.as_map()[e].kind {
                    EntityKind::Player { owner } => owner == c,
                    _ => false,
                }
            } by {
                assert(old(self).lobby.players.as_map().dom().contains(c));
                let e = old(self).lobby.players.as_map()[c];
                assert(match old(self).entities.as_map()[e].kind {
                    EntityKind::Player { owner } => owner == c,
                    _ => false,
                });
                assert(e != b);
            }
        }
        Some(ServerMessages::DespawnWorldBlock { entity: b })
    }

    /// Builds the tick's full snapshot: every live entity's identifier and
    /// translation, in store order. Each snapshot is self-sufficient, so a
    /// client that misses one is made whole by the next.
    pub fn build_snapshot(&self) -> (r: NetworkedEntities)
        requires
            self.wf(),
        ensures
            r.wf(),
            r.entities@ == self.entities.pairs().map(|i: int, p: (u64, EntityData)| p.0),
            r.translations@ == self.entities.pairs().map(
                |i: int, p: (u64, EntityData)| p.1.translation,
            ),
    {
        let ghost s = self.entities.pairs();
        let n = self.entities.len();
        let mut out = NetworkedEntities::new();
        let mut i: usize = 0;
        while i < n
            invariant
                n == s.len(),
                s == self.entities.pairs(),
                i <= n,
                out.wf(),
                out.entities@ == s.subrange(0, i as int).map(|j: int, p: (u64, EntityData)| p.0),
                out.translations@ == s.subrange(0, i as int).map(
                    |j: int, p: (u64, EntityData)| p.1.translation,
                ),
            decreases n - i,
        {
            let (e, d) = self.entities.pair_at(i);
            out.push(e, d.translation);
            assert(out.entities@ =~= s.subrange(0, i + 1).map(
                |j: int, p: (u64, EntityData)| p.0,
            ));
            assert(out.translations@ =~= s.subrange(0, i + 1).map(
                |j: int, p: (u64, EntityData)| p.1.translation,
            ));
            i = i + 1;
        }
        assert(s.subrange(0, n as int) =~= s);
        out
    }
}

/// Whether an entry's lifetime runs out on this tick's sweep.
pub open spec fn expires(d: EntityData) -> bool {
    match d.kind {
        EntityKind::Projectile { ttl } => ttl <= 1,
        _ => false,
    }
}

/// One lifetime step of a surviving entry: a projectile loses one tick,
/// everything else is untouched.
pub open spec fn age(d: EntityData) -> EntityData {
    match d.kind {
        EntityKind::Projectile { ttl } => EntityData {
            kind: EntityKind::Projectile { ttl: (ttl - 1) as u32 },
            translation: d.translation,
        },
        _ => d,
    }
}

/// The store after one lifetime sweep: expired entries are gone, surviving
/// entries are aged, order is kept.
pub open spec fn tick_kept(s: Seq<(u64, EntityData)>) -> Seq<(u64, EntityData)>
    decreases s.len(),
{
    if s.len() == 0 {
        Seq::empty()
    } else {
        let rest = tick_kept(s.drop_last());
        if expires(s.last().1) {
            rest
        } else {
            rest.push((s.last().0, age(s.last().1)))
        }
    }
}

/// The notifications a lifetime sweep must broadcast: one despawn per
/// expired entry, in store order.
pub open spec fn tick_despawns(s: Seq<(u64, EntityData)>) -> Seq<ServerMessages>
    decreases s.len(),
{
    if s.len() == 0 {
        Seq::empty()
    } else {
        let rest = tick_despawns(s.drop_last());
        if expires(s.last().1) {
            rest.push(ServerMessages::DespawnProjectile { entity: s.last().0 })
        } else {
            rest
        }
    }
}

/// How many times a message occurs in a broadcast list.
pub open spec fn count_msg(msgs: Seq<ServerMessages>, m: ServerMessages) -> nat
    decreases msgs.len(),
{
    if msgs.len() == 0 {
        0
    } else {
        count_msg(msgs.drop_last(), m) + (if msgs.last() == m {
            1nat
        } else {
            0nat
        })
    }
}

/// Every key the sweep keeps was a key of the store before it.
pub proof fn lemma_tick_kept_keys(s: Seq<(u64, EntityData)>)
    ensures
        forall|j: int| 0 <= j < tick_kept(s).len()
            ==> exists|i: int| 0 <= i < s.len() && (#[trigger] tick_kept(s)[j]).0 == s[i].0,
    decreases s.len(),
{
    if s.len() > 0 {
        let t = s.drop_last();
        lemma_tick_kept_keys(t);
        assert forall|j: int| 0 <= j < tick_kept(s).len() implies exists|i: int|
            0 <= i < s.len() && (#[trigger] tick_kept(s)[j]).0 == s[i].0 by {
            if j < tick_kept(t).len() {
                assert(tick_kept(s)[j] == tick_kept(t)[j]);
                let i = choose|i: int| 0 <= i < t.len() && tick_kept(t)[j].0 == t[i].0;
                assert(t[i] == s[i]);
            } else {
                assert(tick_kept(s)[j].0 == s[s.len() - 1].0);
            }
        }
    }
}

/// What one lifetime sweep does to each live entity: a non-expired entry
/// survives, aged; an expired entry is gone. Nothing else is destroyed and
/// nothing appears.
pub proof fn lemma_tick_effect(s: Seq<(u64, EntityData)>)
    requires
        distinct_keys(s),
    ensures
        forall|e: u64| #[trigger] map_of(s).dom().contains(e) && !expires(map_of(s)[e])
            ==> map_of(tick_kept(s)).dom().contains(e)
                && map_of(tick_kept(s))[e] == age(map_of(s)[e]),
        forall|e: u64| #[trigger] map_of(s).dom().contains(e) && expires(map_of(s)[e])
            ==> !map_of(tick_kept(s)).dom().contains(e),
        forall|e: u64| #[trigger] map_of(tick_kept(s)).dom().contains(e)
            ==> map_of(s).dom().contains(e),
    decreases s.len(),
{
    if s.len() > 0 {
        let t = s.drop_last();
        let e0 = s.last().0;
        let d0 = s.last().1;
        lemma_distinct_drop_last(s);
        lemma_tick_effect(t);
        assert(forall|i: int| 0 <= i < t.len() ==> t[i] == s[i]);
        assert(!map_of(t).dom().contains(e0)) by {
            lemma_map_of_contains(t, e0);
        }
        if expires(d0) {
            assert(!map_of(tick_kept(t)).dom().contains(e0)) by {
                lemma_map_of_contains(tick_kept(t), e0);
                lemma_tick_kept_keys(t);
                if map_of(tick_kept(t)).dom().contains(e0) {
                    let j = choose|j: int|
                        0 <= j < tick_kept(t).len() && tick_kept(t)[j].0 == e0;
                    let i = choose|i: int|
                        0 <= i < t.len() && tick_kept(t)[j].0 == t[i].0;
                    lemma_map_of_index(t, i);
                }
            }
        } else {
            assert(map_of(tick_kept(s)) == map_of(tick_kept(t)).insert(e0, age(d0))) by {
                assert(tick_kept(s).drop_last() =~= tick_kept(t));
            }
        }
    }
}

/// Exactly-once despawn notification: an entry the lifetime sweep removes is
/// referenced by exactly one despawn in the sweep's broadcast list, and an
/// entry it keeps — or an identifier that was never live — by none.
pub proof fn lemma_tick_despawn_exactly_once(s: Seq<(u64, EntityData)>, e: u64)
    requires
        distinct_keys(s),
    ensures
        map_of(s).dom().contains(e) && expires(map_of(s)[e])
            ==> count_msg(tick_despawns(s), ServerMessages::DespawnProjectile { entity: e })
                == 1,
        !(map_of(s).dom().contains(e) && expires(map_of(s)[e]))
            ==> count_msg(tick_despawns(s), ServerMessages::DespawnProjectile { entity: e })
                == 0,
    decreases s.len(),
{
    if s.len() > 0 {
        let t = s.drop_last();
        let e0 = s.last().0;
        let d0 = s.last().1;
        lemma_distinct_drop_last(s);
        lemma_tick_despawn_exactly_once(t, e);
        assert(forall|i: int| 0 <= i < t.len() ==> t[i] == s[i]);
        assert(!map_of(t).dom().contains(e0)) by {
            lemma_map_of_contains(t, e0);
        }
        if expires(d0) {
            assert(tick_despawns(s) == tick_despawns(t).push(
                ServerMessages::DespawnProjectile { entity: e0 },
            ));
            assert(tick_despawns(s).drop_last() =~= tick_despawns(t));
            if e == e0 {
                lemma_tick_despawn_exactly_once(t, e0);
            }
        }
    }
}

impl ServerStore {
    /// Advances every projectile's remaining lifetime by one tick and
    /// destroys the expired ones, returning their despawn notifications for
    /// broadcast before this tick completes. Players and world blocks are
    /// untouched.
    pub fn tick_projectiles(&mut self) -> (r: Vec<ServerMessages>)
        requires
            old(self).wf(),
        ensures
            final(self).wf(),
            final(self).entities.pairs() == tick_kept(old(self).entities.pairs()),
            r@ == tick_despawns(old(self).entities.pairs()),
            final(self).lobby.players == old(self).lobby.players,
            final(self).next_entity == old(self).next_entity,
            final(self).next_bot_id == old(self).next_bot_id,
    {
        let ghost s = self.entities.pairs();
        let n = self.entities.len();
        let mut kept: IdMap<EntityData> = IdMap::new();
        let mut msgs: Vec<ServerMessages> = Vec::new();
        let mut i: usize = 0;
        while i < n
            invariant
                self == old(self),
                old(self).wf(),
                n == s.len(),
                s == self.entities.pairs(),
                i <= n,
                kept.wf(),
                kept.pairs() == tick_kept(s.subrange(0, i as int)),
                msgs@ == tick_despawns(s.subrange(0, i as int)),
            decreases n - i,
        {
            let ghost sub = s.subrange(0, i as int);
            let ghost sub1 = s.subrange(0, i + 1);
            proof {
                assert(sub1.drop_last() =~= sub);
                assert(sub1.last() == s[i as int]);
            }
            let (e, d) = self.entities.pair_at(i);
            let keep: Option<EntityData> = match d.kind {
                EntityKind::Projectile { ttl } => {
                    if ttl <= 1 {
                        None
                    } else {
                        Some(
                            EntityData {
                                kind: EntityKind::Projectile { ttl: ttl - 1 },
                                translation: d.translation,
                            },
                        )
                    }
                },
                _ => Some(d),
            };
            match keep {
                Some(aged) => {
                    assert(aged == age(d));
                    assert(!kept.as_map().dom().contains(e)) by {
                        lemma_map_of_contains(kept.pairs(), e);
                        lemma_tick_kept_keys(sub);
                        if kept.as_map().dom().contains(e) {
                            let j = choose|j: int|
                                0 <= j < kept.pairs().len() && kept.pairs()[j].0 == e;
                            let q = choose|q: int|
                                0 <= q < sub.len() && kept.pairs()[j].0 == sub[q].0;
                            assert(sub[q] == s[q]);
                            assert(s[q].0 == s[i as int].0);
                        }
                    }
                    kept.insert(e, aged);
                },
                None => {
                    msgs.push(ServerMessages::DespawnProjectile { entity: e });
                },
            }
            i = i + 1;
        }
        assert(s.subrange(0, n as int) =~= s);
        self.entities = kept;
        assert(final(self).wf()) by {
            lemma_tick_effect(s);
            lemma_tick_kept_keys(s);
            assert forall|k: u64| #[trigger] self.entities.as_map().dom().contains(k)
                implies k < self.next_entity by {
                lemma_map_of_contains(tick_kept(s), k);
                let j = choose|j: int| 0 <= j < tick_kept(s).len() && tick_kept(s)[j].0 == k;
                let q = choose|q: int| 0 <= q < s.len() && tick_kept(s)[j].0 == s[q].0;
                lemma_map_of_index(s, q);
            }
            assert forall|c: u64|
                #[trigger] self.lobby.players.as_map().dom().contains(c) implies {
                let e = self.lobby.players.as_map()[c];
                &&& self.entities.as_map().dom().contains(e)
                &&& match self.entities.as_map()[e].kind {
                    EntityKind::Player { owner } => owner == c,
                    _ => false,
                }
            } by {
                assert(old(self).lobby.players.as_map().dom().contains(c));
                let e = old(self).lobby.players.as_map()[c];
                assert(!expires(map_of(s)[e]));
                assert(age(map_of(s)[e]) == map_of(s)[e]);
            }
        }
        msgs
    }
}

} // verus!
