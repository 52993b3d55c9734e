//! Client reconciliation store: the bridge between the server's entity
//! identifier space and the client's own.
//!
//! The server and the client run independent simulations with independent
//! identifier spaces; the network mapping is the only bridge between them.
//! Each frame the client drains the reliable channel first — identity must
//! be known before position can be applied — and the unreliable snapshot
//! channel second. Lifecycle events alone create and destroy local
//! entities; a snapshot only moves entities the mapping already knows, and
//! silently skips the rest.

use vstd::prelude::*;

use crate::idmap::IdMap;
use crate::protocol::{NetworkedEntities, ServerMessages, Translation};

verus! {

/// A remote player as the client tracks it: the locally-owned render entity
/// and the last-known server entity identifier, resolvable by connection
/// identifier when a disconnect names the player rather than the entity.
#[derive(Clone, Copy, Debug, PartialEq, Eq, Structural)]
pub struct PlayerInfo {
    pub client_entity: u64,
    pub server_entity: u64,
}

/// The client's mirror of the server lobby, keyed by connection identifier.
pub struct ClientLobby {
    pub players: IdMap<PlayerInfo>,
}

/// The network mapping: server entity identifier to locally-owned entity.
/// A server identifier appears at most once; it enters on a lifecycle spawn
/// and leaves on the matching despawn.
pub struct NetworkMapping(pub IdMap<u64>);

/// A locally-owned render entity, as far as replication is concerned: its
/// current translation, and whether it is the locally controlled player —
/// the one entity whose rendering the local camera owns, excluded from
/// remote position overwrites.
#[derive(Clone, Copy, Debug, PartialEq, Eq, Structural)]
pub struct LocalEntity {
    pub translation: Translation,
    pub controlled: bool,
}

/// The client's whole reconciliation state.
pub struct ClientStore {
    /// This client's own connection identifier.
    pub own_id: u64,
    /// Local entity identifiers count up and are never reused.
    pub next_local: u64,
    pub mapping: NetworkMapping,
    pub lobby: ClientLobby,
    /// The locally-owned entities the replication layer manages.
    pub locals: IdMap<LocalEntity>,
}

/// The reconciliation state as maps: the mathematical face of
/// [`ClientStore`] that the contracts and laws speak of.
#[verifier::ext_equal]
pub struct ClientView {
    pub own_id: u64,
    pub next_local: int,
    pub mapping: Map<u64, u64>,
    pub players: Map<u64, PlayerInfo>,
    pub locals: Map<u64, LocalEntity>,
}

impl View for ClientStore {
    type V = ClientView;

    open spec fn view(&self) -> ClientView {
        ClientView {
            own_id: self.own_id,
            next_local: self.next_local as int,
            mapping: self.mapping.0.as_map(),
            players: self.lobby.players.as_map(),
            locals: self.locals.as_map(),
        }
    }
}

/// The state a client starts from: nothing mapped, nothing owned.
pub open spec fn initial_view(own_id: u64) -> ClientView {
    ClientView {
        own_id,
        next_local: 0,
        mapping: Map::empty(),
        players: Map::empty(),
        locals: Map::empty(),
    }
}

/// The server entity identifier a lifecycle message introduces, if it is a
/// spawn.
pub open spec fn created_entity(m: ServerMessages) -> Option<u64> {
    match m {
        ServerMessages::PlayerCreate { entity, .. } => Some(entity),
        ServerMessages::SpawnProjectile { entity, .. } => Some(entity),
        ServerMessages::SpawnWorldBlock { entity, .. } => Some(entity),
        _ => None,
    }
}

/// What one reliable lifecycle message does to the reconciliation state.
///
/// A spawn allocates a fresh local entity and binds the server identifier
/// to it, overwriting any stale binding; a despawn unbinds and destroys; a
/// player removal resolves through the lobby mirror. A removal or despawn
/// of something unknown is a no-op, never an error.
pub open spec fn apply_message_spec(v: ClientView, m: ServerMessages) -> ClientView {
    match m {
        ServerMessages::PlayerCreate { id, entity, translation } => {
            let l = v.next_local;
            ClientView {
                next_local: v.next_local + 1,
                mapping: v.mapping.insert(entity, l as u64),
                players: v.players.insert(
                    id,
                    PlayerInfo { client_entity: l as u64, server_entity: entity },
                ),
                locals: v.locals.insert(
                    l as u64,
                    LocalEntity { translation, controlled: id == v.own_id },
                ),
                ..v
            }
        },
        ServerMessages::PlayerRemove { id } => {
            if v.players.dom().contains(id) {
                let info = v.players[id];
                ClientView {
                    players: v.players.remove(id),
                    mapping: v.mapping.remove(info.server_entity),
                    locals: v.locals.remove(info.client_entity),
                    ..v
                }
            } else {
                v
            }
        },
        ServerMessages::SpawnProjectile { entity, translation } => {
            let l = v.next_local;
            ClientView {
                next_local: v.next_local + 1,
                mapping: v.mapping.insert(entity, l as u64),
                locals: v.locals.insert(
                    l as u64,
                    LocalEntity { translation, controlled: false },
                ),
                ..v
            }
        },
        ServerMessages::DespawnProjectile { entity } => {
            if v.mapping.dom().contains(entity) {
                let l = v.mapping[entity];
                ClientView { mapping: v.mapping.remove(entity), locals: v.locals.remove(l), ..v }
            } else {
                v
            }
        },
        ServerMessages::SpawnWorldBlock { entity, translation, slot: _ } => {
            let l = v.next_local;
            ClientView {
                next_local: v.next_local + 1,
                mapping: v.mapping.insert(entity, l as u64),
                locals: v.locals.insert(
                    l as u64,
                    LocalEntity { translation, controlled: false },
                ),
                ..v
            }
        },
        ServerMessages::DespawnWorldBlock { entity } => {
            if v.mapping.dom().contains(entity) {
                let l = v.mapping[entity];
                ClientView { mapping: v.mapping.remove(entity), locals: v.locals.remove(l), ..v }
            } else {
                v
            }
        },
    }
}

impl ClientStore {
    /// Well-formed: the tables hold each key once, and every local
    /// identifier ever handed out is below the allocator's next value.
    pub open spec fn wf(&self) -> bool {
        &&& self.mapping.0.wf()
        &&& self.lobby.players.wf()
        &&& self.locals.wf()
        &&& forall|l: u64| #[trigger] self.locals.as_map().dom().contains(l)
            ==> l < self.next_local
    }

    pub fn new(own_id: u64) -> (r: ClientStore)
        ensures
            r.wf(),
            r@ =~= initial_view(own_id),
    {
        ClientStore {
            own_id,
            next_local: 0,
            mapping: NetworkMapping(IdMap::new()),
            lobby: ClientLobby { players: IdMap::new() },
            locals: IdMap::new(),
        }
    }

    /// Applies one message from the reliable lifecycle channel.
    pub fn apply_server_message(&mut self, m: &ServerMessages)
        requires
            old(self).wf(),
            old(self).next_local < u64::MAX,
        ensures
            final(self).wf(),
            final(self)@ =~= apply_message_spec(old(self)@, *m),
    {
        match *m {
            ServerMessages::PlayerCreate { id, entity, translation } => {
                let l = self.next_local;
                self.next_local = self.next_local + 1;
                self.mapping.0.insert(entity, l);
                self.lobby.players.insert(
                    id,
                    PlayerInfo { client_entity: l, server_entity: entity },
                );
                self.locals.insert(
                    l,
                    LocalEntity { translation, controlled: id == self.own_id },
                );
            },
            ServerMessages::PlayerRemove { id } => {
                match self.lobby.players.remove(id) {
                    Some(info) => {
                        self.mapping.0.remove(info.server_entity);
                        self.locals.remove(info.client_entity);
                    },
                    None => {},
                }
            },
            ServerMessages::SpawnProjectile { entity, translation } => {
                let l = self.next_local;
                self.next_local = self.next_local + 1;
                self.mapping.0.insert(entity, l);
                self.locals.insert(l, LocalEntity { translation, controlled: false });
            },
            ServerMessages::DespawnProjectile { entity } => {
                match self.mapping.0.remove(entity) {
                    Some(l) => {
                        self.locals.remove(l);
                    },
                    None => {},
                }
            },
            ServerMessages::SpawnWorldBlock { entity, translation, slot: _ } => {
                let l = self.next_local;
                self.next_local = self.next_local + 1;
                self.mapping.0.insert(entity, l);
                self.locals.insert(l, LocalEntity { translation, controlled: false });
            },
            ServerMessages::DespawnWorldBlock { entity } => {
                match self.mapping.0.remove(entity) {
                    Some(l) => {
                        self.locals.remove(l);
                    },
                    None => {},
                }
            },
        }
    }
}

/// What one snapshot pair does to the locally-owned entities: a mapped,
/// uncontrolled local entity takes the stated translation; anything else —
/// an unmapped identifier, a stale binding, the locally controlled player —
/// is left alone.
pub open spec fn snapshot_step(
    mapping: Map<u64, u64>,
    locals: Map<u64, LocalEntity>,
    e: u64,
    t: Translation,
) -> Map<u64, LocalEntity> {
    if mapping.dom().contains(e) && locals.dom().contains(mapping[e])
        && !locals[mapping[e]].controlled {
        locals.insert(mapping[e], LocalEntity { translation: t, controlled: false })
    } else {
        locals
    }
}

/// What a whole snapshot does to the locally-owned entities, pair by pair
/// in snapshot order.
pub open spec fn apply_snapshot_locals(
    mapping: Map<u64, u64>,
    locals: Map<u64, LocalEntity>,
    es: Seq<u64>,
    ts: Seq<Translation>,
) -> Map<u64, LocalEntity>
    decreases es.len(),
{
    if es.len() == 0 || ts.len() < es.len() {
        locals
    } else {
        apply_snapshot_locals(
            mapping,
            snapshot_step(mapping, locals, es.first(), ts.first()),
            es.drop_first(),
            ts.drop_first(),
        )
    }
}

impl ClientStore {
    /// Applies one full snapshot from the unreliable channel: positions for
    /// identifiers the mapping knows, skips for the rest. Never creates or
    /// destroys an entity, never touches the mapping or the lobby mirror,
    /// and never moves the locally controlled player.
    pub fn apply_snapshot(&mut self, snap: &NetworkedEntities)
        requires
            old(self).wf(),
            snap.wf(),
        ensures
            final(self).wf(),
            final(self)@.locals == apply_snapshot_locals(
                old(self)@.mapping,
                old(self)@.locals,
                snap.entities@,
                snap.translations@,
            ),
            final(self)@.mapping == old(self)@.mapping,
            final(self)@.players == old(self)@.players,
            final(self)@.next_local == old(self)@.next_local,
            final(self)@.own_id == old(self)@.own_id,
    {
        let n = snap.entities.len();
        proof {
            assert(snap.entities@.skip(0) =~= snap.entities@);
            assert(snap.translations@.skip(0) =~= snap.translations@);
        }
        let mut i: usize = 0;
        while i < n
            invariant
                self.wf(),
                snap.wf(),
                n == snap.entities@.len(),
                i <= n,
                self.mapping.0 == old(self).mapping.0,
                self.lobby.players == old(self).lobby.players,
                self.next_local == old(self).next_local,
                self.own_id == old(self).own_id,
                apply_snapshot_locals(
                    old(self)@.mapping,
                    self.locals.as_map(),
                    snap.entities@.skip(i as int),
                    snap.translations@.skip(i as int),
                ) == apply_snapshot_locals(
                    old(self)@.mapping,
                    old(self)@.locals,
                    snap.entities@,
                    snap.translations@,
                ),
            decreases n - i,
        {
            let ghost pre = self.locals.as_map();
            let ghost es = snap.entities@.skip(i as int);
            let ghost ts = snap.translations@.skip(i as int);
            let e = snap.entities[i];
            let t = snap.translations[i];
            proof {
                assert(es.first() == e);
                assert(ts.first() == t);
                assert(es.drop_first() =~= snap.entities@.skip(i + 1));
                assert(ts.drop_first() =~= snap.translations@.skip(i + 1));
            }
            match self.mapping.0.get(e) {
                Some(l) => {
                    match self.locals.get(l) {
                        Some(le) => {
                            if !le.controlled {
                                self.locals.insert(
                                    l,
                                    LocalEntity { translation: t, controlled: false },
                                );
                            }
                        },
                        None => {},
                    }
                },
                None => {},
            }
            assert(self.locals.as_map() =~= snapshot_step(old(self)@.mapping, pre, e, t));
            i = i + 1;
        }
        assert(snap.entities@.skip(n as int) =~= Seq::<u64>::empty());
    }
}

/// At-most-once mapping: a lifecycle spawn for a server identifier the
/// mapping already holds overwrites the binding in place. A second spawn of
/// the same identifier leaves the set of mapped identifiers exactly as the
/// first left it — never a duplicate entry.
pub proof fn lemma_at_most_once_mapping(
    v: ClientView,
    m1: ServerMessages,
    m2: ServerMessages,
    e: u64,
)
    requires
        created_entity(m1) == Some(e),
        created_entity(m2) == Some(e),
    ensures
        apply_message_spec(apply_message_spec(v, m1), m2).mapping.dom()
            =~= apply_message_spec(v, m1).mapping.dom(),
{
}

/// Idempotent despawn: a despawn for an identifier the mapping does not
/// hold — already removed, or never arrived — changes nothing and is not an
/// error.
pub proof fn lemma_idempotent_despawn(v: ClientView, e: u64)
    requires
        !v.mapping.dom().contains(e),
    ensures
        apply_message_spec(v, ServerMessages::DespawnProjectile { entity: e }) =~= v,
        apply_message_spec(v, ServerMessages::DespawnWorldBlock { entity: e }) =~= v,
{
}

/// The same despawn applied twice: the second application is a no-op.
pub proof fn lemma_despawn_twice(v: ClientView, e: u64)
    ensures
        apply_message_spec(
            apply_message_spec(v, ServerMessages::DespawnProjectile { entity: e }),
            ServerMessages::DespawnProjectile { entity: e },
        ) =~= apply_message_spec(v, ServerMessages::DespawnProjectile { entity: e }),
        apply_message_spec(
            apply_message_spec(v, ServerMessages::DespawnWorldBlock { entity: e }),
            ServerMessages::DespawnWorldBlock { entity: e },
        ) =~= apply_message_spec(v, ServerMessages::DespawnWorldBlock { entity: e }),
{
    lemma_idempotent_despawn(
        apply_message_spec(v, ServerMessages::DespawnProjectile { entity: e }),
        e,
    );
    lemma_idempotent_despawn(
        apply_message_spec(v, ServerMessages::DespawnWorldBlock { entity: e }),
        e,
    );
}

/// Snapshot skip law: a snapshot changes no local entity's existence — an
/// identifier not in the mapping is skipped, and even a mapped one only
/// moves an entity that already exists. The set of locally-owned entities
/// is exactly what it was.
pub proof fn lemma_snapshot_creates_nothing(
    mapping: Map<u64, u64>,
    locals: Map<u64, LocalEntity>,
    es: Seq<u64>,
    ts: Seq<Translation>,
)
    ensures
        apply_snapshot_locals(mapping, locals, es, ts).dom() =~= locals.dom(),
    decreases es.len(),
{
    if es.len() != 0 && ts.len() >= es.len() {
        let stepped = snapshot_step(mapping, locals, es.first(), ts.first());
        assert(stepped.dom() =~= locals.dom());
        lemma_snapshot_creates_nothing(mapping, stepped, es.drop_first(), ts.drop_first());
    }
}

/// A local entity that no snapshot entry reaches through the mapping comes
/// out of the snapshot exactly as it went in.
pub proof fn lemma_snapshot_untouched(
    mapping: Map<u64, u64>,
    locals: Map<u64, LocalEntity>,
    es: Seq<u64>,
    ts: Seq<Translation>,
    l: u64,
)
    requires
        forall|i: int| 0 <= i < es.len()
            ==> !(mapping.dom().contains(#[trigger] es[i]) && mapping[es[i]] == l),
    ensures
        apply_snapshot_locals(mapping, locals, es, ts).dom().contains(l)
            == locals.dom().contains(l),
        locals.dom().contains(l) ==> apply_snapshot_locals(mapping, locals, es, ts)[l]
            == locals[l],
    decreases es.len(),
{
    if es.len() != 0 && ts.len() >= es.len() {
        let stepped = snapshot_step(mapping, locals, es.first(), ts.first());
        assert(forall|i: int| 0 <= i < es.drop_first().len()
            ==> es.drop_first()[i] == es[i + 1]);
        lemma_snapshot_untouched(mapping, stepped, es.drop_first(), ts.drop_first(), l);
    }
}

/// Convergence under loss: a snapshot is self-sufficient. Whatever was
/// missed before it, applying it alone leaves every faithfully-mapped,
/// uncontrolled local entity at exactly the translation the snapshot
/// states — provided the snapshot lists each identifier once and the
/// mapping binds distinct identifiers to distinct local entities.
pub proof fn lemma_snapshot_convergence(
    mapping: Map<u64, u64>,
    locals: Map<u64, LocalEntity>,
    es: Seq<u64>,
    ts: Seq<Translation>,
    i: int,
)
    requires
        es.len() == ts.len(),
        forall|p: int, q: int| 0 <= p < q < es.len() ==> es[p] != es[q],
        forall|e1: u64, e2: u64|
            mapping.dom().contains(e1) && mapping.dom().contains(e2)
                && #[trigger] mapping[e1] == #[trigger] mapping[e2] ==> e1 == e2,
        0 <= i < es.len(),
        mapping.dom().contains(es[i]),
        locals.dom().contains(mapping[es[i]]),
        !locals[mapping[es[i]]].controlled,
    ensures
        apply_snapshot_locals(mapping, locals, es, ts).dom().contains(mapping[es[i]]),
        apply_snapshot_locals(mapping, locals, es, ts)[mapping[es[i]]].translation == ts[i],
    decreases es.len(),
{
    let l = mapping[es[i]];
    let stepped = snapshot_step(mapping, locals, es.first(), ts.first());
    assert(forall|j: int| 0 <= j < es.drop_first().len() ==> es.drop_first()[j] == es[j + 1]);
    assert(forall|j: int| 0 <= j < ts.drop_first().len() ==> ts.drop_first()[j] == ts[j + 1]);
    if i == 0 {
        assert(stepped.dom().contains(l) && stepped[l].translation == ts[0]);
        assert forall|j: int| 0 <= j < es.drop_first().len() implies !(mapping.dom().contains(
            #[trigger] es.drop_first()[j],
        ) && mapping[es.drop_first()[j]] == l) by {
            if mapping.dom().contains(es[j + 1]) && mapping[es[j + 1]] == l {
                assert(es[j + 1] == es[0]);
            }
        }
        lemma_snapshot_untouched(mapping, stepped, es.drop_first(), ts.drop_first(), l);
    } else {
        assert(stepped.dom().contains(l) && stepped[l] == locals[l]) by {
            if mapping.dom().contains(es[0]) {
                assert(mapping[es[0]] != l);
            }
        }
        lemma_snapshot_convergence(mapping, stepped, es.drop_first(), ts.drop_first(), i - 1);
    }
}

/// One lifecycle message adds at most the identifier it spawns to the
/// mapping's domain.
pub proof fn lemma_step_mapping_dom(v: ClientView, m: ServerMessages)
    ensures
        forall|e: u64| #[trigger] apply_message_spec(v, m).mapping.dom().contains(e)
            ==> v.mapping.dom().contains(e) || created_entity(m) == Some(e),
{
}

/// The reconciliation state after a whole sequence of reliable lifecycle
/// messages, in arrival order.
pub open spec fn apply_messages_spec(v: ClientView, msgs: Seq<ServerMessages>) -> ClientView
    decreases msgs.len(),
{
    if msgs.len() == 0 {
        v
    } else {
        apply_messages_spec(apply_message_spec(v, msgs.first()), msgs.drop_first())
    }
}

/// The mapping holds no identifier out of nowhere: after any sequence of
/// lifecycle messages, every mapped identifier either was mapped before the
/// sequence or was spawned by one of its messages.
pub proof fn lemma_mapping_only_created(v: ClientView, msgs: Seq<ServerMessages>)
    ensures
        forall|e: u64|
            #[trigger] apply_messages_spec(v, msgs).mapping.dom().contains(e)
                ==> v.mapping.dom().contains(e) || exists|i: int|
                0 <= i < msgs.len() && created_entity(msgs[i]) == Some(e),
    decreases msgs.len(),
{
    if msgs.len() > 0 {
        let m0 = msgs.first();
        let v1 = apply_message_spec(v, m0);
        let rest = msgs.drop_first();
        lemma_mapping_only_created(v1, rest);
        lemma_step_mapping_dom(v, m0);
        assert forall|e: u64|
            #[trigger] apply_messages_spec(v, msgs).mapping.dom().contains(e)
                && !v.mapping.dom().contains(e) implies exists|i: int|
            0 <= i < msgs.len() && created_entity(msgs[i]) == Some(e) by {
            assert(apply_messages_spec(v1, rest).mapping.dom().contains(e));
            if v1.mapping.dom().contains(e) {
                assert(created_entity(msgs[0]) == Some(e));
            } else {
                assert(exists|i: int|
                    0 <= i < rest.len() && created_entity(rest[i]) == Some(e));
                let i = choose|i: int| 0 <= i < rest.len() && created_entity(rest[i]) == Some(e);
                assert(rest[i] == msgs[i + 1]);
                assert(created_entity(msgs[i + 1]) == Some(e));
            }
        }
    }
}

/// From a fresh client, the network mapping never contains an identifier
/// for which no lifecycle spawn was received.
pub proof fn lemma_mapping_only_from_lifecycle(own_id: u64, msgs: Seq<ServerMessages>)
    ensures
        forall|e: u64|
            #[trigger] apply_messages_spec(initial_view(own_id), msgs).mapping.dom().contains(e)
                ==> exists|i: int| 0 <= i < msgs.len() && created_entity(msgs[i]) == Some(e),
{
    lemma_mapping_only_created(initial_view(own_id), msgs);
}

/// The server entity identifier a lifecycle message despawns by name, if
/// it is a despawn. A player removal names a connection, not an entity, so
/// it is not a despawn in this sense.
pub open spec fn despawned_entity(m: ServerMessages) -> Option<u64> {
    match m {
        ServerMessages::DespawnProjectile { entity } => Some(entity),
        ServerMessages::DespawnWorldBlock { entity } => Some(entity),
        _ => None,
    }
}

/// Folding a message sequence decomposes at its last message.
pub proof fn lemma_apply_messages_push(
    v: ClientView,
    msgs: Seq<ServerMessages>,
    m: ServerMessages,
)
    ensures
        apply_messages_spec(v, msgs.push(m)) == apply_message_spec(
            apply_messages_spec(v, msgs),
            m,
        ),
    decreases msgs.len(),
{
    reveal_with_fuel(apply_messages_spec, 2);
    if msgs.len() == 0 {
        assert(msgs.push(m).first() == m);
        assert(msgs.push(m).drop_first() =~= Seq::<ServerMessages>::empty());
    } else {
        assert(msgs.push(m).first() == msgs.first());
        assert(msgs.push(m).drop_first() =~= msgs.drop_first().push(m));
        lemma_apply_messages_push(apply_message_spec(v, msgs.first()), msgs.drop_first(), m);
    }
}

/// The mapping holds an identifier only on the strength of the reliable
/// channel: behind every mapped identifier stands a received spawn that no
/// later received despawn of that identifier has undone — or a binding
/// older than the whole sequence, which no message of it despawned.
pub proof fn lemma_mapping_spawned_not_despawned(v: ClientView, msgs: Seq<ServerMessages>)
    ensures
        forall|e: u64| #[trigger] apply_messages_spec(v, msgs).mapping.dom().contains(e)
            ==> (exists|i: int|
                0 <= i < msgs.len() && created_entity(msgs[i]) == Some(e) && (forall|j: int|
                    i < j < msgs.len() ==> despawned_entity(msgs[j]) != Some(e))) || (
            v.mapping.dom().contains(e) && (forall|j: int|
                0 <= j < msgs.len() ==> despawned_entity(msgs[j]) != Some(e))),
    decreases msgs.len(),
{
    if msgs.len() > 0 {
        let t = msgs.drop_last();
        let m = msgs.last();
        assert(t.push(m) =~= msgs);
        lemma_apply_messages_push(v, t, m);
        lemma_mapping_spawned_not_despawned(v, t);
        let w = apply_messages_spec(v, t);
        let w1 = apply_messages_spec(v, msgs);
        assert(w1 == apply_message_spec(w, m));
        assert(forall|j: int| 0 <= j < t.len() ==> t[j] == msgs[j]);
        assert forall|e: u64| #[trigger] w1.mapping.dom().contains(e) implies (exists|i: int|
            0 <= i < msgs.len() && created_entity(msgs[i]) == Some(e) && (forall|j: int|
                i < j < msgs.len() ==> despawned_entity(msgs[j]) != Some(e))) || (
        v.mapping.dom().contains(e) && (forall|j: int|
            0 <= j < msgs.len() ==> despawned_entity(msgs[j]) != Some(e))) by {
            if created_entity(m) == Some(e) {
                let i = msgs.len() - 1;
                assert(created_entity(msgs[i]) == Some(e));
                assert(forall|j: int| i < j < msgs.len() ==> despawned_entity(msgs[j]) != Some(
                    e,
                ));
            } else {
                assert(despawned_entity(m) != Some(e)) by {
                    if despawned_entity(m) == Some(e) {
                        assert(!w1.mapping.dom().contains(e));
                    }
                }
                lemma_step_mapping_dom(w, m);
                assert(w.mapping.dom().contains(e));
                if exists|i: int|
                    0 <= i < t.len() && created_entity(t[i]) == Some(e) && (forall|j: int|
                        i < j < t.len() ==> despawned_entity(t[j]) != Some(e)) {
                    let i = choose|i: int|
                        0 <= i < t.len() && created_entity(t[i]) == Some(e) && (forall|j: int|
                            i < j < t.len() ==> despawned_entity(t[j]) != Some(e));
                    assert(created_entity(msgs[i]) == Some(e));
                    assert forall|j: int| i < j < msgs.len() implies despawned_entity(msgs[j])
                        != Some(e) by {
                        if j < t.len() {
                            assert(despawned_entity(t[j]) != Some(e));
                        } else {
                            assert(msgs[j] == m);
                        }
                    }
                } else {
                    assert(v.mapping.dom().contains(e) && (forall|j: int|
                        0 <= j < t.len() ==> despawned_entity(t[j]) != Some(e)));
                    assert forall|j: int| 0 <= j < msgs.len() implies despawned_entity(msgs[j])
                        != Some(e) by {
                        if j < t.len() {
                            assert(despawned_entity(t[j]) != Some(e));
                        } else {
                            assert(msgs[j] == m);
                        }
                    }
                }
            }
        }
    }
}

/// Disconnect cleanup, client side: a player removal for a registered
/// connection drops the lobby mirror entry, unbinds the player's server
/// entity from the mapping, and destroys the player's local entity.
pub proof fn lemma_player_remove_unmaps(v: ClientView, id: u64)
    requires
        v.players.dom().contains(id),
    ensures
        !apply_message_spec(v, ServerMessages::PlayerRemove { id }).players.dom().contains(id),
        !apply_message_spec(v, ServerMessages::PlayerRemove { id }).mapping.dom().contains(
            v.players[id].server_entity,
        ),
        !apply_message_spec(v, ServerMessages::PlayerRemove { id }).locals.dom().contains(
            v.players[id].client_entity,
        ),
{
}

} // verus!
