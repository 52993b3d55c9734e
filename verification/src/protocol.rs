//! Wire protocol: the closed set of messages exchanged between server and
//! clients, and the channels that carry them.
//!
//! Lifecycle events (creation and destruction of identity) travel on a
//! reliable ordered channel; per-tick position snapshots travel on an
//! unreliable channel and are each self-sufficient, so a lost snapshot is
//! simply superseded by the next one.

use vstd::prelude::*;

verus! {

/// A replicated world-space translation. Each component carries the raw
/// 32-bit encoding of the simulation's scalar type; the replication layer
/// transports these words verbatim and never computes on them.
#[derive(Clone, Copy, Debug, PartialEq, Eq, Structural)]
pub struct Translation {
    pub x: u32,
    pub y: u32,
    pub z: u32,
}

/// Lifecycle events, server to client, on the reliable ordered channel.
/// Delivered exactly once and in send order: a lost creation would leave
/// snapshot entries referencing an unknown identifier forever, and a lost
/// destruction would leak a client-side entity forever.
#[derive(Clone, Copy, Debug, PartialEq, Eq, Structural)]
pub enum ServerMessages {
    PlayerCreate { id: u64, entity: u64, translation: Translation },
    PlayerRemove { id: u64 },
    SpawnProjectile { entity: u64, translation: Translation },
    DespawnProjectile { entity: u64 },
    SpawnWorldBlock { entity: u64, translation: Translation, slot: u64 },
    DespawnWorldBlock { entity: u64 },
}

/// A discrete player-issued action, client to server, on the reliable
/// ordered channel. Produced once per physical event, consumed once.
#[derive(Clone, Copy, Debug, PartialEq, Eq, Structural)]
pub enum PlayerCommand {
    BasicAttack { cast_at: Translation },
}

/// The latest known player input: the position stated by the controlling
/// camera, sent every tick on the unreliable channel. Only the most recent
/// value matters; loss is harmless because the next tick supersedes it.
#[derive(Clone, Copy, Debug, PartialEq, Eq, Structural)]
pub struct PlayerInput {
    pub position: Translation,
}

/// One full position snapshot: every live replicated entity's identifier and
/// translation, as two parallel columns. Sent once per server tick on the
/// unreliable channel. This message never introduces identity: an identifier
/// the receiver does not already know is skipped.
#[derive(Debug, PartialEq, Eq)]
pub struct NetworkedEntities {
    pub entities: Vec<u64>,
    pub translations: Vec<Translation>,
}

impl NetworkedEntities {
    /// The two columns describe the same entities, so they have one length.
    pub open spec fn wf(&self) -> bool {
        self.entities@.len() == self.translations@.len()
    }

    pub fn new() -> (r: NetworkedEntities)
        ensures
            r.wf(),
            r.entities@ =~= Seq::<u64>::empty(),
            r.translations@ =~= Seq::<Translation>::empty(),
    {
        NetworkedEntities { entities: Vec::new(), translations: Vec::new() }
    }

    /// Appends one (identifier, translation) pair to the snapshot.
    pub fn push(&mut self, entity: u64, translation: Translation)
        requires
            old(self).wf(),
        ensures
            final(self).wf(),
            final(self).entities@ == old(self).entities@.push(entity),
            final(self).translations@ == old(self).translations@.push(translation),
    {
        self.entities.push(entity);
        self.translations.push(translation);
    }
}

/// Channels from client to server.
#[derive(Clone, Copy, Debug, PartialEq, Eq, Structural)]
pub enum ClientChannel {
    /// Latest player position, unreliable: superseded every tick.
    Input,
    /// Discrete action requests, reliable ordered.
    Command,
}

/// Channels from server to client.
#[derive(Clone, Copy, Debug, PartialEq, Eq, Structural)]
pub enum ServerChannel {
    /// Lifecycle events, reliable ordered.
    ServerMessages,
    /// Full position snapshots, unreliable unordered.
    NetworkedEntities,
}

impl ClientChannel {
    /// Whether the transport must deliver this channel exactly once, in order.
    pub open spec fn spec_reliable(self) -> bool {
        self is Command
    }

    /// The channel's wire identifier: distinct per channel within a direction.
    pub fn channel_id(self) -> (r: u8)
        ensures
            r == (if self is Input { 0u8 } else { 1u8 }),
    {
        match self {
            ClientChannel::Input => 0,
            ClientChannel::Command => 1,
        }
    }

    pub fn reliable(self) -> (r: bool)
        ensures
            r == self.spec_reliable(),
    {
        match self {
            ClientChannel::Input => false,
            ClientChannel::Command => true,
        }
    }
}

impl ServerChannel {
    /// Whether the transport must deliver this channel exactly once, in order.
    pub open spec fn spec_reliable(self) -> bool {
        self is ServerMessages
    }

    /// The channel's wire identifier: distinct per channel within a direction.
    pub fn channel_id(self) -> (r: u8)
        ensures
            r == (if self is ServerMessages { 0u8 } else { 1u8 }),
    {
        match self {
            ServerChannel::ServerMessages => 0,
            ServerChannel::NetworkedEntities => 1,
        }
    }

    pub fn reliable(self) -> (r: bool)
        ensures
            r == self.spec_reliable(),
    {
        match self {
            ServerChannel::ServerMessages => true,
            ServerChannel::NetworkedEntities => false,
        }
    }
}

} // verus!
