//! Server-authoritative state replication for a multiplayer simulation.
//!
//! A server owns the canonical world state and streams lifecycle events and
//! periodic full snapshots to clients over two delivery disciplines; each
//! client reconciles them into its own local entity space. This crate holds
//! the replication core: the wire protocol, the binary codec, the server's
//! authority bookkeeping, and the client's reconciliation store. Transport
//! I/O, rendering, physics and input capture are external collaborators and
//! stay outside the crate.

use vstd::prelude::*;

pub mod client;
pub mod codec;
pub mod feed;
pub mod idmap;
pub mod protocol;
pub mod server;

verus! {

/// Application-level protocol version tag presented at connection time.
pub const PROTOCOL_ID: u64 = 7;

/// A server accepts exactly the connections that present its own protocol tag.
pub fn accepts_protocol(tag: u64) -> (r: bool)
    ensures
        r == (tag == PROTOCOL_ID),
{
    tag == PROTOCOL_ID
}

} // verus!
