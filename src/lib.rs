//! A rendezvous and NAT-traversal signaling server, as verified logic.
//!
//! The library holds the room directory and its lifecycle, the registry of
//! observed UDP endpoints, the binary wire formats of the signaling channel
//! and of the UDP protocols, and the decisions of the punch coordinator and
//! of the relay forwarder. Sockets, tasks and locks live outside it.
use vstd::prelude::*;

pub mod bytes;
pub mod endpoint;
pub mod error;
pub mod events;
pub mod punch;
pub mod relay;
pub mod request;
pub mod room;

verus! {

/// Server-generated room identity.
pub type RoomId = u64;

/// Client-supplied identity, trusted as presented.
pub type ClientId = u128;

/// A position within a room: `HOST` or `GUEST`.
pub type Handle = u32;

/// The role of the room's creator.
pub const HOST: Handle = 0;

/// The role of the client that joined an existing room.
pub const GUEST: Handle = 1;

} // verus!
