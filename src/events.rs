//! Events of the signaling channel and their binary encoding.
use vstd::prelude::*;
use crate::bytes::{be_bytes, push_be};
use crate::{Handle, RoomId};

verus! {

/// Tag byte of `JoinedRoom`.
pub const TAG_JOINED_ROOM: u8 = 1;
/// Tag byte of `YouAre`.
pub const TAG_YOU_ARE: u8 = 2;
/// Tag byte of `PeerJoined`.
pub const TAG_PEER_JOINED: u8 = 3;
/// Tag byte of `PeerLeft`.
pub const TAG_PEER_LEFT: u8 = 4;

/// A message pushed to a connected client.
#[derive(Debug, Clone, Copy, PartialEq, Eq, Structural)]
pub enum WsEvent {
    /// The client is bound to this room.
    JoinedRoom(RoomId),
    /// The client's own role.
    YouAre(Handle),
    /// A peer with this role is now in the room.
    PeerJoined(Handle),
    /// The peer with this role has left the room.
    PeerLeft(Handle),
}

/// The wire form of `e`: its tag, then its payload big-endian.
pub open spec fn event_bytes(e: WsEvent) -> Seq<u8> {
    match e {
        WsEvent::JoinedRoom(r) => seq![TAG_JOINED_ROOM] + be_bytes(r as u128, 8),
        WsEvent::YouAre(h) => seq![TAG_YOU_ARE] + be_bytes(h as u128, 4),
        WsEvent::PeerJoined(h) => seq![TAG_PEER_JOINED] + be_bytes(h as u128, 4),
        WsEvent::PeerLeft(h) => seq![TAG_PEER_LEFT] + be_bytes(h as u128, 4),
    }
}

/// The length of `be_bytes(x, n)` is `n`.
pub proof fn lemma_be_bytes_len(x: u128, n: nat)
    ensures
        be_bytes(x, n).len() == n,
    decreases n,
{
    if n > 0 {
        lemma_be_bytes_len(x / 256, (n - 1) as nat);
    }
}

impl WsEvent {
    /// Encodes the event as one binary frame: 9 bytes for `JoinedRoom`,
    /// 5 for the others.
    pub fn encode(&self) -> (r: Vec<u8>)
        ensures
            r@ == event_bytes(*self),
            r@.len() == (if self is JoinedRoom { 9int } else { 5int }),
    {
        let mut out: Vec<u8> = Vec::new();
        match *self {
            WsEvent::JoinedRoom(room_id) => {
                out.push(TAG_JOINED_ROOM);
                push_be(&mut out, room_id as u128, 8);
                proof { lemma_be_bytes_len(room_id as u128, 8); }
            },
            WsEvent::YouAre(handle) => {
                out.push(TAG_YOU_ARE);
                push_be(&mut out, handle as u128, 4);
                proof { lemma_be_bytes_len(handle as u128, 4); }
            },
            WsEvent::PeerJoined(handle) => {
                out.push(TAG_PEER_JOINED);
                push_be(&mut out, handle as u128, 4);
                proof { lemma_be_bytes_len(handle as u128, 4); }
            },
            WsEvent::PeerLeft(handle) => {
                out.push(TAG_PEER_LEFT);
                push_be(&mut out, handle as u128, 4);
                proof { lemma_be_bytes_len(handle as u128, 4); }
            },
        }
        assert(out@ =~= event_bytes(*self));
        out
    }
}

} // verus!
