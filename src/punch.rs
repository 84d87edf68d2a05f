//! The hole-punch coordinator: its wire formats, and what it answers to
//! each datagram.
use vstd::prelude::*;
use crate::bytes::{be_bytes, be_value, push_be, read_be};
use crate::endpoint::{AppUdpState, EpModel, Endpoint, IpAddr};
use crate::events::lemma_be_bytes_len;
use crate::room::{AppRoomState, DirModel};
use crate::ClientId;

verus! {

/// Tag byte of a reply that carries the peer's address.
pub const FOUND_PEER: u8 = 1;
/// Tag byte of a reply that says the peer's address is not known yet.
pub const WAITING_PEER: u8 = 2;
/// Length of the client identity that a punch datagram carries.
pub const CLIENT_ID_LEN: usize = 16;

/// `WaitingPeer`: its tag alone.
pub open spec fn waiting_bytes() -> Seq<u8> {
    seq![WAITING_PEER]
}

/// `FoundPeer`: tag, family (4 or 6), address bytes, port, all big-endian.
pub open spec fn found_bytes(peer: Endpoint) -> Seq<u8> {
    match peer.ip {
        IpAddr::V4(a) => seq![FOUND_PEER, 4u8] + be_bytes(a as u128, 4) + be_bytes(peer.port as u128, 2),
        IpAddr::V6(a) => seq![FOUND_PEER, 6u8] + be_bytes(a, 16) + be_bytes(peer.port as u128, 2),
    }
}

/// The client identity in a punch datagram: exactly 16 bytes, big-endian.
pub open spec fn client_id_of(d: Seq<u8>) -> Option<ClientId> {
    if d.len() == CLIENT_ID_LEN {
        Some(be_value(d) as ClientId)
    } else {
        None
    }
}

/// The addresses of a room's host and guest, once both are known.
pub open spec fn pairing(dir: DirModel, eps: EpModel, c: ClientId) -> Option<(Endpoint, Endpoint)> {
    if dir.clients.contains_key(c) && dir.rooms.contains_key(dir.clients[c].room) {
        let room = dir.rooms[dir.clients[c].room];
        match room.client {
            Some(g) => if eps.addrs.contains_key(room.host) && eps.addrs.contains_key(g) {
                Some((eps.addrs[room.host].udp_addr, eps.addrs[g].udp_addr))
            } else {
                None
            },
            None => None,
        }
    } else {
        None
    }
}

/// The datagrams owed to a punch from `c` at `src`: each occupant gets the
/// other's address once both are known, else the sender is told to wait.
pub open spec fn punch_answer(dir: DirModel, eps: EpModel, c: ClientId, src: Endpoint) -> Seq<(Endpoint, Seq<u8>)> {
    match pairing(dir, eps, c) {
        Some((h, g)) => seq![(h, found_bytes(g)), (g, found_bytes(h))],
        None => seq![(src, waiting_bytes())],
    }
}

/// The wire form of `WaitingPeer`.
pub fn encode_waiting() -> (r: Vec<u8>)
    ensures
        r@ == waiting_bytes(),
{
    let mut out: Vec<u8> = Vec::new();
    out.push(WAITING_PEER);
    assert(out@ =~= waiting_bytes());
    out
}

/// The wire form of `FoundPeer` for `peer`: 8 bytes for IPv4, 20 for IPv6.
pub fn encode_socket(peer: Endpoint) -> (r: Vec<u8>)
    ensures
        r@ == found_bytes(peer),
        r@.len() == (if peer.ip is V4 { 8int } else { 20int }),
{
    let mut out: Vec<u8> = Vec::new();
    out.push(FOUND_PEER);
    match peer.ip {
        IpAddr::V4(a) => {
            out.push(4);
            push_be(&mut out, a as u128, 4);
            proof { lemma_be_bytes_len(a as u128, 4); }
        },
        IpAddr::V6(a) => {
            out.push(6);
            push_be(&mut out, a, 16);
            proof { lemma_be_bytes_len(a, 16); }
        },
    }
    push_be(&mut out, peer.port as u128, 2);
    proof { lemma_be_bytes_len(peer.port as u128, 2); }
    assert(out@ =~= found_bytes(peer));
    out
}

/// The client identity that datagram `d` claims, if it is well formed.
pub fn parse_client_id(d: &[u8]) -> (r: Option<ClientId>)
    ensures
        r == client_id_of(d@),
{
    if d.len() != CLIENT_ID_LEN {
        return None;
    }
    let id = read_be(d, CLIENT_ID_LEN);
    assert(d@.take(16) =~= d@);
    Some(id)
}

/// The replies to a punch from `client_id` at `src`, once the registry has
/// recorded it.
pub fn punch_replies(rooms: &AppRoomState, udp: &AppUdpState, client_id: ClientId, src: Endpoint) -> (r: Vec<(Endpoint, Vec<u8>)>)
    ensures
        r@.len() == punch_answer(rooms@, udp@, client_id, src).len(),
        forall|i: int| 0 <= i < r@.len() ==> {
            &&& (#[trigger] r@[i]).0 == punch_answer(rooms@, udp@, client_id, src)[i].0
            &&& r@[i].1@ == punch_answer(rooms@, udp@, client_id, src)[i].1
        },
{
    let mut out: Vec<(Endpoint, Vec<u8>)> = Vec::new();
    let pair = match rooms.host_and_guest(client_id) {
        Some((host_id, guest_id)) => match (udp.addr_of(host_id), udp.addr_of(guest_id)) {
            (Some(h), Some(g)) => Some((h, g)),
            _ => None,
        },
        None => None,
    };
    match pair {
        Some((h, g)) => {
            out.push((h, encode_socket(g)));
            out.push((g, encode_socket(h)));
        },
        None => {
            out.push((src, encode_waiting()));
        },
    }
    out
}

/// Handles one datagram `d` that arrived from `src` at `now`: a malformed
/// one changes nothing and gets no reply; otherwise the sender's endpoint
/// is recorded and the replies are returned.
pub fn punch_datagram(rooms: &AppRoomState, udp: &mut AppUdpState, d: &[u8], src: Endpoint, now: u64) -> (r: Vec<(Endpoint, Vec<u8>)>)
    requires
        old(udp).wf(),
    ensures
        final(udp).wf(),
        match client_id_of(d@) {
            None => final(udp)@ == old(udp)@ && r@.len() == 0,
            Some(c) => {
                &&& final(udp)@ == old(udp)@.observe(c, src, now)
                &&& r@.len() == punch_answer(rooms@, final(udp)@, c, src).len()
                &&& forall|i: int| 0 <= i < r@.len() ==> {
                    &&& (#[trigger] r@[i]).0 == punch_answer(rooms@, final(udp)@, c, src)[i].0
                    &&& r@[i].1@ == punch_answer(rooms@, final(udp)@, c, src)[i].1
                }
            },
        },
{
    match parse_client_id(d) {
        None => Vec::new(),
        Some(client_id) => {
            udp.observe(client_id, src, now);
            punch_replies(rooms, udp, client_id, src)
        },
    }
}

/// While the other occupant's endpoint is unknown, a punch from a client
/// is answered with `WaitingPeer` to the sender alone.
pub proof fn lemma_punch_waits(dir: DirModel, e: EpModel, c: ClientId, src: Endpoint, now: u64)
    requires
        match dir.host_and_guest(c) {
            Some((h, g)) => {
                let other = if h == c { g } else { h };
                other != c && !e.addrs.contains_key(other)
            },
            None => true,
        },
    ensures
        punch_answer(dir, e.observe(c, src, now), c, src) == seq![(src, waiting_bytes())],
{
}

/// Once both occupants' endpoints are known, a punch from either one sends
/// each of them `FoundPeer` with the other's address; the sender's address
/// is the one the punch came from.
pub proof fn lemma_punch_pairs(dir: DirModel, e: EpModel, c: ClientId, src: Endpoint, now: u64, h: ClientId, g: ClientId)
    requires
        dir.host_and_guest(c) == Some((h, g)),
        c == h || c == g,
        e.observe(c, src, now).addrs.contains_key(h),
        e.observe(c, src, now).addrs.contains_key(g),
    ensures
        ({
            let e2 = e.observe(c, src, now);
            let ha = e2.addrs[h].udp_addr;
            let ga = e2.addrs[g].udp_addr;
            &&& punch_answer(dir, e2, c, src) == seq![(ha, found_bytes(ga)), (ga, found_bytes(ha))]
            &&& (if c == h { ha } else { ga }) == src
        }),
{
}

} // verus!
