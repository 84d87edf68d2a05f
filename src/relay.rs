//! The relay forwarder: where a relayed payload goes.
use vstd::prelude::*;
use crate::endpoint::{AppUdpState, EpModel, Endpoint};
use crate::room::{AppRoomState, DirModel};

verus! {

/// Where a payload from `src` is forwarded: the current address of the
/// sender's peer, if the sender is registered, paired, and its peer's
/// address is known.
pub open spec fn relay_dest(dir: DirModel, eps: EpModel, src: Endpoint) -> Option<Endpoint> {
    match eps.client_at(src) {
        Some(c) => match dir.peer(c) {
            Some(p) => eps.addr_of(p),
            None => None,
        },
        None => None,
    }
}

/// The registry after a relayed datagram from `src` at `now`: a registered
/// sender is marked as seen.
pub open spec fn relay_touch(eps: EpModel, src: Endpoint, now: u64) -> EpModel {
    match eps.client_at(src) {
        Some(c) => eps.touch(c, now),
        None => eps,
    }
}

/// Handles one relayed datagram `payload` from `src` at `now`: returns the
/// destination and the bytes to send there, unchanged, or nothing.
pub fn relay_datagram(rooms: &AppRoomState, udp: &mut AppUdpState, src: Endpoint, payload: &[u8], now: u64) -> (r: Option<(Endpoint, Vec<u8>)>)
    requires
        old(udp).wf(),
    ensures
        final(udp).wf(),
        final(udp)@ == relay_touch(old(udp)@, src, now),
        match relay_dest(rooms@, old(udp)@, src) {
            Some(dst) => r matches Some((d, bytes)) && d == dst && bytes@ == payload@,
            None => r is None,
        },
{
    let client_id = match udp.client_at(src) {
        Some(c) => c,
        None => {
            return None;
        },
    };
    udp.touch(client_id, now);
    let peer = match rooms.get_peer(client_id) {
        Some(p) => p,
        None => {
            return None;
        },
    };
    let dst = match udp.addr_of(peer) {
        Some(a) => a,
        None => {
            return None;
        },
    };
    let mut bytes: Vec<u8> = Vec::new();
    let mut i: usize = 0;
    while i < payload.len()
        invariant
            i <= payload@.len(),
            bytes@ == payload@.take(i as int),
        decreases payload@.len() - i,
    {
        bytes.push(payload[i]);
        assert(payload@.take(i + 1) =~= payload@.take(i as int).push(payload@[i as int]));
        i = i + 1;
    }
    assert(payload@.take(payload@.len() as int) =~= payload@);
    Some((dst, bytes))
}

/// A payload from an address that resolves to no client goes nowhere; one
/// from a paired sender whose peer's address is known goes to that address.
pub proof fn lemma_relay_route(dir: DirModel, e: EpModel, src: Endpoint)
    ensures
        e.client_at(src) is None ==> relay_dest(dir, e, src) is None,
        e.client_at(src) matches Some(c) ==> (dir.peer(c) matches Some(p) ==> e.addrs.contains_key(p)
            ==> relay_dest(dir, e, src) == Some(e.addrs[p].udp_addr)),
{
}

} // verus!
