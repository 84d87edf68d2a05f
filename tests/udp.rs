use synapse::endpoint::{AppUdpState, Endpoint, IpAddr};
use synapse::punch::{encode_socket, encode_waiting, parse_client_id, punch_datagram, punch_replies};
use synapse::relay::relay_datagram;
use synapse::room::AppRoomState;
use synapse::events::WsEvent;
use synapse::{GUEST, HOST};

fn v4(a: [u8; 4], port: u16) -> Endpoint {
    Endpoint { ip: IpAddr::V4(u32::from_be_bytes(a)), port }
}

fn id_bytes(id: u128) -> Vec<u8> {
    id.to_be_bytes().to_vec()
}

#[test]
fn waiting_encoding() {
    assert_eq!(encode_waiting(), vec![2]);
}

#[test]
fn found_peer_encoding_v4() {
    assert_eq!(encode_socket(v4([192, 168, 1, 2], 0x1f90)), vec![1, 4, 192, 168, 1, 2, 0x1f, 0x90]);
}

#[test]
fn found_peer_encoding_v6() {
    let ip: u128 = 0x2001_0db8_0000_0000_0000_0000_0000_0001;
    let r = encode_socket(Endpoint { ip: IpAddr::V6(ip), port: 443 });
    let mut want = vec![1u8, 6];
    want.extend_from_slice(&ip.to_be_bytes());
    want.extend_from_slice(&[1, 187]);
    assert_eq!(r.len(), 20);
    assert_eq!(r, want);
}

#[test]
fn client_id_parsing() {
    assert_eq!(parse_client_id(&id_bytes(100)), Some(100));
    assert_eq!(parse_client_id(&id_bytes(u128::MAX)), Some(u128::MAX));
    assert_eq!(parse_client_id(&[1, 2, 3]), None);
    assert_eq!(parse_client_id(&[]), None);
    assert_eq!(parse_client_id(&[0u8; 17]), None);
}

#[test]
fn registry_records_and_migrates() {
    let mut u = AppUdpState::new();
    let x = v4([1, 1, 1, 1], 1000);
    let y = v4([2, 2, 2, 2], 2000);
    u.observe(7, x, 1);
    assert_eq!(u.addr_of(7), Some(x));
    assert_eq!(u.client_at(x), Some(7));
    u.observe(7, y, 2);
    assert_eq!(u.client_at(x), None);
    assert_eq!(u.client_at(y), Some(7));
    assert_eq!(u.addr_of(7), Some(y));
    u.cleanup_udp(7);
    assert_eq!(u.client_at(y), None);
    assert_eq!(u.addr_of(7), None);
}

#[test]
fn registry_shared_address_resolves_to_one_client() {
    let mut u = AppUdpState::new();
    let x = v4([1, 1, 1, 1], 1000);
    let y = v4([2, 2, 2, 2], 2000);
    u.observe(7, x, 1);
    u.observe(8, x, 2);
    assert_eq!(u.client_at(x), Some(8));
    // 7 moving away leaves 8's entry in place.
    u.observe(7, y, 3);
    assert_eq!(u.client_at(x), Some(8));
    assert_eq!(u.client_at(y), Some(7));
    u.touch(8, 9);
    assert_eq!(u.addr_of(8), Some(x));
}

#[test]
fn punch_waits_until_both_known() {
    let mut d = AppRoomState::new();
    let mut u = AppUdpState::new();
    d.create_room(1).unwrap();
    d.join_room(0, 2).unwrap();
    let x = v4([10, 0, 0, 1], 5000);
    for t in 0..3u64 {
        let r = punch_datagram(&d, &mut u, &id_bytes(1), x, t);
        assert_eq!(r, vec![(x, vec![2])]);
    }
}

#[test]
fn punch_without_room_waits() {
    let d = AppRoomState::new();
    let mut u = AppUdpState::new();
    let x = v4([10, 0, 0, 1], 5000);
    assert_eq!(punch_datagram(&d, &mut u, &id_bytes(9), x, 0), vec![(x, vec![2])]);
    assert_eq!(u.client_at(x), Some(9));
}

#[test]
fn punch_malformed_is_dropped() {
    let d = AppRoomState::new();
    let mut u = AppUdpState::new();
    let x = v4([10, 0, 0, 1], 5000);
    assert!(punch_datagram(&d, &mut u, &[1, 2, 3], x, 0).is_empty());
    assert_eq!(u.client_at(x), None);
}

#[test]
fn punch_pairs_both_sides() {
    let mut d = AppRoomState::new();
    let mut u = AppUdpState::new();
    d.create_room(1).unwrap();
    d.join_room(0, 2).unwrap();
    let x = v4([10, 0, 0, 1], 5000);
    let y = v4([10, 0, 0, 2], 6000);
    u.observe(1, x, 0);
    u.observe(2, y, 0);
    let want = vec![(x, encode_socket(y)), (y, encode_socket(x))];
    assert_eq!(punch_replies(&d, &u, 1, x), want);
    assert_eq!(punch_replies(&d, &u, 2, y), want);
}

#[test]
fn relay_forwards_to_peer() {
    let mut d = AppRoomState::new();
    let mut u = AppUdpState::new();
    d.create_room(1).unwrap();
    d.join_room(0, 2).unwrap();
    let x = v4([10, 0, 0, 1], 5000);
    let y = v4([10, 0, 0, 2], 6000);
    u.observe(1, x, 0);
    u.observe(2, y, 0);
    let payload = vec![9u8, 8, 7, 0, 255];
    assert_eq!(relay_datagram(&d, &mut u, x, &payload, 5), Some((y, payload.clone())));
    assert_eq!(relay_datagram(&d, &mut u, y, &payload, 6), Some((x, payload.clone())));
}

#[test]
fn relay_drops_unregistered_and_unpaired() {
    let mut d = AppRoomState::new();
    let mut u = AppUdpState::new();
    d.create_room(1).unwrap();
    let x = v4([10, 0, 0, 1], 5000);
    let z = v4([10, 0, 0, 9], 9000);
    u.observe(1, x, 0);
    assert_eq!(relay_datagram(&d, &mut u, z, &[1, 2], 1), None);
    assert_eq!(relay_datagram(&d, &mut u, x, &[1, 2], 1), None);
    d.join_room(0, 2).unwrap();
    // The peer has no known endpoint yet.
    assert_eq!(relay_datagram(&d, &mut u, x, &[1, 2], 1), None);
}

#[test]
fn end_to_end_scenario() {
    let mut d = AppRoomState::new();
    let mut u = AppUdpState::new();
    let a: u128 = 100;
    let b: u128 = 200;
    let room = d.create_room(a).unwrap();
    assert_eq!(room, 0);
    assert_eq!(
        d.connect_events(a, room, HOST),
        vec![(a, WsEvent::JoinedRoom(0)), (a, WsEvent::YouAre(HOST))]
    );
    assert_eq!(d.join_room(0, b), Ok(GUEST));
    assert_eq!(
        d.connect_events(b, 0, GUEST),
        vec![
            (b, WsEvent::JoinedRoom(0)),
            (b, WsEvent::YouAre(GUEST)),
            (b, WsEvent::PeerJoined(HOST)),
            (a, WsEvent::PeerJoined(GUEST)),
        ]
    );
    let x = v4([203, 0, 113, 5], 40000);
    let y = v4([198, 51, 100, 7], 50000);
    assert_eq!(punch_datagram(&d, &mut u, &id_bytes(a), x, 1), vec![(x, vec![2])]);
    let r = punch_datagram(&d, &mut u, &id_bytes(b), y, 2);
    assert_eq!(
        r,
        vec![
            (x, vec![1, 4, 198, 51, 100, 7, 0xc3, 0x50]),
            (y, vec![1, 4, 203, 0, 113, 5, 0x9c, 0x40]),
        ]
    );
}
