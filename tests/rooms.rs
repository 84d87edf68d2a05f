use synapse::error::ApiError;
use synapse::events::WsEvent;
use synapse::room::{AppRoomState, ClientState};
use synapse::{GUEST, HOST};

#[test]
fn client_state_new_holds_room() {
    assert_eq!(ClientState::new(7).room, 7);
}

#[test]
fn room_ids_start_at_zero_and_increase() {
    let mut d = AppRoomState::new();
    assert_eq!(d.create_room(1), Ok(0));
    assert_eq!(d.create_room(2), Ok(1));
    d.leave_room_on_disconnect(1);
    d.leave_room_on_disconnect(2);
    assert_eq!(d.create_room(3), Ok(2));
}

#[test]
fn join_never_created_is_not_found() {
    let mut d = AppRoomState::new();
    assert_eq!(d.join_room(0, 5), Err(ApiError::NotFound));
    assert_eq!(d.create_room(1), Ok(0));
    assert_eq!(d.join_room(1, 5), Err(ApiError::NotFound));
}

#[test]
fn join_full_room_is_conflict() {
    let mut d = AppRoomState::new();
    d.create_room(1).unwrap();
    assert_eq!(d.join_room(0, 2), Ok(GUEST));
    assert_eq!(d.join_room(0, 3), Err(ApiError::Conflict));
}

#[test]
fn join_other_room_while_bound_is_conflict() {
    let mut d = AppRoomState::new();
    d.create_room(1).unwrap();
    d.create_room(2).unwrap();
    assert_eq!(d.join_room(1, 1), Err(ApiError::Conflict));
    // Joining its own room is allowed: the client then holds both slots.
    assert_eq!(d.join_room(0, 1), Ok(GUEST));
    assert_eq!(d.get_peer(1), Some(1));
}

#[test]
fn create_while_bound_rebinds() {
    let mut d = AppRoomState::new();
    d.create_room(1).unwrap();
    assert_eq!(d.create_room(1), Ok(1));
    assert_eq!(d.join_room(0, 1), Err(ApiError::Conflict));
}

#[test]
fn get_peer_resolves_other_occupant() {
    let mut d = AppRoomState::new();
    d.create_room(10).unwrap();
    assert_eq!(d.get_peer(10), None);
    assert_eq!(d.get_peer(99), None);
    d.join_room(0, 20).unwrap();
    assert_eq!(d.get_peer(10), Some(20));
    assert_eq!(d.get_peer(20), Some(10));
    assert_eq!(d.host_and_guest(20), Some((10, 20)));
}

#[test]
fn host_disconnect_promotes_guest() {
    let mut d = AppRoomState::new();
    d.create_room(10).unwrap();
    d.join_room(0, 20).unwrap();
    let n = d.leave_room_on_disconnect(10);
    assert_eq!(n, vec![(20, WsEvent::PeerLeft(HOST)), (20, WsEvent::YouAre(HOST))]);
    assert_eq!(d.get_peer(20), None);
    assert_eq!(d.host_and_guest(20), None);
    // The room is Open again: a new guest can join it.
    assert_eq!(d.join_room(0, 30), Ok(GUEST));
    assert_eq!(d.host_and_guest(30), Some((20, 30)));
}

#[test]
fn host_disconnect_alone_destroys_room() {
    let mut d = AppRoomState::new();
    d.create_room(10).unwrap();
    let n = d.leave_room_on_disconnect(10);
    assert!(n.is_empty());
    assert_eq!(d.join_room(0, 20), Err(ApiError::NotFound));
}

#[test]
fn guest_disconnect_reopens_room() {
    let mut d = AppRoomState::new();
    d.create_room(10).unwrap();
    d.join_room(0, 20).unwrap();
    let n = d.leave_room_on_disconnect(20);
    assert_eq!(n, vec![(10, WsEvent::PeerLeft(GUEST))]);
    assert_eq!(d.get_peer(10), None);
    assert_eq!(d.join_room(0, 30), Ok(GUEST));
    assert_eq!(d.get_peer(30), Some(10));
}

#[test]
fn disconnect_of_unknown_client_is_quiet() {
    let mut d = AppRoomState::new();
    assert!(d.leave_room_on_disconnect(42).is_empty());
    d.create_room(1).unwrap();
    assert!(d.leave_room_on_disconnect(42).is_empty());
    assert_eq!(d.join_room(0, 2), Ok(GUEST));
}

#[test]
fn connect_events_for_host_and_guest() {
    let mut d = AppRoomState::new();
    d.create_room(100).unwrap();
    assert_eq!(
        d.connect_events(100, 0, HOST),
        vec![(100, WsEvent::JoinedRoom(0)), (100, WsEvent::YouAre(HOST))]
    );
    d.join_room(0, 200).unwrap();
    assert_eq!(
        d.connect_events(200, 0, GUEST),
        vec![
            (200, WsEvent::JoinedRoom(0)),
            (200, WsEvent::YouAre(GUEST)),
            (200, WsEvent::PeerJoined(HOST)),
            (100, WsEvent::PeerJoined(GUEST)),
        ]
    );
}

#[test]
fn event_encodings() {
    assert_eq!(WsEvent::JoinedRoom(0).encode(), vec![1, 0, 0, 0, 0, 0, 0, 0, 0]);
    assert_eq!(
        WsEvent::JoinedRoom(0x0102030405060708).encode(),
        vec![1, 1, 2, 3, 4, 5, 6, 7, 8]
    );
    assert_eq!(WsEvent::YouAre(1).encode(), vec![2, 0, 0, 0, 1]);
    assert_eq!(WsEvent::PeerJoined(0).encode(), vec![3, 0, 0, 0, 0]);
    assert_eq!(WsEvent::PeerLeft(0x0a0b0c0d).encode(), vec![4, 0x0a, 0x0b, 0x0c, 0x0d]);
}
