//! The room directory: rooms, their two occupancy slots, and each client's
//! membership, with the room lifecycle (Open, Full, Destroyed).
use std::collections::HashMap;
use vstd::prelude::*;
use crate::error::ApiError;
use crate::events::WsEvent;
use crate::{ClientId, Handle, RoomId, GUEST, HOST};

verus! {

broadcast use vstd::std_specs::hash::group_hash_axioms;

/// The occupants of one room: its host, and its guest if one has joined.
#[derive(Debug, Clone, Copy, PartialEq, Eq, Structural)]
pub struct RoomState {
    pub host: ClientId,
    pub client: Option<ClientId>,
}

/// The room a client is currently bound to.
#[derive(Debug, Clone, Copy, PartialEq, Eq, Structural)]
pub struct ClientState {
    pub room: RoomId,
}

impl ClientState {
    pub fn new(room_id: RoomId) -> (r: Self)
        ensures
            r.room == room_id,
    {
        Self { room: room_id }
    }
}

/// The mathematical content of a room directory.
pub struct DirModel {
    pub next: RoomId,
    pub rooms: Map<RoomId, RoomState>,
    pub clients: Map<ClientId, ClientState>,
}

/// A message for a connected client.
pub type Notice = (ClientId, WsEvent);

impl DirModel {
    /// Every room was created under an id below the counter.
    pub open spec fn wf(self) -> bool {
        forall|r: RoomId| #[trigger] self.rooms.contains_key(r) ==> r < self.next
    }

    /// The directory with no rooms and no clients.
    pub open spec fn empty() -> DirModel {
        DirModel { next: 0, rooms: Map::empty(), clients: Map::empty() }
    }

    /// Creating a room for `c`: the next id, a new Open room with `c` as
    /// host, and `c` (re)bound to it; Conflict once the counter is spent.
    pub open spec fn create(self, c: ClientId) -> (DirModel, Result<RoomId, ApiError>) {
        if self.next == u64::MAX {
            (self, Err(ApiError::Conflict))
        } else {
            (
                DirModel {
                    next: (self.next + 1) as u64,
                    rooms: self.rooms.insert(self.next, RoomState { host: c, client: None }),
                    clients: self.clients.insert(c, ClientState { room: self.next }),
                },
                Ok(self.next),
            )
        }
    }

    /// Joining room `r` as its guest.
    pub open spec fn join(self, r: RoomId, c: ClientId) -> (DirModel, Result<Handle, ApiError>) {
        if self.clients.contains_key(c) && self.clients[c].room != r {
            (self, Err(ApiError::Conflict))
        } else if !self.rooms.contains_key(r) {
            (self, Err(ApiError::NotFound))
        } else if self.rooms[r].client is Some {
            (self, Err(ApiError::Conflict))
        } else {
            (
                DirModel {
                    next: self.next,
                    rooms: self.rooms.insert(r, RoomState { host: self.rooms[r].host, client: Some(c) }),
                    clients: self.clients.insert(c, ClientState { room: r }),
                },
                Ok(GUEST),
            )
        }
    }

    /// The other occupant of `c`'s room, once the room is Full.
    pub open spec fn peer(self, c: ClientId) -> Option<ClientId> {
        if self.clients.contains_key(c) && self.rooms.contains_key(self.clients[c].room) {
            let room = self.rooms[self.clients[c].room];
            match room.client {
                Some(g) => Some(if room.host == c { g } else { room.host }),
                None => None,
            }
        } else {
            None
        }
    }

    /// The host and the guest of `c`'s room, once it is Full.
    pub open spec fn host_and_guest(self, c: ClientId) -> Option<(ClientId, ClientId)> {
        if self.clients.contains_key(c) && self.rooms.contains_key(self.clients[c].room) {
            let room = self.rooms[self.clients[c].room];
            match room.client {
                Some(g) => Some((room.host, g)),
                None => None,
            }
        } else {
            None
        }
    }

    /// The events owed once `c` is connected to room `r` in role `h`.
    pub open spec fn connect_notices(self, c: ClientId, r: RoomId, h: Handle) -> Seq<Notice> {
        let own = seq![(c, WsEvent::JoinedRoom(r)), (c, WsEvent::YouAre(h))];
        if h == HOST {
            own
        } else if self.rooms.contains_key(r) {
            own + seq![(c, WsEvent::PeerJoined(HOST)), (self.rooms[r].host, WsEvent::PeerJoined(GUEST))]
        } else {
            own + seq![(c, WsEvent::PeerJoined(HOST))]
        }
    }

    /// The directory after `c`'s connection ended, and the events owed.
    pub open spec fn leave(self, c: ClientId) -> (DirModel, Seq<Notice>) {
        if !self.clients.contains_key(c) {
            (self, Seq::empty())
        } else {
            let r = self.clients[c].room;
            let gone = DirModel { next: self.next, rooms: self.rooms, clients: self.clients.remove(c) };
            if !self.rooms.contains_key(r) {
                (gone, Seq::empty())
            } else {
                let room = self.rooms[r];
                if room.client == Some(c) {
                    (
                        DirModel { rooms: self.rooms.insert(r, RoomState { host: room.host, client: None }), ..gone },
                        seq![(room.host, WsEvent::PeerLeft(GUEST))],
                    )
                } else if room.host != c {
                    (gone, Seq::empty())
                } else {
                    match room.client {
                        Some(p) => (
                            DirModel { rooms: self.rooms.insert(r, RoomState { host: p, client: None }), ..gone },
                            seq![(p, WsEvent::PeerLeft(HOST)), (p, WsEvent::YouAre(HOST))],
                        ),
                        None => (DirModel { rooms: self.rooms.remove(r), ..gone }, Seq::empty()),
                    }
                }
            }
        }
    }
}

/// The room directory with each client's membership.
pub struct AppRoomState {
    next_room_id: RoomId,
    rooms: HashMap<RoomId, RoomState>,
    clients: HashMap<ClientId, ClientState>,
}

impl View for AppRoomState {
    type V = DirModel;

    closed spec fn view(&self) -> DirModel {
        DirModel { next: self.next_room_id, rooms: self.rooms@, clients: self.clients@ }
    }
}

impl AppRoomState {
    pub closed spec fn wf(&self) -> bool {
        self@.wf()
    }

    /// An empty directory whose first room will get id 0.
    pub fn new() -> (r: Self)
        ensures
            r.wf(),
            r@ == DirModel::empty(),
    {
        let r = AppRoomState { next_room_id: 0, rooms: HashMap::new(), clients: HashMap::new() };
        assert(r@.rooms =~= Map::empty());
        assert(r@.clients =~= Map::empty());
        r
    }

    /// Creates an Open room with `client_id` as host and binds the client to
    /// it. A client bound elsewhere is rebound, and stays in its earlier
    /// room's slot.
    pub fn create_room(&mut self, client_id: ClientId) -> (r: Result<RoomId, ApiError>)
        requires
            old(self).wf(),
        ensures
            final(self).wf(),
            (final(self)@, r) == old(self)@.create(client_id),
    {
        let room_id = self.next_room_id;
        if room_id == u64::MAX {
            return Err(ApiError::Conflict);
        }
        self.next_room_id = room_id + 1;
        self.rooms.insert(room_id, RoomState { host: client_id, client: None });
        self.clients.insert(client_id, ClientState::new(room_id));
        assert forall|r: RoomId| #[trigger] self@.rooms.contains_key(r) implies r < self@.next by {
            if r != room_id {
                assert(old(self)@.rooms.contains_key(r));
            }
        }
        Ok(room_id)
    }

    /// Joins `client_id` to room `room_id` as its guest. A client may join
    /// the room it is itself host of, and then holds both slots.
    pub fn join_room(&mut self, room_id: RoomId, client_id: ClientId) -> (r: Result<Handle, ApiError>)
        requires
            old(self).wf(),
        ensures
            final(self).wf(),
            (final(self)@, r) == old(self)@.join(room_id, client_id),
    {
        if let Some(cs) = self.clients.get(&client_id) {
            if cs.room != room_id {
                return Err(ApiError::Conflict);
            }
        }
        let room = match self.rooms.get(&room_id) {
            Some(room) => *room,
            None => {
                return Err(ApiError::NotFound);
            },
        };
        if room.client.is_some() {
            return Err(ApiError::Conflict);
        }
        self.rooms.insert(room_id, RoomState { host: room.host, client: Some(client_id) });
        self.clients.insert(client_id, ClientState::new(room_id));
        Ok(GUEST)
    }

    /// The other occupant of the room of `client_id`, if the room is Full.
    pub fn get_peer(&self, client_id: ClientId) -> (r: Option<ClientId>)
        ensures
            r == self@.peer(client_id),
    {
        let client = match self.clients.get(&client_id) {
            Some(c) => *c,
            None => {
                return None;
            },
        };
        let room = match self.rooms.get(&client.room) {
            Some(room) => *room,
            None => {
                return None;
            },
        };
        let guest_id = match room.client {
            Some(g) => g,
            None => {
                return None;
            },
        };
        let other_id = if room.host == client_id {
            guest_id
        } else {
            room.host
        };
        Some(other_id)
    }

    /// The events owed once `client_id` is connected to `room_id` in role
    /// `handle`: its room and role to itself, and for a guest, each
    /// occupant's arrival to the other.
    pub fn connect_events(&self, client_id: ClientId, room_id: RoomId, handle: Handle) -> (r: Vec<Notice>)
        ensures
            r@ == self@.connect_notices(client_id, room_id, handle),
    {
        let mut out: Vec<Notice> = Vec::new();
        out.push((client_id, WsEvent::JoinedRoom(room_id)));
        out.push((client_id, WsEvent::YouAre(handle)));
        if handle != HOST {
            out.push((client_id, WsEvent::PeerJoined(HOST)));
            if let Some(room) = self.rooms.get(&room_id) {
                out.push((room.host, WsEvent::PeerJoined(GUEST)));
            }
        }
        assert(out@ =~= self@.connect_notices(client_id, room_id, handle));
        out
    }

    /// Ends the membership of `client_id`: a guest frees its slot and the
    /// host hears of it; a host hands the room to its guest, who hears that
    /// it is host now, or the room is destroyed when it had no guest. Returns
    /// the events owed.
    pub fn leave_room_on_disconnect(&mut self, client_id: ClientId) -> (r: Vec<Notice>)
        requires
            old(self).wf(),
        ensures
            final(self).wf(),
            (final(self)@, r@) == old(self)@.leave(client_id),
    {
        let mut notify: Vec<Notice> = Vec::new();
        let cur_room = match self.clients.get(&client_id) {
            Some(cs) => cs.room,
            None => {
                assert(notify@ =~= Seq::empty());
                return notify;
            },
        };
        let room = match self.rooms.get(&cur_room) {
            Some(room) => *room,
            None => {
                self.clients.remove(&client_id);
                assert(notify@ =~= Seq::empty());
                return notify;
            },
        };
        if room.client == Some(client_id) {
            notify.push((room.host, WsEvent::PeerLeft(GUEST)));
            self.rooms.insert(cur_room, RoomState { host: room.host, client: None });
        } else if room.host != client_id {
            self.clients.remove(&client_id);
            assert(notify@ =~= Seq::empty());
            return notify;
        } else {
            match room.client {
                Some(peer) => {
                    self.rooms.insert(cur_room, RoomState { host: peer, client: None });
                    notify.push((peer, WsEvent::PeerLeft(HOST)));
                    notify.push((peer, WsEvent::YouAre(HOST)));
                },
                None => {
                    self.rooms.remove(&cur_room);
                },
            }
        }
        self.clients.remove(&client_id);
        assert(notify@ =~= old(self)@.leave(client_id).1);
        assert(self@.rooms =~= old(self)@.leave(client_id).0.rooms);
        assert forall|r: RoomId| #[trigger] self@.rooms.contains_key(r) implies r < self@.next by {
            assert(old(self)@.rooms.contains_key(r));
        }
        notify
    }
    /// The host and the guest of `client_id`'s room, once it is Full.
    pub fn host_and_guest(&self, client_id: ClientId) -> (r: Option<(ClientId, ClientId)>)
        ensures
            r == self@.host_and_guest(client_id),
    {
        let client = match self.clients.get(&client_id) {
            Some(c) => *c,
            None => {
                return None;
            },
        };
        match self.rooms.get(&client.room) {
            Some(room) => match room.client {
                Some(g) => Some((room.host, g)),
                None => None,
            },
            None => None,
        }
    }
}

/// One operation on the room directory.
pub enum DirOp {
    Create(ClientId),
    Join(RoomId, ClientId),
    Leave(ClientId),
}

/// The directory after `ops` ran from `m`, with the id of each room that
/// was created, in order.
pub open spec fn run(m: DirModel, ops: Seq<DirOp>) -> (DirModel, Seq<RoomId>)
    decreases ops.len(),
{
    if ops.len() == 0 {
        (m, Seq::empty())
    } else {
        let (m1, ids) = run(m, ops.drop_last());
        match ops.last() {
            DirOp::Create(c) => match m1.create(c) {
                (m2, Ok(id)) => (m2, ids.push(id)),
                (m2, Err(_)) => (m2, ids),
            },
            DirOp::Join(r, c) => (m1.join(r, c).0, ids),
            DirOp::Leave(c) => (m1.leave(c).0, ids),
        }
    }
}

/// Room ids are handed out from the counter upward, one apart, over any
/// sequence of creates, joins and disconnects: from the empty directory
/// the rooms get 0, 1, 2, and so on, each above the one before.
pub proof fn lemma_room_ids_increase(m: DirModel, ops: Seq<DirOp>)
    ensures
        run(m, ops).0.next == m.next + run(m, ops).1.len(),
        forall|i: int| 0 <= i < run(m, ops).1.len() ==> #[trigger] run(m, ops).1[i] == m.next + i,
        forall|i: int, j: int| 0 <= i < j < run(m, ops).1.len() ==> run(m, ops).1[i] < run(m, ops).1[j],
        m == DirModel::empty() ==> forall|i: int| 0 <= i < run(m, ops).1.len() ==> #[trigger] run(m, ops).1[i] == i,
    decreases ops.len(),
{
    if ops.len() > 0 {
        lemma_room_ids_increase(m, ops.drop_last());
    }
}

/// Joining a room id that was never created (at or above the counter)
/// is refused with NotFound, for a client not bound to another room.
pub proof fn lemma_join_never_created(m: DirModel, r: RoomId, c: ClientId)
    requires
        m.wf(),
        r >= m.next,
        !(m.clients.contains_key(c) && m.clients[c].room != r),
    ensures
        m.join(r, c) == (m, Err::<Handle, ApiError>(ApiError::NotFound)),
{
}

/// Joining a room whose guest slot is taken is refused with Conflict.
pub proof fn lemma_join_full_room(m: DirModel, r: RoomId, c: ClientId)
    requires
        m.rooms.contains_key(r),
        m.rooms[r].client is Some,
    ensures
        m.join(r, c) == (m, Err::<Handle, ApiError>(ApiError::Conflict)),
{
}

/// A client bound to room `a` cannot join another room `b`; joining `a`
/// itself while its guest slot is free, or creating a room while ids
/// remain, succeeds.
pub proof fn lemma_membership_conflict(m: DirModel, c: ClientId, a: RoomId, b: RoomId)
    requires
        m.clients.contains_key(c),
        m.clients[c].room == a,
        a != b,
    ensures
        m.join(b, c).1 == Err::<Handle, ApiError>(ApiError::Conflict),
        m.rooms.contains_key(a) && m.rooms[a].client is None ==> m.join(a, c).1 == Ok::<Handle, ApiError>(GUEST),
        m.next < u64::MAX ==> m.create(c).1 == Ok::<RoomId, ApiError>(m.next),
{
}

/// When the host of a Full room disconnects, its guest becomes host of
/// the still Open room, and hears that the host left and that it is host.
pub proof fn lemma_host_leaves_to_guest(m: DirModel, c: ClientId, g: ClientId)
    requires
        m.clients.contains_key(c),
        m.rooms.contains_key(m.clients[c].room),
        m.rooms[m.clients[c].room].host == c,
        m.rooms[m.clients[c].room].client == Some(g),
        g != c,
    ensures
        ({
            let r = m.clients[c].room;
            let (m2, notices) = m.leave(c);
            &&& m2.rooms.contains_key(r)
            &&& m2.rooms[r] == (RoomState { host: g, client: None })
            &&& notices == seq![(g, WsEvent::PeerLeft(HOST)), (g, WsEvent::YouAre(HOST))]
            &&& !m2.clients.contains_key(c)
            &&& m2.next == m.next
        }),
{
}

/// When the host of an Open room disconnects, the room is gone: a later
/// join of its id by a client bound to no other room is NotFound.
pub proof fn lemma_host_leaves_alone(m: DirModel, c: ClientId, c2: ClientId)
    requires
        m.clients.contains_key(c),
        m.rooms.contains_key(m.clients[c].room),
        m.rooms[m.clients[c].room].host == c,
        m.rooms[m.clients[c].room].client is None,
    ensures
        ({
            let r = m.clients[c].room;
            let m2 = m.leave(c).0;
            &&& !m2.rooms.contains_key(r)
            &&& m.leave(c).1.len() == 0
            &&& !(m2.clients.contains_key(c2) && m2.clients[c2].room != r) ==> m2.join(r, c2).1
                == Err::<Handle, ApiError>(ApiError::NotFound)
        }),
{
}

/// When the guest disconnects, the room is Open again with the same host,
/// and the host hears that the guest left.
pub proof fn lemma_guest_leaves(m: DirModel, c: ClientId)
    requires
        m.clients.contains_key(c),
        m.rooms.contains_key(m.clients[c].room),
        m.rooms[m.clients[c].room].client == Some(c),
    ensures
        ({
            let r = m.clients[c].room;
            let h = m.rooms[r].host;
            let (m2, notices) = m.leave(c);
            &&& m2.rooms.contains_key(r)
            &&& m2.rooms[r] == (RoomState { host: h, client: None })
            &&& notices == seq![(h, WsEvent::PeerLeft(GUEST))]
        }),
{
}

} // verus!
