//! What the relay server decides on each packet it receives: which state a
//! client moves to, which rooms change, and which packets go to which client.
//! Sending the packets and keeping the table of connected clients is the
//! caller's part.

use vstd::prelude::*;
use vstd::slice::slice_to_vec;

use crate::apps::AppView;
use crate::apps::Apps;
use crate::packet::Packet;
use crate::packet::PacketType;
use crate::packet::RoomInfo;
use crate::packet::RoomInfoView;
use crate::packet::rooms_view;
use crate::rooms::CODE_SPACE;
use crate::rooms::RoomView;
use crate::rooms::RoomsView;
use crate::rooms::valid_code;
use crate::transport::Channel;

verus! {

broadcast use crate::rooms::lemma_room_fields;

/// The error code carried by the error packets the server sends.
pub const ERROR_CODE: i32 = 401;

/// Where a client connected to the server stands.
#[derive(Debug, Clone, Copy, PartialEq, Eq, Structural)]
pub enum ClientState {
    /// Connected, not yet authenticated.
    Connected,
    /// Authenticated for an application, in no room.
    Authenticated { app_id: u64 },
    /// In a room of an application.
    InRoom { app_id: u64, room_id: u64 },
}

/// A packet to send to a client.
#[derive(Debug)]
pub struct Outgoing {
    pub target: u64,
    pub packet: PacketType,
    pub channel: Channel,
}

/// An [`Outgoing`] as mathematics.
pub struct OutgoingView {
    pub target: u64,
    pub packet: Packet,
    pub channel: Channel,
}

impl View for Outgoing {
    type V = OutgoingView;

    open spec fn view(&self) -> OutgoingView {
        OutgoingView { target: self.target, packet: self.packet@, channel: self.channel }
    }
}

/// The error packet the server sends with the message `msg`.
pub open spec fn error_packet(msg: Seq<char>) -> Packet {
    Packet::Error { error_code: ERROR_CODE, error_message: msg }
}

/// The application `app_id` with its rooms replaced by `rooms`.
pub open spec fn with_rooms(apps: Map<u64, AppView>, app_id: u64, rooms: RoomsView) -> Map<
    u64,
    AppView,
> {
    apps.insert(app_id, AppView { rooms, ..apps[app_id] })
}

/// A room just created for `host`, who is its only peer, with peer id 1.
pub open spec fn fresh_room(
    id: u64,
    join_code: Seq<char>,
    host: u64,
    is_public: bool,
    metadata: Seq<char>,
) -> RoomView {
    RoomView {
        id,
        join_code,
        is_public,
        metadata,
        host,
        peers: Map::empty().insert(host, 1i32),
        peer_clients: Map::empty().insert(1i32, host),
        next_peer: 2,
    }
}

/// The entry shows a public room of `rooms`.
pub open spec fn shows_public_room(entry: RoomInfoView, rooms: RoomsView) -> bool {
    exists|id: u64| #[trigger]
        rooms.rooms.contains_key(id) && rooms.rooms[id].is_public && entry == (RoomInfoView {
            id: rooms.rooms[id].join_code,
            metadata: rooms.rooms[id].metadata,
        })
}

/// The public rooms of `rooms`, as the room list shows them: each entry is a
/// public room, each public room is listed, and no join code twice.
pub open spec fn lists_public_rooms(list: Seq<RoomInfoView>, rooms: RoomsView) -> bool {
    &&& forall|i: int| 0 <= i < list.len() ==> #[trigger] shows_public_room(list[i], rooms)
    &&& forall|id: u64| #[trigger]
        rooms.rooms.contains_key(id) && rooms.rooms[id].is_public ==> exists|i: int|
            0 <= i < list.len() && #[trigger] list[i].id == rooms.rooms[id].join_code
    &&& forall|i: int, j: int|
        0 <= i < list.len() && 0 <= j < list.len() && i != j ==> #[trigger] list[i].id
            != #[trigger] list[j].id
}

/// The entries picked, in order, from a listing of all the rooms, one entry
/// for each public room, make the room list of the public rooms.
proof fn lemma_picked_rooms_listed(
    rooms: Seq<&crate::rooms::Room>,
    rv: RoomsView,
    picked: Seq<int>,
    list: Seq<RoomInfoView>,
)
    requires
        rv.wf(),
        forall|k: int|
            0 <= k < rooms.len() ==> rv.rooms.contains_key(#[trigger] rooms[k]@.id)
                && rv.rooms[rooms[k]@.id] == rooms[k]@,
        forall|id: u64|
            #[trigger] rv.rooms.contains_key(id) ==> exists|k: int|
                0 <= k < rooms.len() && #[trigger] rooms[k]@.id == id,
        forall|k: int, l: int|
            0 <= k < rooms.len() && 0 <= l < rooms.len() && k != l ==> #[trigger] rooms[k]@.id
                != #[trigger] rooms[l]@.id,
        picked.len() == list.len(),
        forall|m: int|
            0 <= m < picked.len() ==> 0 <= #[trigger] picked[m] < rooms.len()
                && rooms[picked[m]]@.is_public && list[m] == (RoomInfoView {
                id: rooms[picked[m]]@.join_code,
                metadata: rooms[picked[m]]@.metadata,
            }),
        forall|m1: int, m2: int|
            0 <= m1 < m2 < picked.len() ==> #[trigger] picked[m1] < #[trigger] picked[m2],
        forall|k: int|
            0 <= k < rooms.len() && (#[trigger] rooms[k])@.is_public ==> exists|m: int|
                0 <= m < picked.len() && #[trigger] picked[m] == k,
    ensures
        lists_public_rooms(list, rv),
{
    assert forall|a: int| 0 <= a < list.len() implies #[trigger] shows_public_room(list[a], rv) by {
        let k = picked[a];
        let id = rooms[k]@.id;
        assert(rv.rooms.contains_key(id));
        assert(rv.rooms[id] == rooms[k]@);
        assert(rv.rooms[id].is_public);
        assert(list[a] == (RoomInfoView {
            id: rv.rooms[id].join_code,
            metadata: rv.rooms[id].metadata,
        }));
    }
    assert forall|id: u64| #[trigger]
        rv.rooms.contains_key(id) && rv.rooms[id].is_public implies exists|a: int|
            0 <= a < list.len() && #[trigger] list[a].id == rv.rooms[id].join_code by {
        let k = choose|k: int| 0 <= k < rooms.len() && #[trigger] rooms[k]@.id == id;
        assert(rooms[k]@.is_public);
        let m = choose|m: int| 0 <= m < picked.len() && #[trigger] picked[m] == k;
        assert(list[m].id == rv.rooms[id].join_code);
    }
    assert forall|a: int, b: int|
        0 <= a < list.len() && 0 <= b < list.len() && a != b implies #[trigger] list[a].id
            != #[trigger] list[b].id by {
        let ka = picked[a];
        let kb = picked[b];
        if a < b {
            assert(ka < kb);
        } else {
            assert(kb < ka);
        }
        let ida = rooms[ka]@.id;
        let idb = rooms[kb]@.id;
        assert(ida != idb);
        assert(rv.rooms.contains_key(ida));
        assert(rv.rooms.contains_key(idb));
        assert(rv.codes[rv.rooms[ida].join_code] == ida);
        assert(rv.codes[rv.rooms[idb].join_code] == idb);
    }
}

/// The room `room_id` of application `app_id` replaced by `room`.
pub open spec fn with_room(apps: Map<u64, AppView>, app_id: u64, room_id: u64, room: RoomView) -> Map<
    u64,
    AppView,
> {
    with_rooms(
        apps,
        app_id,
        RoomsView { rooms: apps[app_id].rooms.rooms.insert(room_id, room), ..apps[app_id].rooms },
    )
}

/// The server's decisions on rooms.
pub struct RoomHandler;

impl RoomHandler {
    /// The error packet the server sends with the message `msg`.
    pub fn send_err(target: u64, msg: &str) -> (res: Outgoing)
        ensures
            res@ == (OutgoingView { target, packet: error_packet(msg@), channel: Channel::Reliable }),
    {
        Outgoing {
            target,
            packet: PacketType::Error { error_code: ERROR_CODE, error_message: msg.to_owned() },
            channel: Channel::Reliable,
        }
    }

    /// A client asks to create a room in its application. When the application
    /// and the client are both known, the room is created with the client as its
    /// host and first peer, the client moves into it, and it is told the room's
    /// join code and its peer id.
    pub fn create_room(
        apps: &mut Apps,
        client_known: bool,
        sender_id: u64,
        app_id: u64,
        is_public: bool,
        metadata: &str,
    ) -> (res: Option<(Outgoing, ClientState)>)
        requires
            old(apps).wf(),
            old(apps)@.apps.contains_key(app_id) ==> old(apps)@.apps[app_id].rooms.next_id < u64::MAX
                && old(apps)@.apps[app_id].rooms.codes.len() < CODE_SPACE,
        ensures
            final(apps).wf(),
            match res {
                None => {
                    &&& !old(apps)@.apps.contains_key(app_id) || !client_known
                    &&& final(apps)@ == old(apps)@
                },
                Some((out, state)) => {
                    let old_rooms = old(apps)@.apps[app_id].rooms;
                    let room_id = old_rooms.next_id;
                    let code = out@.packet->ConnectedToRoom_room_id;
                    &&& old(apps)@.apps.contains_key(app_id)
                    &&& client_known
                    &&& valid_code(code)
                    &&& !old_rooms.codes.contains_key(code)
                    &&& !old_rooms.rooms.contains_key(room_id)
                    &&& final(apps)@.apps == with_rooms(
                        old(apps)@.apps,
                        app_id,
                        RoomsView {
                            rooms: old_rooms.rooms.insert(
                                room_id,
                                fresh_room(room_id, code, sender_id, is_public, metadata@),
                            ),
                            codes: old_rooms.codes.insert(code, room_id),
                            used: old_rooms.used.insert(code),
                            next_id: (room_id + 1) as u64,
                        },
                    )
                    &&& final(apps)@.tokens == old(apps)@.tokens
                    &&& final(apps)@.next_id == old(apps)@.next_id
                    &&& state == ClientState::InRoom { app_id, room_id }
                    &&& out@.target == sender_id
                    &&& out@.packet == Packet::ConnectedToRoom { room_id: code, peer_id: 1 }
                    &&& out@.channel == Channel::Reliable
                },
            },
    {
        if !client_known {
            return None;
        }
        let app = match apps.get_mut(app_id) {
            Some(a) => a,
            None => return None,
        };
        let room = app.rooms.create(sender_id, is_public, metadata.to_owned());
        let join_code = room.join_code.clone();
        let peer_id = room.add_peer(sender_id);
        let room_id = room.id;
        let state = ClientState::InRoom { app_id, room_id };
        Some((
            Outgoing {
                target: sender_id,
                packet: PacketType::ConnectedToRoom { room_id: join_code, peer_id },
                channel: Channel::Reliable,
            },
            state,
        ))
    }

    /// A client asks for the public rooms of its application: they are sent to
    /// it, when the application is known.
    pub fn send_rooms(apps: &mut Apps, target: u64, app_id: u64) -> (res: Option<Outgoing>)
        requires
            old(apps).wf(),
        ensures
            final(apps)@ == old(apps)@,
            match res {
                None => !old(apps)@.apps.contains_key(app_id),
                Some(out) => {
                    &&& old(apps)@.apps.contains_key(app_id)
                    &&& out@.target == target
                    &&& out@.channel == Channel::Reliable
                    &&& out@.packet is GetRooms
                    &&& lists_public_rooms(out@.packet->rooms, old(apps)@.apps[app_id].rooms)
                },
            },
    {
        let app = match apps.get_mut(app_id) {
            Some(a) => a,
            None => return None,
        };
        let ghost rv_app = app@;
        let rooms = app.rooms.iter();
        let ghost rv = app@.rooms;
        let mut public_rooms: Vec<RoomInfo> = Vec::new();
        let ghost mut picked: Seq<int> = Seq::empty();
        let mut i: usize = 0;
        while i < rooms.len()
            invariant
                i <= rooms@.len(),
                rv.wf(),
                rooms@.len() == rv.rooms.len(),
                forall|k: int|
                    0 <= k < rooms@.len() ==> rv.rooms.contains_key(#[trigger] rooms@[k]@.id)
                        && rv.rooms[rooms@[k]@.id] == rooms@[k]@,
                forall|id: u64|
                    #[trigger] rv.rooms.contains_key(id) ==> exists|k: int|
                        0 <= k < rooms@.len() && #[trigger] rooms@[k]@.id == id,
                forall|k: int, l: int|
                    0 <= k < rooms@.len() && 0 <= l < rooms@.len() && k != l ==> #[trigger] rooms@[k]@.id
                        != #[trigger] rooms@[l]@.id,
                picked.len() == public_rooms@.len(),
                forall|m: int|
                    0 <= m < picked.len() ==> 0 <= #[trigger] picked[m] < i && rooms@[picked[m]]@.is_public
                        && rooms_view(public_rooms@)[m] == (RoomInfoView {
                        id: rooms@[picked[m]]@.join_code,
                        metadata: rooms@[picked[m]]@.metadata,
                    }),
                forall|m1: int, m2: int|
                    0 <= m1 < m2 < picked.len() ==> #[trigger] picked[m1] < #[trigger] picked[m2],
                forall|k: int|
                    0 <= k < i && (#[trigger] rooms@[k])@.is_public ==> exists|m: int|
                        0 <= m < picked.len() && #[trigger] picked[m] == k,
            decreases rooms@.len() - i,
        {
            let ghost old_picked = picked;
            if rooms[i].is_public {
                let info = rooms[i].to_info();
                proof {
                    picked = picked.push(i as int);
                }
                public_rooms.push(info);
                proof {
                    assert(rooms_view(public_rooms@)[picked.len() - 1] == info@);
                    assert forall|m: int| 0 <= m < old_picked.len() implies rooms_view(
                        public_rooms@,
                    )[m] == rooms_view(public_rooms@).drop_last()[m] by {}
                }
            }
            proof {
                assert forall|k: int|
                    0 <= k < i + 1 && (#[trigger] rooms@[k])@.is_public implies exists|m: int|
                        0 <= m < picked.len() && #[trigger] picked[m] == k by {
                    if k < i {
                        let m = choose|m: int| 0 <= m < old_picked.len() && #[trigger] old_picked[m] == k;
                        assert(picked[m] == k);
                    } else {
                        assert(picked[picked.len() - 1] == k);
                    }
                }
            }
            i = i + 1;
        }
        proof {
            assert(old(apps)@.apps.insert(app_id, rv_app) =~= old(apps)@.apps);
            lemma_picked_rooms_listed(rooms@, rv, picked, rooms_view(public_rooms@));
        }
        Some(
            Outgoing {
                target,
                packet: PacketType::GetRooms { rooms: public_rooms },
                channel: Channel::Reliable,
            },
        )
    }

    /// A client in a room changes the room's metadata. The application must be
    /// known; when the room is gone the client is told so.
    pub fn update_room(apps: &mut Apps, sender_id: u64, app_id: u64, room_id: u64, metadata: &str) -> (res:
        Option<Outgoing>)
        requires
            old(apps).wf(),
            old(apps)@.apps.contains_key(app_id),
        ensures
            final(apps).wf(),
            final(apps)@.tokens == old(apps)@.tokens,
            final(apps)@.next_id == old(apps)@.next_id,
            ({
                let rooms = old(apps)@.apps[app_id].rooms;
                if rooms.rooms.contains_key(room_id) {
                    &&& res is None
                    &&& final(apps)@.apps == with_room(
                        old(apps)@.apps,
                        app_id,
                        room_id,
                        RoomView { metadata: metadata@, ..rooms.rooms[room_id] },
                    )
                } else {
                    &&& final(apps)@ == old(apps)@
                    &&& res matches Some(out) && out@ == (OutgoingView {
                        target: sender_id,
                        packet: error_packet("Room not found"@),
                        channel: Channel::Reliable,
                    })
                }
            }),
    {
        let app = match apps.get_mut(app_id) {
            Some(a) => a,
            None => return None,
        };
        match app.rooms.get_mut(room_id) {
            Some(room) => {
                room.metadata = metadata.to_owned();
                None
            },
            None => {
                proof {
                    assert(old(apps)@.apps.insert(app_id, app@) =~= old(apps)@.apps);
                }
                Some(Self::send_err(sender_id, "Room not found"))
            },
        }
    }

    /// Removes the room `room_id` of application `app_id`, when both exist.
    pub fn remove_room(apps: &mut Apps, app_id: u64, room_id: u64)
        requires
            old(apps).wf(),
        ensures
            final(apps).wf(),
            final(apps)@.tokens == old(apps)@.tokens,
            final(apps)@.next_id == old(apps)@.next_id,
            if old(apps)@.apps.contains_key(app_id) && old(apps)@.apps[app_id].rooms.rooms.contains_key(
                room_id,
            ) {
                let rooms = old(apps)@.apps[app_id].rooms;
                let code = rooms.rooms[room_id].join_code;
                final(apps)@.apps == with_rooms(
                    old(apps)@.apps,
                    app_id,
                    RoomsView {
                        rooms: rooms.rooms.remove(room_id),
                        codes: rooms.codes.remove(code),
                        used: rooms.used.remove(code),
                        next_id: rooms.next_id,
                    },
                )
            } else {
                final(apps)@ == old(apps)@
            },
    {
        match apps.get_mut(app_id) {
            Some(app) => {
                let ghost before = app@;
                let removed = app.rooms.remove(room_id);
                proof {
                    if removed is None {
                        assert(old(apps)@.apps.insert(app_id, AppView { rooms: app@.rooms, ..before })
                            =~= old(apps)@.apps);
                    }
                }
            },
            None => {},
        }
    }

    /// A client asks to join the room with join code `room_code`: the room's
    /// host is asked, with the client's metadata; when there is no such room the
    /// client is told so. Nothing changes.
    pub fn recv_join_req(
        apps: &mut Apps,
        sender_id: u64,
        app_id: u64,
        room_code: &str,
        metadata: &str,
    ) -> (res: Option<Outgoing>)
        requires
            old(apps).wf(),
        ensures
            final(apps)@ == old(apps)@,
            if !old(apps)@.apps.contains_key(app_id) {
                res is None
            } else {
                res matches Some(out) && match old(apps)@.apps[app_id].rooms.room_by_code(room_code@) {
                    Some(room) => out@ == (OutgoingView {
                        target: room.host,
                        packet: Packet::PeerJoinAttempt { target_id: sender_id, metadata: metadata@ },
                        channel: Channel::Reliable,
                    }),
                    None => out@ == (OutgoingView {
                        target: sender_id,
                        packet: error_packet("Room not found"@),
                        channel: Channel::Reliable,
                    }),
                }
            },
    {
        let app = match apps.get_mut(app_id) {
            Some(a) => a,
            None => return None,
        };
        proof {
            assert(old(apps)@.apps.insert(app_id, app@) =~= old(apps)@.apps);
        }
        let host_id = match app.rooms.get_by_jc(room_code) {
            Some(room) => room.get_host(),
            None => return Some(Self::send_err(sender_id, "Room not found")),
        };
        Some(
            Outgoing {
                target: host_id,
                packet: PacketType::PeerJoinAttempt { target_id: sender_id, metadata: metadata.to_owned() },
                channel: Channel::Reliable,
            },
        )
    }

    /// The host of room `room_id` answers a join request of client `target_id`.
    /// When it allows it and the client is known, the client is added to the
    /// room, moves into it, and both it and the host are told its peer id. When
    /// the host refuses, the client is told so.
    pub fn recv_join_res(
        apps: &mut Apps,
        target_known: bool,
        app_id: u64,
        target_id: u64,
        room_id: u64,
        allowed: bool,
    ) -> (res: (Vec<Outgoing>, Option<ClientState>))
        requires
            old(apps).wf(),
            allowed && target_known ==> old(apps)@.apps.contains_key(app_id),
            allowed && target_known && old(apps)@.apps[app_id].rooms.rooms.contains_key(room_id)
                ==> old(apps)@.apps[app_id].rooms.rooms[room_id].next_peer < i32::MAX,
        ensures
            final(apps).wf(),
            final(apps)@.tokens == old(apps)@.tokens,
            final(apps)@.next_id == old(apps)@.next_id,
            !allowed ==> {
                &&& final(apps)@ == old(apps)@
                &&& res.1 is None
                &&& res.0@.len() == 1
                &&& res.0@[0]@ == (OutgoingView {
                    target: target_id,
                    packet: error_packet("Room host denied entry"@),
                    channel: Channel::Reliable,
                })
            },
            allowed && !target_known ==> final(apps)@ == old(apps)@ && res.1 is None && res.0@.len()
                == 0,
            allowed && target_known && !old(apps)@.apps[app_id].rooms.rooms.contains_key(room_id) ==> {
                &&& final(apps)@ == old(apps)@
                &&& res.1 is None
                &&& res.0@.len() == 1
                &&& res.0@[0]@ == (OutgoingView {
                    target: target_id,
                    packet: error_packet("Room not found"@),
                    channel: Channel::Reliable,
                })
            },
            allowed && target_known && old(apps)@.apps[app_id].rooms.rooms.contains_key(room_id) ==> {
                let room = old(apps)@.apps[app_id].rooms.rooms[room_id];
                let peer_id = room.next_peer;
                &&& final(apps)@.apps == with_room(
                    old(apps)@.apps,
                    app_id,
                    room_id,
                    RoomView {
                        peers: room.peers.insert(target_id, peer_id),
                        peer_clients: room.peer_clients.insert(peer_id, target_id),
                        next_peer: (peer_id + 1) as i32,
                        ..room
                    },
                )
                &&& res.1 == Some(ClientState::InRoom { app_id, room_id })
                &&& res.0@.len() == 2
                &&& res.0@[0]@ == (OutgoingView {
                    target: target_id,
                    packet: Packet::ConnectedToRoom { room_id: room.join_code, peer_id },
                    channel: Channel::Reliable,
                })
                &&& res.0@[1]@ == (OutgoingView {
                    target: room.host,
                    packet: Packet::PeerJoinedRoom { peer_id },
                    channel: Channel::Reliable,
                })
            },
    {
        if !allowed {
            return (vec![Self::send_err(target_id, "Room host denied entry")], None);
        }
        if !target_known {
            return (Vec::new(), None);
        }
        let app = match apps.get_mut(app_id) {
            Some(a) => a,
            None => return (Vec::new(), None),
        };
        let ghost before = app@;
        match app.rooms.get_mut(room_id) {
            Some(room) => {
                let peer_id = room.add_peer(target_id);
                let host_id = room.get_host();
                let join_code = room.join_code.clone();
                let mut out: Vec<Outgoing> = Vec::new();
                out.push(
                    Outgoing {
                        target: target_id,
                        packet: PacketType::ConnectedToRoom { room_id: join_code, peer_id },
                        channel: Channel::Reliable,
                    },
                );
                out.push(
                    Outgoing {
                        target: host_id,
                        packet: PacketType::PeerJoinedRoom { peer_id },
                        channel: Channel::Reliable,
                    },
                );
                (out, Some(ClientState::InRoom { app_id, room_id }))
            },
            None => {
                proof {
                    assert(old(apps)@.apps.insert(app_id, before) =~= old(apps)@.apps);
                }
                (vec![Self::send_err(target_id, "Room not found")], None)
            },
        }
    }
}

/// The server's decisions on game data.
pub struct GameDataHandler;

impl GameDataHandler {
    /// A client in a room sends game data to the peer `target_peer` of its room:
    /// the data goes to the client behind that peer id, marked with the sender's
    /// own peer id. Nothing is sent when the application, the room, the sender's
    /// place in it or the target is missing. The data goes on the channel it
    /// came on. Nothing changes.
    pub fn route_game_data(
        apps: &mut Apps,
        sender_id: u64,
        app_id: u64,
        room_id: u64,
        target_peer: i32,
        data: &[u8],
        channel: Channel,
    ) -> (res: Option<Outgoing>)
        requires
            old(apps).wf(),
        ensures
            final(apps)@ == old(apps)@,
            ({
                let apps_v = old(apps)@.apps;
                if apps_v.contains_key(app_id) && apps_v[app_id].rooms.rooms.contains_key(room_id)
                    && apps_v[app_id].rooms.rooms[room_id].peers.contains_key(sender_id)
                    && apps_v[app_id].rooms.rooms[room_id].peer_clients.contains_key(target_peer) {
                    let room = apps_v[app_id].rooms.rooms[room_id];
                    res matches Some(out) && out@ == (OutgoingView {
                        target: room.peer_clients[target_peer],
                        packet: Packet::GameData { from_peer: room.peers[sender_id], data: data@ },
                        channel,
                    })
                } else {
                    res is None
                }
            }),
    {
        let app = match apps.get_mut(app_id) {
            Some(a) => a,
            None => return None,
        };
        proof {
            assert(old(apps)@.apps.insert(app_id, app@) =~= old(apps)@.apps);
        }
        let room = match app.rooms.get(room_id) {
            Some(r) => r,
            None => return None,
        };
        let sender_godot_id = match room.client_to_gd(sender_id) {
            Some(p) => p,
            None => return None,
        };
        let target_renet_id = match room.gd_to_client(target_peer) {
            Some(c) => c,
            None => return None,
        };
        Some(
            Outgoing {
                target: target_renet_id,
                packet: PacketType::GameData { from_peer: sender_godot_id, data: slice_to_vec(data) },
                channel,
            },
        )
    }
}

// ---------------------------------------------------------------------------
// Routing a packet by the sender's state
// ---------------------------------------------------------------------------

/// What a received packet asks of the server, given where its sender stands.
#[derive(Debug)]
pub enum ServerRequest {
    /// A connected client authenticates for an application.
    Authenticate { app_id: String, version: String },
    /// An authenticated client creates a room.
    CreateRoom { app_id: u64, is_public: bool, metadata: String },
    /// An authenticated client asks to join a room by join code.
    JoinRequest { app_id: u64, room_code: String, metadata: String },
    /// An authenticated client asks for the public rooms.
    ListRooms { app_id: u64 },
    /// A client in a room changes its metadata.
    UpdateRoom { app_id: u64, room_id: u64, metadata: String },
    /// A host answers a join request.
    JoinResponse { app_id: u64, room_id: u64, target_id: u64, allowed: bool },
    /// A client in a room sends game data to a peer.
    GameData { app_id: u64, room_id: u64, target_peer: i32, data: Vec<u8> },
    /// The packet is not one the sender may send in its state.
    Unexpected,
}

/// A [`ServerRequest`] as mathematics.
pub enum ServerRequestView {
    Authenticate { app_id: Seq<char>, version: Seq<char> },
    CreateRoom { app_id: u64, is_public: bool, metadata: Seq<char> },
    JoinRequest { app_id: u64, room_code: Seq<char>, metadata: Seq<char> },
    ListRooms { app_id: u64 },
    UpdateRoom { app_id: u64, room_id: u64, metadata: Seq<char> },
    JoinResponse { app_id: u64, room_id: u64, target_id: u64, allowed: bool },
    GameData { app_id: u64, room_id: u64, target_peer: i32, data: Seq<u8> },
    Unexpected,
}

impl View for ServerRequest {
    type V = ServerRequestView;

    open spec fn view(&self) -> ServerRequestView {
        match self {
            ServerRequest::Authenticate { app_id, version } => ServerRequestView::Authenticate {
                app_id: app_id@,
                version: version@,
            },
            ServerRequest::CreateRoom { app_id, is_public, metadata } =>
                ServerRequestView::CreateRoom {
                app_id: *app_id,
                is_public: *is_public,
                metadata: metadata@,
            },
            ServerRequest::JoinRequest { app_id, room_code, metadata } =>
                ServerRequestView::JoinRequest {
                app_id: *app_id,
                room_code: room_code@,
                metadata: metadata@,
            },
            ServerRequest::ListRooms { app_id } => ServerRequestView::ListRooms { app_id: *app_id },
            ServerRequest::UpdateRoom { app_id, room_id, metadata } =>
                ServerRequestView::UpdateRoom {
                app_id: *app_id,
                room_id: *room_id,
                metadata: metadata@,
            },
            ServerRequest::JoinResponse { app_id, room_id, target_id, allowed } =>
                ServerRequestView::JoinResponse {
                app_id: *app_id,
                room_id: *room_id,
                target_id: *target_id,
                allowed: *allowed,
            },
            ServerRequest::GameData { app_id, room_id, target_peer, data } =>
                ServerRequestView::GameData {
                app_id: *app_id,
                room_id: *room_id,
                target_peer: *target_peer,
                data: data@,
            },
            ServerRequest::Unexpected => ServerRequestView::Unexpected,
        }
    }
}

/// Which packets a client may send in each state: only authentication
/// before it is authenticated; room creation, join requests and the room
/// list once authenticated; metadata updates, join answers and game data
/// once in a room. The room id a client names in an update or a join answer
/// is ignored in favour of the room it is in.
pub open spec fn spec_dispatch(state: ClientState, packet: Packet) -> ServerRequestView {
    match state {
        ClientState::Connected => match packet {
            Packet::Authenticate { app_id, version } => ServerRequestView::Authenticate {
                app_id,
                version,
            },
            _ => ServerRequestView::Unexpected,
        },
        ClientState::Authenticated { app_id } => match packet {
            Packet::CreateRoom { is_public, metadata } => ServerRequestView::CreateRoom {
                app_id,
                is_public,
                metadata,
            },
            Packet::ReqJoin { room_id, metadata } => ServerRequestView::JoinRequest {
                app_id,
                room_code: room_id,
                metadata,
            },
            Packet::ReqRooms => ServerRequestView::ListRooms { app_id },
            _ => ServerRequestView::Unexpected,
        },
        ClientState::InRoom { app_id, room_id } => match packet {
            Packet::UpdateRoom { metadata, .. } => ServerRequestView::UpdateRoom {
                app_id,
                room_id,
                metadata,
            },
            Packet::JoinRes { target_id, allowed, .. } => ServerRequestView::JoinResponse {
                app_id,
                room_id,
                target_id,
                allowed,
            },
            Packet::GameData { from_peer, data } => ServerRequestView::GameData {
                app_id,
                room_id,
                target_peer: from_peer,
                data,
            },
            _ => ServerRequestView::Unexpected,
        },
    }
}

/// Decides what a packet from a client in state `state` asks of the server.
/// Before authentication only authentication is heard; once authenticated,
/// rooms are created, joined and listed in the client's application; in a
/// room, the request names the client's own application and room. Every
/// request carries the packet's own fields unchanged.
pub fn dispatch(state: ClientState, packet: PacketType) -> (res: ServerRequest)
    ensures
        res@ == spec_dispatch(state, packet@),
        (state is Connected && packet@ is Authenticate) ==> res@ == (ServerRequestView::Authenticate {
            app_id: packet@->Authenticate_app_id,
            version: packet@->Authenticate_version,
        }),
        (state is Connected && !(packet@ is Authenticate)) ==> (res@ is Unexpected),
        (state is Authenticated && packet@ is CreateRoom) ==> res@ == (ServerRequestView::CreateRoom {
            app_id: state->Authenticated_app_id,
            is_public: packet@->CreateRoom_is_public,
            metadata: packet@->CreateRoom_metadata,
        }),
        (state is Authenticated && packet@ is ReqJoin) ==> res@ == (ServerRequestView::JoinRequest {
            app_id: state->Authenticated_app_id,
            room_code: packet@->ReqJoin_room_id,
            metadata: packet@->ReqJoin_metadata,
        }),
        (state is Authenticated && packet@ is ReqRooms) ==> res@ == (ServerRequestView::ListRooms {
            app_id: state->Authenticated_app_id,
        }),
        (state is Authenticated && !(packet@ is CreateRoom || packet@ is ReqJoin
            || packet@ is ReqRooms)) ==> (res@ is Unexpected),
        (state is InRoom && packet@ is UpdateRoom) ==> res@ == (ServerRequestView::UpdateRoom {
            app_id: state->InRoom_app_id,
            room_id: state->InRoom_room_id,
            metadata: packet@->UpdateRoom_metadata,
        }),
        (state is InRoom && packet@ is JoinRes) ==> res@ == (ServerRequestView::JoinResponse {
            app_id: state->InRoom_app_id,
            room_id: state->InRoom_room_id,
            target_id: packet@->JoinRes_target_id,
            allowed: packet@->JoinRes_allowed,
        }),
        (state is InRoom && packet@ is GameData) ==> res@ == (ServerRequestView::GameData {
            app_id: state->InRoom_app_id,
            room_id: state->InRoom_room_id,
            target_peer: packet@->GameData_from_peer,
            data: packet@->GameData_data,
        }),
        (state is InRoom && !(packet@ is UpdateRoom || packet@ is JoinRes || packet@ is GameData))
            ==> (res@ is Unexpected),
{
    match state {
        ClientState::Connected => match packet {
            PacketType::Authenticate { app_id, version } => ServerRequest::Authenticate {
                app_id,
                version,
            },
            _ => ServerRequest::Unexpected,
        },
        ClientState::Authenticated { app_id } => match packet {
            PacketType::CreateRoom { is_public, metadata } => ServerRequest::CreateRoom {
                app_id,
                is_public,
                metadata,
            },
            PacketType::ReqJoin { room_id, metadata } => ServerRequest::JoinRequest {
                app_id,
                room_code: room_id,
                metadata,
            },
            PacketType::ReqRooms => ServerRequest::ListRooms { app_id },
            _ => ServerRequest::Unexpected,
        },
        ClientState::InRoom { app_id, room_id } => match packet {
            PacketType::UpdateRoom { metadata, .. } => ServerRequest::UpdateRoom {
                app_id,
                room_id,
                metadata,
            },
            PacketType::JoinRes { target_id, allowed, .. } => ServerRequest::JoinResponse {
                app_id,
                room_id,
                target_id,
                allowed,
            },
            PacketType::GameData { from_peer, data } => ServerRequest::GameData {
                app_id,
                room_id,
                target_peer: from_peer,
                data,
            },
            _ => ServerRequest::Unexpected,
        },
    }
}

// ---------------------------------------------------------------------------
// Shutting down
// ---------------------------------------------------------------------------

/// What shutting the server down does: every connected client is
/// disconnected, with every peer of every room, and every room is removed.
pub struct CleanupPlan {
    /// The clients to disconnect, each once.
    pub disconnects: Vec<u64>,
    /// The rooms to remove, as (application id, room id).
    pub to_remove: Vec<(u64, u64)>,
}

/// The room `room_id` of application `app_id` exists.
pub open spec fn has_room(apps: Map<u64, AppView>, app_id: u64, room_id: u64) -> bool {
    apps.contains_key(app_id) && apps[app_id].rooms.rooms.contains_key(room_id)
}

/// The client `c` is a peer in some room of some application.
pub open spec fn in_some_room(apps: Map<u64, AppView>, c: u64) -> bool {
    exists|a: u64, r: u64| #[trigger]
        has_room(apps, a, r) && apps[a].rooms.rooms[r].peers.contains_key(c)
}

/// Plans the shutdown, given the connected clients: every connected client
/// and every peer of a room is disconnected, once, and every room is
/// removed. Nothing changes.
pub fn cleanup_plan(apps: &Apps, clients: &Vec<u64>) -> (res: CleanupPlan)
    requires
        apps.wf(),
    ensures
        res.disconnects@.no_duplicates(),
        forall|c: u64|
            #[trigger] res.disconnects@.contains(c) <==> clients@.contains(c) || in_some_room(
                apps@.apps,
                c,
            ),
        forall|k: int|
            0 <= k < res.to_remove@.len() ==> has_room(
                apps@.apps,
                (#[trigger] res.to_remove@[k]).0,
                res.to_remove@[k].1,
            ),
        forall|a: u64, r: u64| #[trigger]
            has_room(apps@.apps, a, r) ==> res.to_remove@.contains((a, r)),
{
    let mut disconnects: Vec<u64> = Vec::new();
    push_missing(&mut disconnects, clients);
    let mut to_remove: Vec<(u64, u64)> = Vec::new();
    let app_list = apps.iter();
    let mut i: usize = 0;
    while i < app_list.len()
        invariant
            apps.wf(),
            i <= app_list@.len(),
            forall|k: int|
                0 <= k < app_list@.len() ==> apps@.apps.contains_key(#[trigger] app_list@[k]@.id)
                    && apps@.apps[app_list@[k]@.id] == app_list@[k]@,
            forall|id: u64|
                #[trigger] apps@.apps.contains_key(id) ==> exists|k: int|
                    0 <= k < app_list@.len() && #[trigger] app_list@[k]@.id == id,
            forall|k: int|
                0 <= k < to_remove@.len() ==> has_room(
                    apps@.apps,
                    (#[trigger] to_remove@[k]).0,
                    to_remove@[k].1,
                ),
            forall|k: int, r: u64|
                0 <= k < i && #[trigger] has_room(apps@.apps, app_list@[k]@.id, r)
                    ==> to_remove@.contains((app_list@[k]@.id, r)),
            disconnects@.no_duplicates(),
            forall|c: u64|
                #[trigger] disconnects@.contains(c) ==> clients@.contains(c) || in_some_room(
                    apps@.apps,
                    c,
                ),
            forall|c: u64| #[trigger] clients@.contains(c) ==> disconnects@.contains(c),
            forall|k: int, r: u64, c: u64|
                0 <= k < i && #[trigger] has_room(apps@.apps, app_list@[k]@.id, r)
                    && #[trigger] apps@.apps[app_list@[k]@.id].rooms.rooms[r].peers.contains_key(c)
                    ==> disconnects@.contains(c),
        decreases app_list@.len() - i,
    {
        let app = app_list[i];
        proof {
            assert(apps@.apps.contains_key(app_list@[i as int]@.id));
            assert(app@.rooms.wf());
        }
        let room_list = app.rooms.iter();
        let ghost a = app@.id;
        let ghost outer_remove = to_remove@;
        let ghost outer_disconnects = disconnects@;
        let mut j: usize = 0;
        while j < room_list.len()
            invariant
                apps.wf(),
                j <= room_list@.len(),
                apps@.apps.contains_key(a),
                apps@.apps[a] == app@,
                forall|k: int|
                    0 <= k < room_list@.len() ==> app@.rooms.rooms.contains_key(
                        #[trigger] room_list@[k]@.id,
                    ) && app@.rooms.rooms[room_list@[k]@.id] == room_list@[k]@,
                forall|k: int|
                    0 <= k < to_remove@.len() ==> has_room(
                        apps@.apps,
                        (#[trigger] to_remove@[k]).0,
                        to_remove@[k].1,
                    ),
                forall|x: (u64, u64)| outer_remove.contains(x) ==> #[trigger] to_remove@.contains(x),
                forall|k: int| 0 <= k < j ==> to_remove@.contains((a, #[trigger] room_list@[k]@.id)),
                disconnects@.no_duplicates(),
                forall|c: u64|
                    #[trigger] disconnects@.contains(c) ==> clients@.contains(c) || in_some_room(
                        apps@.apps,
                        c,
                    ),
                forall|c: u64| outer_disconnects.contains(c) ==> #[trigger] disconnects@.contains(c),
                forall|k: int, c: u64|
                    0 <= k < j && #[trigger] room_list@[k]@.peers.contains_key(c)
                        ==> disconnects@.contains(c),
            decreases room_list@.len() - j,
        {
            let room = room_list[j];
            let peers = room.get_clients();
            let ghost r = room@.id;
            let ghost before_remove = to_remove@;
            push_missing(&mut disconnects, &peers);
            to_remove.push((app.id, room.id));
            proof {
                assert(has_room(apps@.apps, a, r));
                assert(to_remove@[to_remove@.len() - 1] == (a, r));
                assert forall|x: (u64, u64)| before_remove.contains(x) implies #[trigger] to_remove@.contains(x) by {
                    let m = choose|m: int| 0 <= m < before_remove.len() && before_remove[m] == x;
                    assert(to_remove@[m] == x);
                }
                assert forall|c: u64| #[trigger] disconnects@.contains(c) implies clients@.contains(c)
                    || in_some_room(apps@.apps, c) by {
                    if peers@.contains(c) {
                        assert(peers@.to_set().contains(c));
                        assert(has_room(apps@.apps, a, r) && apps@.apps[a].rooms.rooms[r].peers.contains_key(c));
                    }
                }
                assert forall|k: int, c: u64|
                    0 <= k < j + 1 && #[trigger] room_list@[k]@.peers.contains_key(c)
                        implies disconnects@.contains(c) by {
                    if k == j {
                        assert(peers@.to_set().contains(c));
                    }
                }
                assert forall|k: int| 0 <= k < j + 1 implies to_remove@.contains(
                    (a, #[trigger] room_list@[k]@.id),
                ) by {
                    if k < j {
                        assert(before_remove.contains((a, room_list@[k]@.id)));
                    }
                }
            }
            j = j + 1;
        }
        proof {
            assert forall|k: int, r: u64|
                0 <= k < i + 1 && #[trigger] has_room(apps@.apps, app_list@[k]@.id, r)
                    implies to_remove@.contains((app_list@[k]@.id, r)) by {
                if k == i {
                    let m = choose|m: int| 0 <= m < room_list@.len() && #[trigger] room_list@[m]@.id == r;
                    assert(to_remove@.contains((a, room_list@[m]@.id)));
                } else {
                    assert(outer_remove.contains((app_list@[k]@.id, r)));
                }
            }
            assert forall|k: int, r: u64, c: u64|
                0 <= k < i + 1 && #[trigger] has_room(apps@.apps, app_list@[k]@.id, r)
                    && #[trigger] apps@.apps[app_list@[k]@.id].rooms.rooms[r].peers.contains_key(c)
                    implies disconnects@.contains(c) by {
                if k == i {
                    let m = choose|m: int| 0 <= m < room_list@.len() && #[trigger] room_list@[m]@.id == r;
                    assert(room_list@[m]@.peers.contains_key(c));
                } else {
                    assert(outer_disconnects.contains(c));
                }
            }
        }
        i = i + 1;
    }
    proof {
        assert forall|a: u64, r: u64| #[trigger] has_room(apps@.apps, a, r) implies to_remove@.contains(
            (a, r),
        ) by {
            let k = choose|k: int| 0 <= k < app_list@.len() && #[trigger] app_list@[k]@.id == a;
            assert(has_room(apps@.apps, app_list@[k]@.id, r));
        }
        assert forall|c: u64| clients@.contains(c) || in_some_room(apps@.apps, c) implies #[trigger]
            disconnects@.contains(c) by {
            if !clients@.contains(c) {
                let (a, r) = choose|a: u64, r: u64| #[trigger]
                    has_room(apps@.apps, a, r) && apps@.apps[a].rooms.rooms[r].peers.contains_key(c);
                let k = choose|k: int| 0 <= k < app_list@.len() && #[trigger] app_list@[k]@.id == a;
                assert(has_room(apps@.apps, app_list@[k]@.id, r));
            }
        }
    }
    CleanupPlan { disconnects, to_remove }
}

/// Shuts the server's registries down: every room of every application is
/// removed, the applications themselves stay. Returns the clients to
/// disconnect: every connected client and every peer of a room, each once.
pub fn shutdown(apps: &mut Apps, clients: &Vec<u64>) -> (res: Vec<u64>)
    requires
        old(apps).wf(),
    ensures
        final(apps).wf(),
        res@.no_duplicates(),
        forall|c: u64|
            #[trigger] res@.contains(c) <==> clients@.contains(c) || in_some_room(
                old(apps)@.apps,
                c,
            ),
        final(apps)@.tokens == old(apps)@.tokens,
        final(apps)@.next_id == old(apps)@.next_id,
        final(apps)@.apps.dom() == old(apps)@.apps.dom(),
        forall|a: u64| #[trigger]
            final(apps)@.apps.contains_key(a) ==> {
                &&& final(apps)@.apps[a].id == old(apps)@.apps[a].id
                &&& final(apps)@.apps[a].token == old(apps)@.apps[a].token
                &&& final(apps)@.apps[a].rooms.rooms == Map::<u64, RoomView>::empty()
            },
{
    let plan = cleanup_plan(apps, clients);
    let to_remove = plan.to_remove;
    let mut i: usize = 0;
    while i < to_remove.len()
        invariant
            apps.wf(),
            i <= to_remove@.len(),
            forall|a: u64, r: u64| #[trigger]
                has_room(old(apps)@.apps, a, r) ==> to_remove@.contains((a, r)),
            apps@.tokens == old(apps)@.tokens,
            apps@.next_id == old(apps)@.next_id,
            apps@.apps.dom() == old(apps)@.apps.dom(),
            forall|a: u64| #[trigger]
                apps@.apps.contains_key(a) ==> apps@.apps[a].id == old(apps)@.apps[a].id
                    && apps@.apps[a].token == old(apps)@.apps[a].token,
            forall|a: u64, r: u64| #[trigger]
                has_room(apps@.apps, a, r) ==> has_room(old(apps)@.apps, a, r),
            forall|k: int|
                0 <= k < i ==> !has_room(
                    apps@.apps,
                    (#[trigger] to_remove@[k]).0,
                    to_remove@[k].1,
                ),
        decreases to_remove@.len() - i,
    {
        let (app_id, room_id) = to_remove[i];
        let ghost before = apps@.apps;
        RoomHandler::remove_room(apps, app_id, room_id);
        proof {
            assert forall|a: u64, r: u64| #[trigger] has_room(apps@.apps, a, r) implies has_room(
                before,
                a,
                r,
            ) by {}
            assert forall|k: int| 0 <= k < i + 1 implies !has_room(
                apps@.apps,
                (#[trigger] to_remove@[k]).0,
                to_remove@[k].1,
            ) by {
                if k < i {
                    assert(!has_room(before, to_remove@[k].0, to_remove@[k].1));
                }
            }
        }
        i = i + 1;
    }
    proof {
        assert forall|a: u64| #[trigger] apps@.apps.contains_key(a) implies apps@.apps[a].rooms.rooms
            == Map::<u64, RoomView>::empty() by {
            assert forall|r: u64| !apps@.apps[a].rooms.rooms.contains_key(r) by {
                if apps@.apps[a].rooms.rooms.contains_key(r) {
                    assert(has_room(apps@.apps, a, r));
                    assert(to_remove@.contains((a, r)));
                    let k = choose|k: int| 0 <= k < to_remove@.len() && to_remove@[k] == (a, r);
                    assert(!has_room(apps@.apps, to_remove@[k].0, to_remove@[k].1));
                }
            }
            assert(apps@.apps[a].rooms.rooms =~= Map::<u64, RoomView>::empty());
        }
    }
    plan.disconnects
}

/// Whether `v` holds `x`.
fn holds(v: &Vec<u64>, x: u64) -> (res: bool)
    ensures
        res == v@.contains(x),
{
    let mut i: usize = 0;
    while i < v.len()
        invariant
            i <= v@.len(),
            forall|k: int| 0 <= k < i ==> v@[k] != x,
        decreases v@.len() - i,
    {
        if v[i] == x {
            assert(v@[i as int] == x);
            return true;
        }
        i = i + 1;
    }
    false
}

/// Appends the values of `src` that `dst` does not hold yet, each once.
fn push_missing(dst: &mut Vec<u64>, src: &Vec<u64>)
    requires
        old(dst)@.no_duplicates(),
    ensures
        final(dst)@.no_duplicates(),
        forall|c: u64|
            #[trigger] final(dst)@.contains(c) <==> old(dst)@.contains(c) || src@.contains(c),
{
    let mut i: usize = 0;
    while i < src.len()
        invariant
            i <= src@.len(),
            dst@.no_duplicates(),
            forall|c: u64|
                #[trigger] dst@.contains(c) <==> old(dst)@.contains(c) || src@.take(
                    i as int,
                ).contains(c),
        decreases src@.len() - i,
    {
        let x = src[i];
        let ghost before = dst@;
        if !holds(dst, x) {
            dst.push(x);
            proof {
                assert forall|p: int, q: int|
                    0 <= p < dst@.len() && 0 <= q < dst@.len() && p != q implies dst@[p]
                    != dst@[q] by {
                    if p == before.len() as int {
                        assert(before.contains(dst@[q]));
                    } else if q == before.len() as int {
                        assert(before.contains(dst@[p]));
                    }
                }
                assert forall|c: u64| #[trigger] dst@.contains(c) <==> before.contains(c) || c == x by {
                    if dst@.contains(c) && !before.contains(c) {
                        let m = choose|m: int| 0 <= m < dst@.len() && dst@[m] == c;
                        if m < before.len() {
                            assert(before[m] == c);
                        }
                    }
                    if before.contains(c) {
                        let m = choose|m: int| 0 <= m < before.len() && before[m] == c;
                        assert(dst@[m] == c);
                    }
                    if c == x {
                        assert(dst@[before.len() as int] == x);
                    }
                }
            }
        }
        proof {
            let t0 = src@.take(i as int);
            let t1 = src@.take(i + 1);
            assert(t1 =~= t0.push(x));
            assert forall|c: u64| #[trigger] t1.contains(c) <==> t0.contains(c) || c == x by {
                if t1.contains(c) {
                    let m = choose|m: int| 0 <= m < t1.len() && t1[m] == c;
                    if m < t0.len() {
                        assert(t0[m] == c);
                    }
                }
                if t0.contains(c) {
                    let m = choose|m: int| 0 <= m < t0.len() && t0[m] == c;
                    assert(t1[m] == c);
                }
                if c == x {
                    assert(t1[i as int] == x);
                }
            }
            assert forall|c: u64| #[trigger] dst@.contains(c) <==> old(dst)@.contains(c)
                || t1.contains(c) by {
                assert(dst@.contains(c) <==> before.contains(c) || c == x);
                assert(t1.contains(c) <==> t0.contains(c) || c == x);
            }
        }
        i = i + 1;
    }
    assert(src@.take(src@.len() as int) =~= src@);
}

} // verus!
