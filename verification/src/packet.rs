//! Packets of the relay protocol: their types, their byte format, and the
//! encoder and decoder between the two.
//!
//! A packet is one byte naming its type followed by its fields, in order,
//! each written by the codec of [`crate::wire`].

use vstd::prelude::*;
use vstd::slice::slice_subrange;
use vstd::slice::slice_to_vec;

use crate::error::ProtocolError;
use crate::error::ProtocolFault;
use crate::wire::bool_bytes;
use crate::wire::i32_bytes;
use crate::wire::push_bool;
use crate::wire::push_bytes;
use crate::wire::push_u64;
use crate::wire::read_bool;
use crate::wire::read_u64;
use crate::wire::spec_read_bool;
use crate::wire::lemma_read_bool_written;
use crate::wire::lemma_read_i32_written;
use crate::wire::lemma_read_string_written;
use crate::wire::lemma_read_u64_written;
use crate::wire::spec_read_u64;
use crate::wire::string_fits;
use crate::wire::u64_bytes;
use crate::wire::push_i32;
use crate::wire::push_string;
use crate::wire::read_i32;
use crate::wire::read_outcome;
use crate::wire::read_string;
use crate::wire::spec_read_i32;
use crate::wire::spec_read_string;
use crate::wire::string_bytes;

verus! {

// The type bytes number the packet kinds from 1, in the order in which
// `PacketType` lists them. The numbering is this library's own choice: a
// peer speaks the protocol only if it uses the same table. The keep-alive
// payload is the single byte 3, the type byte of room creation without its
// fields, so it never decodes to a packet (see
// `transport::lemma_keepalive_is_no_packet`).

/// Type byte of [`PacketType::Authenticate`].
pub const AUTHENTICATE: u8 = 1;
/// Type byte of [`PacketType::ClientAuthenticated`].
pub const CLIENT_AUTHENTICATED: u8 = 2;
/// Type byte of [`PacketType::CreateRoom`].
pub const CREATE_ROOM: u8 = 3;
/// Type byte of [`PacketType::ReqRooms`].
pub const REQ_ROOMS: u8 = 4;
/// Type byte of [`PacketType::GetRooms`].
pub const GET_ROOMS: u8 = 5;
/// Type byte of [`PacketType::UpdateRoom`].
pub const UPDATE_ROOM: u8 = 6;
/// Type byte of [`PacketType::ReqJoin`].
pub const JOIN_ROOM: u8 = 7;
/// Type byte of [`PacketType::JoinRes`].
pub const JOIN_RES: u8 = 8;
/// Type byte of [`PacketType::ConnectedToRoom`].
pub const CONNECTED_TO_ROOM: u8 = 9;
/// Type byte of [`PacketType::PeerJoinAttempt`].
pub const PEER_JOIN_ATTEMPT: u8 = 10;
/// Type byte of [`PacketType::PeerJoinedRoom`].
pub const PEER_JOINED: u8 = 11;
/// Type byte of [`PacketType::PeerLeftRoom`].
pub const PEER_LEFT: u8 = 12;
/// Type byte of [`PacketType::GameData`].
pub const GAME_DATA: u8 = 13;
/// Type byte of [`PacketType::ForceDisconnect`].
pub const FORCE_DISCONNECT: u8 = 14;
/// Type byte of [`PacketType::Error`].
pub const ERROR_PACKET: u8 = 15;

/// A room as the room list shows it: its join code and its metadata.
#[derive(Debug, Clone)]
pub struct RoomInfo {
    pub id: String,
    pub metadata: String,
}

/// A [`RoomInfo`] as mathematics.
pub struct RoomInfoView {
    pub id: Seq<char>,
    pub metadata: Seq<char>,
}

impl View for RoomInfo {
    type V = RoomInfoView;

    open spec fn view(&self) -> RoomInfoView {
        RoomInfoView { id: self.id@, metadata: self.metadata@ }
    }
}

/// The views of a list of rooms.
pub open spec fn rooms_view(rooms: Seq<RoomInfo>) -> Seq<RoomInfoView> {
    rooms.map_values(|r: RoomInfo| r@)
}

/// Every packet that client and relay exchange.
#[derive(Debug, Clone)]
pub enum PacketType {
    Authenticate { app_id: String, version: String },
    ClientAuthenticated,
    CreateRoom { is_public: bool, metadata: String },
    ReqRooms,
    GetRooms { rooms: Vec<RoomInfo> },
    UpdateRoom { room_id: String, metadata: String },
    ReqJoin { room_id: String, metadata: String },
    JoinRes { target_id: u64, room_id: String, allowed: bool },
    ConnectedToRoom { room_id: String, peer_id: i32 },
    PeerJoinAttempt { target_id: u64, metadata: String },
    PeerJoinedRoom { peer_id: i32 },
    PeerLeftRoom { peer_id: i32 },
    GameData { from_peer: i32, data: Vec<u8> },
    ForceDisconnect,
    Error { error_code: i32, error_message: String },
}

/// A [`PacketType`] as mathematics.
pub enum Packet {
    Authenticate { app_id: Seq<char>, version: Seq<char> },
    ClientAuthenticated,
    CreateRoom { is_public: bool, metadata: Seq<char> },
    ReqRooms,
    GetRooms { rooms: Seq<RoomInfoView> },
    UpdateRoom { room_id: Seq<char>, metadata: Seq<char> },
    ReqJoin { room_id: Seq<char>, metadata: Seq<char> },
    JoinRes { target_id: u64, room_id: Seq<char>, allowed: bool },
    ConnectedToRoom { room_id: Seq<char>, peer_id: i32 },
    PeerJoinAttempt { target_id: u64, metadata: Seq<char> },
    PeerJoinedRoom { peer_id: i32 },
    PeerLeftRoom { peer_id: i32 },
    GameData { from_peer: i32, data: Seq<u8> },
    ForceDisconnect,
    Error { error_code: i32, error_message: Seq<char> },
}

impl View for PacketType {
    type V = Packet;

    open spec fn view(&self) -> Packet {
        match self {
            PacketType::Authenticate { app_id, version } => Packet::Authenticate {
                app_id: app_id@,
                version: version@,
            },
            PacketType::ClientAuthenticated => Packet::ClientAuthenticated,
            PacketType::CreateRoom { is_public, metadata } => Packet::CreateRoom {
                is_public: *is_public,
                metadata: metadata@,
            },
            PacketType::ReqRooms => Packet::ReqRooms,
            PacketType::GetRooms { rooms } => Packet::GetRooms { rooms: rooms_view(rooms@) },
            PacketType::UpdateRoom { room_id, metadata } => Packet::UpdateRoom {
                room_id: room_id@,
                metadata: metadata@,
            },
            PacketType::ReqJoin { room_id, metadata } => Packet::ReqJoin {
                room_id: room_id@,
                metadata: metadata@,
            },
            PacketType::JoinRes { target_id, room_id, allowed } => Packet::JoinRes {
                target_id: *target_id,
                room_id: room_id@,
                allowed: *allowed,
            },
            PacketType::ConnectedToRoom { room_id, peer_id } => Packet::ConnectedToRoom {
                room_id: room_id@,
                peer_id: *peer_id,
            },
            PacketType::PeerJoinAttempt { target_id, metadata } => Packet::PeerJoinAttempt {
                target_id: *target_id,
                metadata: metadata@,
            },
            PacketType::PeerJoinedRoom { peer_id } => Packet::PeerJoinedRoom { peer_id: *peer_id },
            PacketType::PeerLeftRoom { peer_id } => Packet::PeerLeftRoom { peer_id: *peer_id },
            PacketType::GameData { from_peer, data } => Packet::GameData {
                from_peer: *from_peer,
                data: data@,
            },
            PacketType::ForceDisconnect => Packet::ForceDisconnect,
            PacketType::Error { error_code, error_message } => Packet::Error {
                error_code: *error_code,
                error_message: error_message@,
            },
        }
    }
}

// ---------------------------------------------------------------------------
// The byte format of rooms and room lists
// ---------------------------------------------------------------------------

/// How a room entry is written: its join code, then its metadata.
pub open spec fn room_info_bytes(r: RoomInfoView) -> Seq<u8> {
    string_bytes(r.id) + string_bytes(r.metadata)
}

/// The entries of a room list, one after the other.
pub open spec fn room_entries_bytes(rooms: Seq<RoomInfoView>) -> Seq<u8>
    decreases rooms.len(),
{
    if rooms.len() == 0 {
        Seq::empty()
    } else {
        room_entries_bytes(rooms.drop_last()) + room_info_bytes(rooms.last())
    }
}

/// How a room list is written: its length as an `i32` (wrapping as Rust's
/// `as` does), then its entries.
pub open spec fn room_list_bytes(rooms: Seq<RoomInfoView>) -> Seq<u8> {
    i32_bytes(rooms.len() as i32) + room_entries_bytes(rooms)
}

/// What reading a room entry from the front of `s` gives.
pub open spec fn spec_read_room(s: Seq<u8>) -> Result<(RoomInfoView, Seq<u8>), ProtocolFault> {
    match spec_read_string(s) {
        Err(e) => Err(e),
        Ok((id, r)) => match spec_read_string(r) {
            Err(e) => Err(e),
            Ok((metadata, r2)) => Ok((RoomInfoView { id, metadata }, r2)),
        },
    }
}

/// What reading `n` room entries, one after the other, from the front of `s` gives.
pub open spec fn spec_read_rooms(s: Seq<u8>, n: nat) -> Result<
    (Seq<RoomInfoView>, Seq<u8>),
    ProtocolFault,
>
    decreases n,
{
    if n == 0 {
        Ok((Seq::empty(), s))
    } else {
        match spec_read_rooms(s, (n - 1) as nat) {
            Err(e) => Err(e),
            Ok((rooms, rest)) => match spec_read_room(rest) {
                Err(e) => Err(e),
                Ok((r, rest2)) => Ok((rooms.push(r), rest2)),
            },
        }
    }
}

/// What reading a room list from the front of `s` gives: an `i32` count, which
/// must not be negative, then that many entries.
pub open spec fn spec_read_room_list(s: Seq<u8>) -> Result<
    (Seq<RoomInfoView>, Seq<u8>),
    ProtocolFault,
> {
    match spec_read_i32(s) {
        Err(e) => Err(e),
        Ok((len, rest)) => if len < 0 {
            Err(ProtocolFault::NegativeVectorLength)
        } else {
            spec_read_rooms(rest, len as nat)
        },
    }
}

/// Once reading the first `k` entries fails, reading more fails in the same way.
proof fn lemma_read_rooms_failure_persists(s: Seq<u8>, k: nat, n: nat)
    requires
        k <= n,
        spec_read_rooms(s, k) is Err,
    ensures
        spec_read_rooms(s, n) == spec_read_rooms(s, k),
    decreases n,
{
    if n > k {
        lemma_read_rooms_failure_persists(s, k, (n - 1) as nat);
    }
}

// ---------------------------------------------------------------------------
// Readers and writers of rooms
// ---------------------------------------------------------------------------

/// Reads one room entry from the front of `bytes`.
pub fn read_room_info(bytes: &[u8]) -> (res: Result<(RoomInfo, &[u8]), ProtocolError>)
    ensures
        read_outcome(res) == spec_read_room(bytes@),
{
    let (id, r) = match read_string(bytes) {
        Ok(p) => p,
        Err(e) => return Err(e),
    };
    let (metadata, r) = match read_string(r) {
        Ok(p) => p,
        Err(e) => return Err(e),
    };
    Ok((RoomInfo { id, metadata }, r))
}

/// Reads a room list from the front of `bytes`.
pub fn read_vec_room_info(bytes: &[u8]) -> (res: Result<(Vec<RoomInfo>, &[u8]), ProtocolError>)
    ensures
        match res {
            Ok((rooms, rest)) => spec_read_room_list(bytes@) == Ok::<_, ProtocolFault>(
                (rooms_view(rooms@), rest@),
            ),
            Err(e) => spec_read_room_list(bytes@) == Err::<(Seq<RoomInfoView>, Seq<u8>), _>(e@),
        },
{
    let (len, rest0) = match read_i32(bytes) {
        Ok(p) => p,
        Err(e) => return Err(e),
    };
    if len < 0 {
        return Err(ProtocolError::NegativeVectorLength());
    }
    let mut rooms: Vec<RoomInfo> = Vec::new();
    let mut rest = rest0;
    let mut i: i32 = 0;
    assert(rooms_view(rooms@) =~= Seq::<RoomInfoView>::empty());
    while i < len
        invariant
            0 <= i <= len,
            spec_read_i32(bytes@) == Ok::<_, ProtocolFault>((len, rest0@)),
            spec_read_rooms(rest0@, i as nat) == Ok::<_, ProtocolFault>(
                (rooms_view(rooms@), rest@),
            ),
        decreases len - i,
    {
        match read_room_info(rest) {
            Ok((room, remaining)) => {
                proof {
                    assert(rooms_view(rooms@.push(room)) =~= rooms_view(rooms@).push(room@));
                }
                rooms.push(room);
                rest = remaining;
                i = i + 1;
            },
            Err(e) => {
                proof {
                    assert(spec_read_rooms(rest0@, (i + 1) as nat) == Err::<
                        (Seq<RoomInfoView>, Seq<u8>),
                        _,
                    >(e@));
                    lemma_read_rooms_failure_persists(rest0@, (i + 1) as nat, len as nat);
                }
                return Err(e);
            },
        }
    }
    Ok((rooms, rest))
}

/// Appends the entries of `rooms`, one after the other.
fn push_room_entries(buf: &mut Vec<u8>, rooms: &[RoomInfo])
    ensures
        final(buf)@ == old(buf)@ + room_entries_bytes(rooms_view(rooms@)),
{
    let mut i: usize = 0;
    while i < rooms.len()
        invariant
            i <= rooms@.len(),
            buf@ == old(buf)@ + room_entries_bytes(rooms_view(rooms@.take(i as int))),
        decreases rooms@.len() - i,
    {
        let ghost before = buf@;
        push_string(buf, rooms[i].id.as_str());
        push_string(buf, rooms[i].metadata.as_str());
        proof {
            let taken = rooms_view(rooms@.take(i + 1));
            assert(taken.drop_last() =~= rooms_view(rooms@.take(i as int)));
            assert(taken.last() == rooms@[i as int]@);
            assert(buf@ =~= before + room_info_bytes(rooms@[i as int]@));
        }
        i = i + 1;
    }
    assert(rooms@.take(rooms@.len() as int) =~= rooms@);
}

/// Appends a room list: its length as an `i32`, then its entries.
pub fn push_vec_room_info(buf: &mut Vec<u8>, rooms: &[RoomInfo])
    ensures
        final(buf)@ == old(buf)@ + room_list_bytes(rooms_view(rooms@)),
{
    push_i32(buf, rooms.len() as i32);
    push_room_entries(buf, rooms);
    assert(buf@ =~= old(buf)@ + room_list_bytes(rooms_view(rooms@)));
}

// ---------------------------------------------------------------------------
// The byte format of packets
// ---------------------------------------------------------------------------

/// The bytes of a packet: its type byte, then its fields in order. Game data
/// is written raw, up to the end of the packet.
pub open spec fn spec_to_bytes(p: Packet) -> Seq<u8> {
    match p {
        Packet::Authenticate { app_id, version } => seq![AUTHENTICATE] + string_bytes(app_id)
            + string_bytes(version),
        Packet::ClientAuthenticated => seq![CLIENT_AUTHENTICATED],
        Packet::CreateRoom { is_public, metadata } => seq![CREATE_ROOM] + bool_bytes(is_public)
            + string_bytes(metadata),
        Packet::ReqRooms => seq![REQ_ROOMS],
        Packet::GetRooms { rooms } => seq![GET_ROOMS] + room_list_bytes(rooms),
        Packet::UpdateRoom { room_id, metadata } => seq![UPDATE_ROOM] + string_bytes(room_id)
            + string_bytes(metadata),
        Packet::ReqJoin { room_id, metadata } => seq![JOIN_ROOM] + string_bytes(room_id)
            + string_bytes(metadata),
        Packet::JoinRes { target_id, room_id, allowed } => seq![JOIN_RES] + u64_bytes(target_id)
            + string_bytes(room_id) + bool_bytes(allowed),
        Packet::ConnectedToRoom { room_id, peer_id } => seq![CONNECTED_TO_ROOM] + string_bytes(
            room_id,
        ) + i32_bytes(peer_id),
        Packet::PeerJoinAttempt { target_id, metadata } => seq![PEER_JOIN_ATTEMPT] + u64_bytes(
            target_id,
        ) + string_bytes(metadata),
        Packet::PeerJoinedRoom { peer_id } => seq![PEER_JOINED] + i32_bytes(peer_id),
        Packet::PeerLeftRoom { peer_id } => seq![PEER_LEFT] + i32_bytes(peer_id),
        Packet::GameData { from_peer, data } => seq![GAME_DATA] + i32_bytes(from_peer) + data,
        Packet::ForceDisconnect => seq![FORCE_DISCONNECT],
        Packet::Error { error_code, error_message } => seq![ERROR_PACKET] + i32_bytes(error_code)
            + string_bytes(error_message),
    }
}

/// Reads two strings, one after the other, from the front of `s`.
pub open spec fn spec_read_two_strings(s: Seq<u8>) -> Result<(Seq<char>, Seq<char>), ProtocolFault> {
    match spec_read_string(s) {
        Err(e) => Err(e),
        Ok((a, r)) => match spec_read_string(r) {
            Err(e) => Err(e),
            Ok((b, _)) => Ok((a, b)),
        },
    }
}

/// The packet that the fields `body` after the type byte `id` make, or the
/// fault that stops their reading. Bytes after the last field are ignored; a
/// room's metadata that cannot be read is taken to be empty.
pub open spec fn spec_parse_body(id: u8, body: Seq<u8>) -> Result<Packet, ProtocolFault> {
    if id == AUTHENTICATE {
        match spec_read_two_strings(body) {
            Err(e) => Err(e),
            Ok((app_id, version)) => Ok(Packet::Authenticate { app_id, version }),
        }
    } else if id == CLIENT_AUTHENTICATED {
        Ok(Packet::ClientAuthenticated)
    } else if id == CREATE_ROOM {
        match spec_read_bool(body) {
            Err(e) => Err(e),
            Ok((is_public, r)) => Ok(
                Packet::CreateRoom {
                    is_public,
                    metadata: match spec_read_string(r) {
                        Ok((m, _)) => m,
                        Err(_) => Seq::empty(),
                    },
                },
            ),
        }
    } else if id == JOIN_ROOM {
        match spec_read_two_strings(body) {
            Err(e) => Err(e),
            Ok((room_id, metadata)) => Ok(Packet::ReqJoin { room_id, metadata }),
        }
    } else if id == CONNECTED_TO_ROOM {
        match spec_read_string(body) {
            Err(e) => Err(e),
            Ok((room_id, r)) => match spec_read_i32(r) {
                Err(e) => Err(e),
                Ok((peer_id, _)) => Ok(Packet::ConnectedToRoom { room_id, peer_id }),
            },
        }
    } else if id == PEER_JOIN_ATTEMPT {
        match spec_read_u64(body) {
            Err(e) => Err(e),
            Ok((target_id, r)) => match spec_read_string(r) {
                Err(e) => Err(e),
                Ok((metadata, _)) => Ok(Packet::PeerJoinAttempt { target_id, metadata }),
            },
        }
    } else if id == PEER_JOINED {
        match spec_read_i32(body) {
            Err(e) => Err(e),
            Ok((peer_id, _)) => Ok(Packet::PeerJoinedRoom { peer_id }),
        }
    } else if id == PEER_LEFT {
        match spec_read_i32(body) {
            Err(e) => Err(e),
            Ok((peer_id, _)) => Ok(Packet::PeerLeftRoom { peer_id }),
        }
    } else if id == GAME_DATA {
        match spec_read_i32(body) {
            Err(e) => Err(e),
            Ok((from_peer, r)) => Ok(Packet::GameData { from_peer, data: r }),
        }
    } else if id == FORCE_DISCONNECT {
        Ok(Packet::ForceDisconnect)
    } else if id == ERROR_PACKET {
        match spec_read_i32(body) {
            Err(e) => Err(e),
            Ok((error_code, r)) => match spec_read_string(r) {
                Err(e) => Err(e),
                Ok((error_message, _)) => Ok(Packet::Error { error_code, error_message }),
            },
        }
    } else if id == REQ_ROOMS {
        Ok(Packet::ReqRooms)
    } else if id == GET_ROOMS {
        match spec_read_room_list(body) {
            Err(e) => Err(e),
            Ok((rooms, _)) => Ok(Packet::GetRooms { rooms }),
        }
    } else if id == UPDATE_ROOM {
        match spec_read_two_strings(body) {
            Err(e) => Err(e),
            Ok((room_id, metadata)) => Ok(Packet::UpdateRoom { room_id, metadata }),
        }
    } else if id == JOIN_RES {
        match spec_read_u64(body) {
            Err(e) => Err(e),
            Ok((target_id, r)) => match spec_read_string(r) {
                Err(e) => Err(e),
                Ok((room_id, r2)) => match spec_read_bool(r2) {
                    Err(e) => Err(e),
                    Ok((allowed, _)) => Ok(Packet::JoinRes { target_id, room_id, allowed }),
                },
            },
        }
    } else {
        Err(ProtocolFault::UnknownPacketType(id))
    }
}

/// The packet that the bytes `b` hold, or why they hold none.
pub open spec fn spec_from_bytes(b: Seq<u8>) -> Result<Packet, ProtocolFault> {
    if b.len() == 0 {
        Err(ProtocolFault::EmptyPacket)
    } else {
        spec_parse_body(b[0], b.skip(1))
    }
}

/// The outcome of decoding, as mathematics.
pub open spec fn decode_outcome(r: Result<PacketType, ProtocolError>) -> Result<Packet, ProtocolFault> {
    match r {
        Ok(p) => Ok(p@),
        Err(e) => Err(e@),
    }
}

impl PacketType {
    /// Decodes a packet from `bytes`.
    pub fn from_bytes(bytes: &[u8]) -> (res: Result<Self, ProtocolError>)
        ensures
            decode_outcome(res) == spec_from_bytes(bytes@),
    {
        if bytes.len() == 0 {
            return Err(ProtocolError::EmptyPacket);
        }
        let packet_id = bytes[0];
        let rest = slice_subrange(bytes, 1, bytes.len());
        let packet = if packet_id == AUTHENTICATE {
            let (app_id, r) = match read_string(rest) {
                Ok(p) => p,
                Err(e) => return Err(e),
            };
            let (version, _) = match read_string(r) {
                Ok(p) => p,
                Err(e) => return Err(e),
            };
            PacketType::Authenticate { app_id, version }
        } else if packet_id == CLIENT_AUTHENTICATED {
            PacketType::ClientAuthenticated
        } else if packet_id == CREATE_ROOM {
            let (is_public, r) = match read_bool(rest) {
                Ok(p) => p,
                Err(e) => return Err(e),
            };
            let metadata = match read_string(r) {
                Ok((name, _)) => name,
                Err(_) => String::new(),
            };
            PacketType::CreateRoom { is_public, metadata }
        } else if packet_id == JOIN_ROOM {
            let (room_id, r) = match read_string(rest) {
                Ok(p) => p,
                Err(e) => return Err(e),
            };
            let (metadata, _) = match read_string(r) {
                Ok(p) => p,
                Err(e) => return Err(e),
            };
            PacketType::ReqJoin { room_id, metadata }
        } else if packet_id == CONNECTED_TO_ROOM {
            let (room_id, r) = match read_string(rest) {
                Ok(p) => p,
                Err(e) => return Err(e),
            };
            let (peer_id, _) = match read_i32(r) {
                Ok(p) => p,
                Err(e) => return Err(e),
            };
            PacketType::ConnectedToRoom { room_id, peer_id }
        } else if packet_id == PEER_JOIN_ATTEMPT {
            let (target_id, r) = match read_u64(rest) {
                Ok(p) => p,
                Err(e) => return Err(e),
            };
            let (metadata, _) = match read_string(r) {
                Ok(p) => p,
                Err(e) => return Err(e),
            };
            PacketType::PeerJoinAttempt { target_id, metadata }
        } else if packet_id == PEER_JOINED {
            let (peer_id, _) = match read_i32(rest) {
                Ok(p) => p,
                Err(e) => return Err(e),
            };
            PacketType::PeerJoinedRoom { peer_id }
        } else if packet_id == PEER_LEFT {
            let (peer_id, _) = match read_i32(rest) {
                Ok(p) => p,
                Err(e) => return Err(e),
            };
            PacketType::PeerLeftRoom { peer_id }
        } else if packet_id == GAME_DATA {
            let (peer_id, r) = match read_i32(rest) {
                Ok(p) => p,
                Err(e) => return Err(e),
            };
            PacketType::GameData { from_peer: peer_id, data: slice_to_vec(r) }
        } else if packet_id == FORCE_DISCONNECT {
            PacketType::ForceDisconnect
        } else if packet_id == ERROR_PACKET {
            let (error_code, r) = match read_i32(rest) {
                Ok(p) => p,
                Err(e) => return Err(e),
            };
            let (error_message, _) = match read_string(r) {
                Ok(p) => p,
                Err(e) => return Err(e),
            };
            PacketType::Error { error_code, error_message }
        } else if packet_id == REQ_ROOMS {
            PacketType::ReqRooms
        } else if packet_id == GET_ROOMS {
            let (rooms, _) = match read_vec_room_info(rest) {
                Ok(p) => p,
                Err(e) => return Err(e),
            };
            PacketType::GetRooms { rooms }
        } else if packet_id == UPDATE_ROOM {
            let (room_id, r) = match read_string(rest) {
                Ok(p) => p,
                Err(e) => return Err(e),
            };
            let (metadata, _) = match read_string(r) {
                Ok(p) => p,
                Err(e) => return Err(e),
            };
            PacketType::UpdateRoom { room_id, metadata }
        } else if packet_id == JOIN_RES {
            let (target_id, r) = match read_u64(rest) {
                Ok(p) => p,
                Err(e) => return Err(e),
            };
            let (room_id, r) = match read_string(r) {
                Ok(p) => p,
                Err(e) => return Err(e),
            };
            let (allowed, _) = match read_bool(r) {
                Ok(p) => p,
                Err(e) => return Err(e),
            };
            PacketType::JoinRes { target_id, room_id, allowed }
        } else {
            return Err(ProtocolError::UnknownPacketType(packet_id));
        };
        Ok(packet)
    }

    /// Encodes the packet: its type byte, then its fields.
    pub fn to_bytes(&self) -> (res: Vec<u8>)
        ensures
            res@ == spec_to_bytes(self@),
    {
        let mut buf: Vec<u8> = Vec::new();
        match self {
            PacketType::Authenticate { app_id, version } => {
                buf.push(AUTHENTICATE);
                push_string(&mut buf, app_id.as_str());
                push_string(&mut buf, version.as_str());
            },
            PacketType::ClientAuthenticated => {
                buf.push(CLIENT_AUTHENTICATED);
            },
            PacketType::CreateRoom { is_public, metadata } => {
                buf.push(CREATE_ROOM);
                push_bool(&mut buf, *is_public);
                push_string(&mut buf, metadata.as_str());
            },
            PacketType::ReqRooms => {
                buf.push(REQ_ROOMS);
            },
            PacketType::GetRooms { rooms } => {
                buf.push(GET_ROOMS);
                push_vec_room_info(&mut buf, rooms.as_slice());
            },
            PacketType::UpdateRoom { room_id, metadata } => {
                buf.push(UPDATE_ROOM);
                push_string(&mut buf, room_id.as_str());
                push_string(&mut buf, metadata.as_str());
            },
            PacketType::ReqJoin { room_id, metadata } => {
                buf.push(JOIN_ROOM);
                push_string(&mut buf, room_id.as_str());
                push_string(&mut buf, metadata.as_str());
            },
            PacketType::JoinRes { target_id, room_id, allowed } => {
                buf.push(JOIN_RES);
                push_u64(&mut buf, *target_id);
                push_string(&mut buf, room_id.as_str());
                push_bool(&mut buf, *allowed);
            },
            PacketType::ConnectedToRoom { room_id, peer_id } => {
                buf.push(CONNECTED_TO_ROOM);
                push_string(&mut buf, room_id.as_str());
                push_i32(&mut buf, *peer_id);
            },
            PacketType::PeerJoinAttempt { target_id, metadata } => {
                buf.push(PEER_JOIN_ATTEMPT);
                push_u64(&mut buf, *target_id);
                push_string(&mut buf, metadata.as_str());
            },
            PacketType::PeerJoinedRoom { peer_id } => {
                buf.push(PEER_JOINED);
                push_i32(&mut buf, *peer_id);
            },
            PacketType::PeerLeftRoom { peer_id } => {
                buf.push(PEER_LEFT);
                push_i32(&mut buf, *peer_id);
            },
            PacketType::GameData { from_peer, data } => {
                buf.push(GAME_DATA);
                push_i32(&mut buf, *from_peer);
                push_bytes(&mut buf, data.as_slice());
            },
            PacketType::ForceDisconnect => {
                buf.push(FORCE_DISCONNECT);
            },
            PacketType::Error { error_code, error_message } => {
                buf.push(ERROR_PACKET);
                push_i32(&mut buf, *error_code);
                push_string(&mut buf, error_message.as_str());
            },
        }
        assert(buf@ =~= spec_to_bytes(self@));
        buf
    }
}

// ---------------------------------------------------------------------------
// The packet layout, and what the decoder refuses
// ---------------------------------------------------------------------------

/// The byte layout of every packet: its type byte, then its fields in the
/// order given here. A join code comes before the peer id that follows it, a
/// target id before the join code or metadata, a room code before the
/// metadata, and game data runs raw to the end.
pub proof fn lemma_packet_layout(p: Packet)
    ensures
        spec_to_bytes(p) == (match p {
            Packet::Authenticate { app_id, version } => seq![AUTHENTICATE] + string_bytes(app_id)
                + string_bytes(version),
            Packet::ClientAuthenticated => seq![CLIENT_AUTHENTICATED],
            Packet::CreateRoom { is_public, metadata } => seq![CREATE_ROOM] + bool_bytes(is_public)
                + string_bytes(metadata),
            Packet::ReqRooms => seq![REQ_ROOMS],
            Packet::GetRooms { rooms } => seq![GET_ROOMS] + i32_bytes(rooms.len() as i32)
                + room_entries_bytes(rooms),
            Packet::UpdateRoom { room_id, metadata } => seq![UPDATE_ROOM] + string_bytes(room_id)
                + string_bytes(metadata),
            Packet::ReqJoin { room_id, metadata } => seq![JOIN_ROOM] + string_bytes(room_id)
                + string_bytes(metadata),
            Packet::JoinRes { target_id, room_id, allowed } => seq![JOIN_RES] + u64_bytes(target_id)
                + string_bytes(room_id) + bool_bytes(allowed),
            Packet::ConnectedToRoom { room_id, peer_id } => seq![CONNECTED_TO_ROOM]
                + string_bytes(room_id) + i32_bytes(peer_id),
            Packet::PeerJoinAttempt { target_id, metadata } => seq![PEER_JOIN_ATTEMPT]
                + u64_bytes(target_id) + string_bytes(metadata),
            Packet::PeerJoinedRoom { peer_id } => seq![PEER_JOINED] + i32_bytes(peer_id),
            Packet::PeerLeftRoom { peer_id } => seq![PEER_LEFT] + i32_bytes(peer_id),
            Packet::GameData { from_peer, data } => seq![GAME_DATA] + i32_bytes(from_peer) + data,
            Packet::ForceDisconnect => seq![FORCE_DISCONNECT],
            Packet::Error { error_code, error_message } => seq![ERROR_PACKET] + i32_bytes(
                error_code,
            ) + string_bytes(error_message),
        }),
{
    match p {
        Packet::GetRooms { rooms } => {
            assert(room_list_bytes(rooms) == i32_bytes(rooms.len() as i32) + room_entries_bytes(
                rooms,
            ));
            assert(seq![GET_ROOMS] + room_list_bytes(rooms) =~= seq![GET_ROOMS] + i32_bytes(
                rooms.len() as i32,
            ) + room_entries_bytes(rooms));
        },
        _ => {},
    }
}

/// Each room entry of a room list is its join code, then its metadata, as
/// string fields, one entry after the other.
pub proof fn lemma_room_entries_layout(rooms: Seq<RoomInfoView>)
    ensures
        room_entries_bytes(rooms) == (if rooms.len() == 0 {
            Seq::<u8>::empty()
        } else {
            room_entries_bytes(rooms.drop_last()) + string_bytes(rooms.last().id) + string_bytes(
                rooms.last().metadata,
            )
        }),
{
    if rooms.len() > 0 {
        assert(room_entries_bytes(rooms.drop_last()) + room_info_bytes(rooms.last())
            =~= room_entries_bytes(rooms.drop_last()) + string_bytes(rooms.last().id)
            + string_bytes(rooms.last().metadata));
    }
}

/// The decoder's refusals and its one leniency: no byte at all is an empty
/// packet; a first byte that names no packet type is reported as such,
/// whatever follows; a room creation whose metadata cannot be read is a
/// room creation with empty metadata.
pub proof fn lemma_decode_refusals(b: u8, rest: Seq<u8>, is_public: bool)
    ensures
        spec_from_bytes(Seq::empty()) == Err::<Packet, ProtocolFault>(ProtocolFault::EmptyPacket),
        (b == 0 || b > ERROR_PACKET) ==> spec_from_bytes(seq![b] + rest) == Err::<
            Packet,
            ProtocolFault,
        >(ProtocolFault::UnknownPacketType(b)),
        spec_read_string(rest) is Err ==> spec_from_bytes(
            seq![CREATE_ROOM] + bool_bytes(is_public) + rest,
        ) == Ok::<Packet, ProtocolFault>(Packet::CreateRoom { is_public, metadata: Seq::empty() }),
{
    assert((seq![b] + rest)[0] == b);
    assert((seq![b] + rest).skip(1) =~= rest);
    let c = seq![CREATE_ROOM] + bool_bytes(is_public) + rest;
    assert(c[0] == CREATE_ROOM);
    assert(c.skip(1) =~= bool_bytes(is_public) + rest);
    lemma_read_bool_written(is_public, rest);
}

/// Decoding the encoding of `p` gives `p` back.
pub open spec fn decodes_to_itself(p: Packet) -> bool {
    spec_from_bytes(spec_to_bytes(p)) == Ok::<Packet, ProtocolFault>(p)
}

/// The fields of a room entry fit their counts.
pub open spec fn room_fits(r: RoomInfoView) -> bool {
    string_fits(r.id) && string_fits(r.metadata)
}

/// A room list fits its count, and each entry fits its counts.
pub open spec fn room_list_fits(rooms: Seq<RoomInfoView>) -> bool {
    &&& rooms.len() <= i32::MAX
    &&& forall|i: int| 0 <= i < rooms.len() ==> room_fits(#[trigger] rooms[i])
}

/// Every count in the packet fits the `i32` it is written as: each string has
/// at most `i32::MAX` UTF-8 bytes and each room list at most `i32::MAX` entries.
pub open spec fn packet_fits(p: Packet) -> bool {
    match p {
        Packet::Authenticate { app_id, version } => string_fits(app_id) && string_fits(version),
        Packet::CreateRoom { metadata, .. } => string_fits(metadata),
        Packet::GetRooms { rooms } => room_list_fits(rooms),
        Packet::UpdateRoom { room_id, metadata } => string_fits(room_id) && string_fits(metadata),
        Packet::ReqJoin { room_id, metadata } => string_fits(room_id) && string_fits(metadata),
        Packet::JoinRes { room_id, .. } => string_fits(room_id),
        Packet::ConnectedToRoom { room_id, .. } => string_fits(room_id),
        Packet::PeerJoinAttempt { metadata, .. } => string_fits(metadata),
        Packet::Error { error_message, .. } => string_fits(error_message),
        _ => true,
    }
}

/// A room entry written and then read back is the same entry.
proof fn lemma_read_room_written(r: RoomInfoView, tail: Seq<u8>)
    requires
        room_fits(r),
    ensures
        spec_read_room(room_info_bytes(r) + tail) == Ok::<_, ProtocolFault>((r, tail)),
{
    assert(room_info_bytes(r) + tail =~= string_bytes(r.id) + (string_bytes(r.metadata) + tail));
    lemma_read_string_written(r.id, string_bytes(r.metadata) + tail);
    lemma_read_string_written(r.metadata, tail);
}

/// Room entries written one after the other read back as the same entries.
proof fn lemma_read_rooms_written(rooms: Seq<RoomInfoView>, tail: Seq<u8>)
    requires
        forall|i: int| 0 <= i < rooms.len() ==> room_fits(#[trigger] rooms[i]),
    ensures
        spec_read_rooms(room_entries_bytes(rooms) + tail, rooms.len()) == Ok::<_, ProtocolFault>(
            (rooms, tail),
        ),
    decreases rooms.len(),
{
    if rooms.len() == 0 {
        assert(room_entries_bytes(rooms) + tail =~= tail);
        assert(rooms =~= Seq::<RoomInfoView>::empty());
    } else {
        let init = rooms.drop_last();
        let last_bytes = room_info_bytes(rooms.last());
        assert(room_entries_bytes(rooms) + tail =~= room_entries_bytes(init) + (last_bytes
            + tail));
        assert forall|i: int| 0 <= i < init.len() implies room_fits(#[trigger] init[i]) by {
            assert(init[i] == rooms[i]);
        }
        lemma_read_rooms_written(init, last_bytes + tail);
        assert(room_fits(rooms[rooms.len() - 1]));
        lemma_read_room_written(rooms.last(), tail);
        assert(init.push(rooms.last()) =~= rooms);
        assert(init.len() == (rooms.len() - 1) as nat);
        assert(spec_read_rooms(room_entries_bytes(rooms) + tail, rooms.len()) == match spec_read_rooms(
            room_entries_bytes(rooms) + tail,
            init.len(),
        ) {
            Err(e) => Err(e),
            Ok((rs, rest)) => match spec_read_room(rest) {
                Err(e) => Err(e),
                Ok((r, rest2)) => Ok((rs.push(r), rest2)),
            },
        });
    }
}

/// A room list written and then read back, with any bytes after it, is the
/// same list, and the bytes after it are left.
pub proof fn lemma_read_room_list_written(rooms: Seq<RoomInfoView>, tail: Seq<u8>)
    requires
        room_list_fits(rooms),
    ensures
        spec_read_room_list(room_list_bytes(rooms) + tail) == Ok::<_, ProtocolFault>(
            (rooms, tail),
        ),
{
    let n = rooms.len() as i32;
    assert(n == rooms.len());
    assert(room_list_bytes(rooms) + tail =~= i32_bytes(n) + (room_entries_bytes(rooms) + tail));
    lemma_read_i32_written(n, room_entries_bytes(rooms) + tail);
    lemma_read_rooms_written(rooms, tail);
}

/// Two strings written one after the other read back as the same strings.
proof fn lemma_read_two_strings_written(a: Seq<char>, b: Seq<char>, tail: Seq<u8>)
    requires
        string_fits(a),
        string_fits(b),
    ensures
        spec_read_two_strings(string_bytes(a) + string_bytes(b) + tail) == Ok::<_, ProtocolFault>(
            (a, b),
        ),
{
    assert(string_bytes(a) + string_bytes(b) + tail =~= string_bytes(a) + (string_bytes(b)
        + tail));
    lemma_read_string_written(a, string_bytes(b) + tail);
    lemma_read_string_written(b, tail);
}

/// Decoding `bytes` gives `p`.
pub open spec fn decodes_as(bytes: Seq<u8>, p: Packet) -> bool {
    spec_from_bytes(bytes) == Ok::<Packet, ProtocolFault>(p)
}

/// An `Authenticate` packet, followed by any bytes, decodes to itself.
proof fn lemma_decode_authenticate(app_id: Seq<char>, version: Seq<char>, tail: Seq<u8>)
    requires
        packet_fits(Packet::Authenticate { app_id, version }),
    ensures
        decodes_as(
            spec_to_bytes(Packet::Authenticate { app_id, version }) + tail,
            Packet::Authenticate { app_id, version },
        ),
{
    let b = spec_to_bytes(Packet::Authenticate { app_id, version });
    let body = (b + tail).skip(1);
    assert(b.skip(1) + tail =~= body);
    assert(body =~= string_bytes(app_id) + string_bytes(version) + tail);
    lemma_read_two_strings_written(app_id, version, tail);
}

/// A `CreateRoom` packet, followed by any bytes, decodes to itself.
proof fn lemma_decode_create_room(is_public: bool, metadata: Seq<char>, tail: Seq<u8>)
    requires
        packet_fits(Packet::CreateRoom { is_public, metadata }),
    ensures
        decodes_as(
            spec_to_bytes(Packet::CreateRoom { is_public, metadata }) + tail,
            Packet::CreateRoom { is_public, metadata },
        ),
{
    let b = spec_to_bytes(Packet::CreateRoom { is_public, metadata });
    let body = (b + tail).skip(1);
    assert(b.skip(1) + tail =~= body);
    assert(body =~= bool_bytes(is_public) + (string_bytes(metadata) + tail));
    lemma_read_bool_written(is_public, string_bytes(metadata) + tail);
    lemma_read_string_written(metadata, tail);
}

/// A `GetRooms` packet, followed by any bytes, decodes to itself.
proof fn lemma_decode_get_rooms(rooms: Seq<RoomInfoView>, tail: Seq<u8>)
    requires
        packet_fits(Packet::GetRooms { rooms }),
    ensures
        decodes_as(
            spec_to_bytes(Packet::GetRooms { rooms }) + tail,
            Packet::GetRooms { rooms },
        ),
{
    let b = spec_to_bytes(Packet::GetRooms { rooms });
    let body = (b + tail).skip(1);
    assert(b.skip(1) + tail =~= body);
    assert(body =~= room_list_bytes(rooms) + tail);
    lemma_read_room_list_written(rooms, tail);
}

/// An `UpdateRoom` packet, followed by any bytes, decodes to itself.
proof fn lemma_decode_update_room(room_id: Seq<char>, metadata: Seq<char>, tail: Seq<u8>)
    requires
        packet_fits(Packet::UpdateRoom { room_id, metadata }),
    ensures
        decodes_as(
            spec_to_bytes(Packet::UpdateRoom { room_id, metadata }) + tail,
            Packet::UpdateRoom { room_id, metadata },
        ),
{
    let b = spec_to_bytes(Packet::UpdateRoom { room_id, metadata });
    let body = (b + tail).skip(1);
    assert(b.skip(1) + tail =~= body);
    assert(body =~= string_bytes(room_id) + string_bytes(metadata) + tail);
    lemma_read_two_strings_written(room_id, metadata, tail);
}

/// A `ReqJoin` packet, followed by any bytes, decodes to itself.
proof fn lemma_decode_req_join(room_id: Seq<char>, metadata: Seq<char>, tail: Seq<u8>)
    requires
        packet_fits(Packet::ReqJoin { room_id, metadata }),
    ensures
        decodes_as(
            spec_to_bytes(Packet::ReqJoin { room_id, metadata }) + tail,
            Packet::ReqJoin { room_id, metadata },
        ),
{
    let b = spec_to_bytes(Packet::ReqJoin { room_id, metadata });
    let body = (b + tail).skip(1);
    assert(b.skip(1) + tail =~= body);
    assert(body =~= string_bytes(room_id) + string_bytes(metadata) + tail);
    lemma_read_two_strings_written(room_id, metadata, tail);
}

/// The fields of a `JoinRes` packet, followed by any bytes, read back as
/// that packet.
proof fn lemma_parse_join_res(target_id: u64, room_id: Seq<char>, allowed: bool, tail: Seq<u8>)
    requires
        string_fits(room_id),
    ensures
        spec_parse_body(JOIN_RES, u64_bytes(target_id) + (string_bytes(room_id) + (bool_bytes(
            allowed,
        ) + tail))) == Ok::<Packet, ProtocolFault>(Packet::JoinRes { target_id, room_id, allowed }),
{
    let after_bool = bool_bytes(allowed) + tail;
    let after_id = string_bytes(room_id) + after_bool;
    lemma_read_u64_written(target_id, after_id);
    lemma_read_string_written(room_id, after_bool);
    lemma_read_bool_written(allowed, tail);
}

/// A `JoinRes` packet, followed by any bytes, decodes to itself.
proof fn lemma_decode_join_res(
    target_id: u64,
    room_id: Seq<char>,
    allowed: bool,
    tail: Seq<u8>,
)
    requires
        packet_fits(Packet::JoinRes { target_id, room_id, allowed }),
    ensures
        decodes_as(
            spec_to_bytes(Packet::JoinRes { target_id, room_id, allowed }) + tail,
            Packet::JoinRes { target_id, room_id, allowed },
        ),
{
    let b = spec_to_bytes(Packet::JoinRes { target_id, room_id, allowed });
    let body = (b + tail).skip(1);
    assert(body =~= u64_bytes(target_id) + (string_bytes(room_id) + (bool_bytes(allowed)
        + tail)));
    assert((b + tail)[0] == JOIN_RES);
    lemma_parse_join_res(target_id, room_id, allowed, tail);
}

/// A `ConnectedToRoom` packet, followed by any bytes, decodes to itself.
proof fn lemma_decode_connected_to_room(room_id: Seq<char>, peer_id: i32, tail: Seq<u8>)
    requires
        packet_fits(Packet::ConnectedToRoom { room_id, peer_id }),
    ensures
        decodes_as(
            spec_to_bytes(Packet::ConnectedToRoom { room_id, peer_id }) + tail,
            Packet::ConnectedToRoom { room_id, peer_id },
        ),
{
    let b = spec_to_bytes(Packet::ConnectedToRoom { room_id, peer_id });
    let body = (b + tail).skip(1);
    assert(b.skip(1) + tail =~= body);
    assert(body =~= string_bytes(room_id) + (i32_bytes(peer_id) + tail));
    lemma_read_string_written(room_id, i32_bytes(peer_id) + tail);
    lemma_read_i32_written(peer_id, tail);
}

/// A `PeerJoinAttempt` packet, followed by any bytes, decodes to itself.
proof fn lemma_decode_peer_join_attempt(target_id: u64, metadata: Seq<char>, tail: Seq<u8>)
    requires
        packet_fits(Packet::PeerJoinAttempt { target_id, metadata }),
    ensures
        decodes_as(
            spec_to_bytes(Packet::PeerJoinAttempt { target_id, metadata }) + tail,
            Packet::PeerJoinAttempt { target_id, metadata },
        ),
{
    let b = spec_to_bytes(Packet::PeerJoinAttempt { target_id, metadata });
    let body = (b + tail).skip(1);
    assert(b.skip(1) + tail =~= body);
    assert(body =~= u64_bytes(target_id) + (string_bytes(metadata) + tail));
    lemma_read_u64_written(target_id, string_bytes(metadata) + tail);
    lemma_read_string_written(metadata, tail);
}

/// A `PeerJoinedRoom` packet, followed by any bytes, decodes to itself.
proof fn lemma_decode_peer_joined_room(peer_id: i32, tail: Seq<u8>)
    requires
        packet_fits(Packet::PeerJoinedRoom { peer_id }),
    ensures
        decodes_as(
            spec_to_bytes(Packet::PeerJoinedRoom { peer_id }) + tail,
            Packet::PeerJoinedRoom { peer_id },
        ),
{
    let b = spec_to_bytes(Packet::PeerJoinedRoom { peer_id });
    let body = (b + tail).skip(1);
    assert(b.skip(1) + tail =~= body);
    assert(body =~= i32_bytes(peer_id) + tail);
    lemma_read_i32_written(peer_id, tail);
}

/// A `PeerLeftRoom` packet, followed by any bytes, decodes to itself.
proof fn lemma_decode_peer_left_room(peer_id: i32, tail: Seq<u8>)
    requires
        packet_fits(Packet::PeerLeftRoom { peer_id }),
    ensures
        decodes_as(
            spec_to_bytes(Packet::PeerLeftRoom { peer_id }) + tail,
            Packet::PeerLeftRoom { peer_id },
        ),
{
    let b = spec_to_bytes(Packet::PeerLeftRoom { peer_id });
    let body = (b + tail).skip(1);
    assert(b.skip(1) + tail =~= body);
    assert(body =~= i32_bytes(peer_id) + tail);
    lemma_read_i32_written(peer_id, tail);
}

/// An `Error` packet, followed by any bytes, decodes to itself.
proof fn lemma_decode_error(error_code: i32, error_message: Seq<char>, tail: Seq<u8>)
    requires
        packet_fits(Packet::Error { error_code, error_message }),
    ensures
        decodes_as(
            spec_to_bytes(Packet::Error { error_code, error_message }) + tail,
            Packet::Error { error_code, error_message },
        ),
{
    let b = spec_to_bytes(Packet::Error { error_code, error_message });
    let body = (b + tail).skip(1);
    assert(b.skip(1) + tail =~= body);
    assert(body =~= i32_bytes(error_code) + (string_bytes(error_message) + tail));
    lemma_read_i32_written(error_code, string_bytes(error_message) + tail);
    lemma_read_string_written(error_message, tail);
}

/// Decoding the encoding of a packet, followed by any bytes, gives the
/// packet back: bytes after the last field are ignored. Game data is the
/// exception, as it runs to the end of the packet.
pub proof fn lemma_decode_encode_with_tail(p: Packet, tail: Seq<u8>)
    requires
        packet_fits(p),
        !(p is GameData),
    ensures
        decodes_as(spec_to_bytes(p) + tail, p),
{
    match p {
        Packet::Authenticate { app_id, version } => {
            lemma_decode_authenticate(app_id, version, tail)
        },
        Packet::CreateRoom { is_public, metadata } => {
            lemma_decode_create_room(is_public, metadata, tail)
        },
        Packet::GetRooms { rooms } => lemma_decode_get_rooms(rooms, tail),
        Packet::UpdateRoom { room_id, metadata } => {
            lemma_decode_update_room(room_id, metadata, tail)
        },
        Packet::ReqJoin { room_id, metadata } => lemma_decode_req_join(room_id, metadata, tail),
        Packet::JoinRes { target_id, room_id, allowed } => {
            lemma_decode_join_res(target_id, room_id, allowed, tail)
        },
        Packet::ConnectedToRoom { room_id, peer_id } => {
            lemma_decode_connected_to_room(room_id, peer_id, tail)
        },
        Packet::PeerJoinAttempt { target_id, metadata } => {
            lemma_decode_peer_join_attempt(target_id, metadata, tail)
        },
        Packet::PeerJoinedRoom { peer_id } => lemma_decode_peer_joined_room(peer_id, tail),
        Packet::PeerLeftRoom { peer_id } => lemma_decode_peer_left_room(peer_id, tail),
        Packet::Error { error_code, error_message } => {
            lemma_decode_error(error_code, error_message, tail)
        },
        _ => {},
    }
}

/// Decoding the bytes that encoding a packet gives yields that packet again,
/// for every packet whose strings and room lists fit their `i32` counts.
pub proof fn lemma_decode_encode(p: Packet)
    requires
        packet_fits(p),
    ensures
        decodes_to_itself(p),
{
    match p {
        Packet::GameData { from_peer, data } => {
            let body = spec_to_bytes(p).skip(1);
            assert(body =~= i32_bytes(from_peer) + data);
            lemma_read_i32_written(from_peer, data);
        },
        _ => {
            lemma_decode_encode_with_tail(p, Seq::empty());
            assert(spec_to_bytes(p) + Seq::<u8>::empty() =~= spec_to_bytes(p));
        },
    }
}

} // verus!
