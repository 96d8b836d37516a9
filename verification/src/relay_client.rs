//! What the game client decides: which packets it sends for each request of
//! the game, when it sends a keep-alive, and which events it reports for the
//! packets it receives. Moving bytes through the socket is the caller's part.

use vstd::prelude::*;

use crate::packet::Packet;
use crate::packet::PacketType;
use crate::packet::RoomInfo;
use crate::packet::RoomInfoView;
use crate::packet::rooms_view;
use crate::packet::spec_from_bytes;
use crate::packet::spec_to_bytes;
use crate::packet::lemma_decode_encode;
use crate::packet::packet_fits;
use crate::error::ProtocolFault;
use crate::transport::Channel;
use crate::transport::ClientEvent;
use crate::transport::TransportError;

verus! {

/// Nanoseconds between two keep-alives.
pub const KEEPALIVE_NANOS: u128 = 5000000000;

/// The longest time a `std::time::Duration` holds, in nanoseconds.
pub const MAX_DURATION_NANOS: u128 = 18446744073709551615999999999;

/// Errors of the relay client.
#[derive(Debug)]
pub enum RelayClientError {
    /// No transport was given to the client.
    TransportNotInitialized,
    /// The transport failed to send.
    SendPacketError(TransportError),
    /// The server sent a packet the client does not expect.
    InvalidPacketType,
    /// The server sent bytes that are no packet.
    PacketParsingError,
}

/// Why the client rejected what the server sent.
pub enum ClientFault {
    InvalidPacketType,
    PacketParsingError,
}

/// The client's standing with the server.
#[derive(Debug, Clone, Copy, PartialEq, Eq, Structural)]
pub enum ClientPhase {
    Connecting,
    Connected,
    Authenticated,
}

/// What the client reports to the game.
#[derive(Debug)]
pub enum RelayEvent {
    ConnectedToServer,
    Authenticated,
    RoomJoined { room_id: String, peer_id: i32 },
    RoomsReceived { rooms: Vec<RoomInfo> },
    PeerJoinAttempt { client_id: u64, metadata: String },
    PeerJoinedRoom { peer_id: i32 },
    PeerLeftRoom { peer_id: i32 },
    GameDataReceived { data: Vec<u8>, from_peer: i32, channel: Channel },
    ForceDisconnect,
    Error { error_code: i32, error_message: String },
}

/// A [`RelayEvent`] as mathematics.
pub enum RelayEventView {
    ConnectedToServer,
    Authenticated,
    RoomJoined { room_id: Seq<char>, peer_id: i32 },
    RoomsReceived { rooms: Seq<RoomInfoView> },
    PeerJoinAttempt { client_id: u64, metadata: Seq<char> },
    PeerJoinedRoom { peer_id: i32 },
    PeerLeftRoom { peer_id: i32 },
    GameDataReceived { data: Seq<u8>, from_peer: i32, channel: Channel },
    ForceDisconnect,
    Error { error_code: i32, error_message: Seq<char> },
}

impl View for RelayEvent {
    type V = RelayEventView;

    open spec fn view(&self) -> RelayEventView {
        match self {
            RelayEvent::ConnectedToServer => RelayEventView::ConnectedToServer,
            RelayEvent::Authenticated => RelayEventView::Authenticated,
            RelayEvent::RoomJoined { room_id, peer_id } => RelayEventView::RoomJoined {
                room_id: room_id@,
                peer_id: *peer_id,
            },
            RelayEvent::RoomsReceived { rooms } => RelayEventView::RoomsReceived {
                rooms: rooms_view(rooms@),
            },
            RelayEvent::PeerJoinAttempt { client_id, metadata } => RelayEventView::PeerJoinAttempt {
                client_id: *client_id,
                metadata: metadata@,
            },
            RelayEvent::PeerJoinedRoom { peer_id } => RelayEventView::PeerJoinedRoom {
                peer_id: *peer_id,
            },
            RelayEvent::PeerLeftRoom { peer_id } => RelayEventView::PeerLeftRoom {
                peer_id: *peer_id,
            },
            RelayEvent::GameDataReceived { data, from_peer, channel } =>
                RelayEventView::GameDataReceived {
                data: data@,
                from_peer: *from_peer,
                channel: *channel,
            },
            RelayEvent::ForceDisconnect => RelayEventView::ForceDisconnect,
            RelayEvent::Error { error_code, error_message } => RelayEventView::Error {
                error_code: *error_code,
                error_message: error_message@,
            },
        }
    }
}

/// The views of a list of events.
pub open spec fn events_view(v: Seq<RelayEvent>) -> Seq<RelayEventView> {
    v.map_values(|e: RelayEvent| e@)
}

/// The event a packet from the server stands for, when the client accepts
/// that packet.
pub open spec fn packet_event(p: Packet, channel: Channel) -> Option<RelayEventView> {
    match p {
        Packet::ClientAuthenticated => Some(RelayEventView::Authenticated),
        Packet::ConnectedToRoom { room_id, peer_id } => Some(
            RelayEventView::RoomJoined { room_id, peer_id },
        ),
        Packet::GetRooms { rooms } => Some(RelayEventView::RoomsReceived { rooms }),
        Packet::PeerJoinAttempt { target_id, metadata } => Some(
            RelayEventView::PeerJoinAttempt { client_id: target_id, metadata },
        ),
        Packet::PeerJoinedRoom { peer_id } => Some(RelayEventView::PeerJoinedRoom { peer_id }),
        Packet::PeerLeftRoom { peer_id } => Some(RelayEventView::PeerLeftRoom { peer_id }),
        Packet::GameData { from_peer, data } => Some(
            RelayEventView::GameDataReceived { data, from_peer, channel },
        ),
        Packet::ForceDisconnect => Some(RelayEventView::ForceDisconnect),
        Packet::Error { error_code, error_message } => Some(
            RelayEventView::Error { error_code, error_message },
        ),
        _ => None,
    }
}

/// What receiving the bytes `data` gives: the event, or why it is rejected.
pub open spec fn receive_outcome(data: Seq<u8>, channel: Channel) -> Result<
    RelayEventView,
    ClientFault,
> {
    match spec_from_bytes(data) {
        Err(_) => Err(ClientFault::PacketParsingError),
        Ok(p) => match packet_event(p, channel) {
            None => Err(ClientFault::InvalidPacketType),
            Some(ev) => Ok(ev),
        },
    }
}

/// The phase after an accepted event: authentication is the only event
/// that changes it.
pub open spec fn phase_after(phase: ClientPhase, ev: RelayEventView) -> ClientPhase {
    if ev is Authenticated {
        ClientPhase::Authenticated
    } else {
        phase
    }
}

/// Handling the received payloads in order, from phase `phase`: the phase
/// reached, and the events, or the first rejection.
pub open spec fn process_payloads(phase: ClientPhase, payloads: Seq<(Seq<u8>, Channel)>) -> (
    ClientPhase,
    Result<Seq<RelayEventView>, ClientFault>,
)
    decreases payloads.len(),
{
    if payloads.len() == 0 {
        (phase, Ok(Seq::empty()))
    } else {
        let (ph, r) = process_payloads(phase, payloads.drop_last());
        match r {
            Err(e) => (ph, Err(e)),
            Ok(evs) => match receive_outcome(payloads.last().0, payloads.last().1) {
                Err(e) => (ph, Err(e)),
                Ok(ev) => (phase_after(ph, ev), Ok(evs.push(ev))),
            },
        }
    }
}

/// Once handling a prefix of the payloads fails, handling a longer prefix
/// fails in the same way, in the same phase.
proof fn lemma_process_failure_persists(
    phase: ClientPhase,
    payloads: Seq<(Seq<u8>, Channel)>,
    k: nat,
)
    requires
        k <= payloads.len(),
        process_payloads(phase, payloads.take(k as int)).1 is Err,
    ensures
        process_payloads(phase, payloads) == process_payloads(phase, payloads.take(k as int)),
    decreases payloads.len() - k,
{
    if k < payloads.len() {
        let next = payloads.take((k + 1) as int);
        assert(next.drop_last() =~= payloads.take(k as int));
        lemma_process_failure_persists(phase, payloads, (k + 1) as nat);
    } else {
        assert(payloads.take(k as int) =~= payloads);
    }
}

/// What the client makes of one packet the server sends it, encoded as the
/// server encodes it: each kind the server sends is reported as the event of
/// that same kind, carrying the packet's own fields (game data also the
/// channel it came on); only authentication moves the client on, to the
/// authenticated phase; the kinds that only clients send are rejected.
pub proof fn lemma_receive_packet(phase: ClientPhase, p: Packet, ch: Channel)
    requires
        packet_fits(p),
    ensures
        process_payloads(phase, seq![(spec_to_bytes(p), ch)]) == (match p {
            Packet::ClientAuthenticated => (
                ClientPhase::Authenticated,
                Ok(seq![RelayEventView::Authenticated]),
            ),
            Packet::ConnectedToRoom { room_id, peer_id } => (
                phase,
                Ok(seq![RelayEventView::RoomJoined { room_id, peer_id }]),
            ),
            Packet::GetRooms { rooms } => (phase, Ok(seq![RelayEventView::RoomsReceived { rooms }])),
            Packet::PeerJoinAttempt { target_id, metadata } => (
                phase,
                Ok(seq![RelayEventView::PeerJoinAttempt { client_id: target_id, metadata }]),
            ),
            Packet::PeerJoinedRoom { peer_id } => (
                phase,
                Ok(seq![RelayEventView::PeerJoinedRoom { peer_id }]),
            ),
            Packet::PeerLeftRoom { peer_id } => (
                phase,
                Ok(seq![RelayEventView::PeerLeftRoom { peer_id }]),
            ),
            Packet::GameData { from_peer, data } => (
                phase,
                Ok(seq![RelayEventView::GameDataReceived { data, from_peer, channel: ch }]),
            ),
            Packet::ForceDisconnect => (phase, Ok(seq![RelayEventView::ForceDisconnect])),
            Packet::Error { error_code, error_message } => (
                phase,
                Ok(seq![RelayEventView::Error { error_code, error_message }]),
            ),
            _ => (phase, Err(ClientFault::InvalidPacketType)),
        }),
{
    lemma_decode_encode(p);
    let payloads = seq![(spec_to_bytes(p), ch)];
    assert(payloads.drop_last() =~= Seq::<(Seq<u8>, Channel)>::empty());
    assert(payloads.last() == (spec_to_bytes(p), ch));
    assert(process_payloads(phase, payloads.drop_last()) == (
        phase,
        Ok::<Seq<RelayEventView>, ClientFault>(Seq::empty()),
    ));
    assert(spec_from_bytes(spec_to_bytes(p)) == Ok::<Packet, ProtocolFault>(p));
    let ev = packet_event(p, ch);
    match ev {
        Some(e) => {
            assert(receive_outcome(spec_to_bytes(p), ch) == Ok::<RelayEventView, ClientFault>(e));
            assert(Seq::<RelayEventView>::empty().push(e) =~= seq![e]);
            assert(process_payloads(phase, payloads) == (
                phase_after(phase, e),
                Ok::<Seq<RelayEventView>, ClientFault>(seq![e]),
            ));
        },
        None => {
            assert(receive_outcome(spec_to_bytes(p), ch) == Err::<RelayEventView, ClientFault>(
                ClientFault::InvalidPacketType,
            ));
        },
    }
}

/// The payloads the transport handed up.
pub open spec fn payloads_of(events: Seq<ClientEvent>) -> Seq<(Seq<u8>, Channel)> {
    events.map_values(
        |e: ClientEvent|
            match e {
                ClientEvent::PacketReceived { data, channel } => (data@, channel),
            },
    )
}

/// The client's side of the relay: whether a transport is attached, its
/// standing with the server, and the time since the last keep-alive.
pub struct RelayClient {
    has_transport: bool,
    client_state: ClientPhase,
    last_update: u128,
}

/// A [`RelayClient`] as mathematics.
pub struct RelayClientView {
    pub has_transport: bool,
    pub phase: ClientPhase,
    /// Nanoseconds since the last keep-alive.
    pub since_keepalive: u128,
}

impl View for RelayClient {
    type V = RelayClientView;

    closed spec fn view(&self) -> RelayClientView {
        RelayClientView {
            has_transport: self.has_transport,
            phase: self.client_state,
            since_keepalive: self.last_update,
        }
    }
}

/// The bytes a request sends and how, or the error when no transport is attached.
pub open spec fn request_outcome(
    client: RelayClientView,
    res: Result<(Vec<u8>, Channel), RelayClientError>,
    p: Packet,
    channel: Channel,
) -> bool {
    if client.has_transport {
        res matches Ok((bytes, ch)) && bytes@ == spec_to_bytes(p) && ch == channel
    } else {
        res matches Err(RelayClientError::TransportNotInitialized)
    }
}

impl RelayClient {
    /// A client with no transport, still connecting.
    pub fn new() -> (res: Self)
        ensures
            res@ == (RelayClientView {
                has_transport: false,
                phase: ClientPhase::Connecting,
                since_keepalive: 0,
            }),
    {
        RelayClient { has_transport: false, client_state: ClientPhase::Connecting, last_update: 0 }
    }

    /// A transport is attached: the client starts connecting again.
    pub fn connect(&mut self)
        ensures
            final(self)@ == (RelayClientView {
                has_transport: true,
                phase: ClientPhase::Connecting,
                ..old(self)@
            }),
    {
        self.client_state = ClientPhase::Connecting;
        self.has_transport = true;
    }

    /// The first part of a frame: `delta` nanoseconds have passed. Tells
    /// whether a keep-alive is due now, which restarts the count.
    pub fn update(&mut self, delta: u128) -> (res: Result<bool, RelayClientError>)
        requires
            old(self)@.has_transport ==> old(self)@.since_keepalive + delta <= MAX_DURATION_NANOS,
        ensures
            !old(self)@.has_transport ==> (res matches Err(
                RelayClientError::TransportNotInitialized,
            ) && final(self)@ == old(self)@),
            old(self)@.has_transport ==> {
                let elapsed = old(self)@.since_keepalive + delta;
                &&& res == Ok::<bool, RelayClientError>(elapsed >= KEEPALIVE_NANOS)
                &&& final(self)@ == (RelayClientView {
                    since_keepalive: if elapsed >= KEEPALIVE_NANOS {
                        0
                    } else {
                        elapsed as u128
                    },
                    ..old(self)@
                })
            },
    {
        if !self.has_transport {
            return Err(RelayClientError::TransportNotInitialized);
        }
        self.last_update = self.last_update + delta;
        if self.last_update >= KEEPALIVE_NANOS {
            self.last_update = 0;
            Ok(true)
        } else {
            Ok(false)
        }
    }

    /// The second part of a frame: reports the connection once the
    /// transport is up, then handles the payloads received, in order. The
    /// first payload rejected stops the handling and is reported as the error.
    pub fn finish_update(&mut self, transport_connected: bool, events: Vec<ClientEvent>) -> (res:
        Result<Vec<RelayEvent>, RelayClientError>)
        ensures
            final(self)@.has_transport == old(self)@.has_transport,
            final(self)@.since_keepalive == old(self)@.since_keepalive,
            ({
                let connects = old(self)@.phase == ClientPhase::Connecting && old(self)@.has_transport
                    && transport_connected;
                let start = if connects {
                    ClientPhase::Connected
                } else {
                    old(self)@.phase
                };
                let first: Seq<RelayEventView> = if connects {
                    seq![RelayEventView::ConnectedToServer]
                } else {
                    Seq::empty()
                };
                let (phase, outcome) = process_payloads(start, payloads_of(events@));
                &&& final(self)@.phase == phase
                &&& match outcome {
                    Ok(evs) => res matches Ok(v) && events_view(v@) == first + evs,
                    Err(ClientFault::InvalidPacketType) => res matches Err(
                        RelayClientError::InvalidPacketType,
                    ),
                    Err(ClientFault::PacketParsingError) => res matches Err(
                        RelayClientError::PacketParsingError,
                    ),
                }
            }),
    {
        let mut relay_events: Vec<RelayEvent> = Vec::new();
        if let Some(event) = self.update_state(transport_connected) {
            relay_events.push(event);
        }
        let ghost first = events_view(relay_events@);
        let ghost start = self@.phase;
        let ghost payloads = payloads_of(events@);
        let mut i: usize = 0;
        proof {
            assert(events_view(relay_events@).skip(first.len() as int) =~= Seq::<
                RelayEventView,
            >::empty());
            assert(events_view(relay_events@).take(first.len() as int) =~= first);
            assert(payloads.take(0) =~= Seq::<(Seq<u8>, Channel)>::empty());
        }
        while i < events.len()
            invariant
                i <= events@.len(),
                payloads == payloads_of(events@),
                start == if old(self)@.phase == ClientPhase::Connecting && old(self)@.has_transport
                    && transport_connected {
                    ClientPhase::Connected
                } else {
                    old(self)@.phase
                },
                first == if old(self)@.phase == ClientPhase::Connecting && old(self)@.has_transport
                    && transport_connected {
                    seq![RelayEventView::ConnectedToServer]
                } else {
                    Seq::<RelayEventView>::empty()
                },
                self@.has_transport == old(self)@.has_transport,
                self@.since_keepalive == old(self)@.since_keepalive,
                process_payloads(start, payloads.take(i as int)) == (
                    self@.phase,
                    Ok::<Seq<RelayEventView>, ClientFault>(
                        events_view(relay_events@).skip(first.len() as int),
                    ),
                ),
                events_view(relay_events@).take(first.len() as int) == first,
                events_view(relay_events@).len() >= first.len(),
            decreases events@.len() - i,
        {
            let ghost before = events_view(relay_events@);
            let ghost phase_before = self@.phase;
            proof {
                assert(payloads.take(i + 1).drop_last() =~= payloads.take(i as int));
                assert(payloads.take(i + 1).last() == payloads[i as int]);
            }
            match &events[i] {
                ClientEvent::PacketReceived { data, channel } => {
                    match self.handle_packet(data.as_slice(), *channel) {
                        Ok(packet_events) => {
                            let mut packet_events = packet_events;
                            let ghost ev = receive_outcome(data@, *channel)->Ok_0;
                            let ghost pe = packet_events@;
                            let ghost old_rel = relay_events@;
                            relay_events.append(&mut packet_events);
                            proof {
                                assert(relay_events@ =~= old_rel + pe);
                                assert(events_view(old_rel + pe) =~= events_view(old_rel)
                                    + events_view(pe));
                                assert(events_view(relay_events@) =~= before.push(ev));
                                assert(events_view(relay_events@).skip(first.len() as int)
                                    =~= before.skip(first.len() as int).push(ev));
                                assert(events_view(relay_events@).take(first.len() as int)
                                    =~= before.take(first.len() as int));
                            }
                        },
                        Err(e) => {
                            proof {
                                assert(payloads[i as int] == (data@, *channel));
                                assert(process_payloads(start, payloads.take(i + 1)) == (
                                    self@.phase,
                                    Err::<Seq<RelayEventView>, ClientFault>(
                                        receive_outcome(data@, *channel)->Err_0,
                                    ),
                                ));
                                lemma_process_failure_persists(
                                    start,
                                    payloads,
                                    (i + 1) as nat,
                                );
                                assert(payloads.take(payloads.len() as int) =~= payloads);
                            }
                            return Err(e);
                        },
                    }
                },
            }
            i = i + 1;
        }
        proof {
            assert(payloads.take(events@.len() as int) =~= payloads);
            assert(events_view(relay_events@) =~= first + events_view(relay_events@).skip(
                first.len() as int,
            ));
        }
        Ok(relay_events)
    }

    /// Reports the connection once the transport is up while connecting.
    fn update_state(&mut self, transport_connected: bool) -> (res: Option<RelayEvent>)
        ensures
            final(self)@.has_transport == old(self)@.has_transport,
            final(self)@.since_keepalive == old(self)@.since_keepalive,
            if old(self)@.phase == ClientPhase::Connecting && old(self)@.has_transport
                && transport_connected {
                final(self)@.phase == ClientPhase::Connected && (res matches Some(e) && e@
                    == RelayEventView::ConnectedToServer)
            } else {
                final(self)@.phase == old(self)@.phase && res is None
            },
    {
        if self.client_state == ClientPhase::Connecting && self.is_connected(transport_connected) {
            self.client_state = ClientPhase::Connected;
            return Some(RelayEvent::ConnectedToServer);
        }
        None
    }

    /// Handles one payload from the server: decodes it and turns it into the
    /// event it stands for; authentication also moves the client on.
    fn handle_packet(&mut self, data: &[u8], channel: Channel) -> (res: Result<
        Vec<RelayEvent>,
        RelayClientError,
    >)
        ensures
            final(self)@.has_transport == old(self)@.has_transport,
            final(self)@.since_keepalive == old(self)@.since_keepalive,
            match receive_outcome(data@, channel) {
                Ok(ev) => {
                    &&& res matches Ok(v) && events_view(v@) == seq![ev]
                    &&& final(self)@.phase == phase_after(old(self)@.phase, ev)
                },
                Err(ClientFault::InvalidPacketType) => {
                    &&& res matches Err(RelayClientError::InvalidPacketType)
                    &&& final(self)@.phase == old(self)@.phase
                },
                Err(ClientFault::PacketParsingError) => {
                    &&& res matches Err(RelayClientError::PacketParsingError)
                    &&& final(self)@.phase == old(self)@.phase
                },
            },
    {
        let packet = match PacketType::from_bytes(data) {
            Ok(p) => p,
            Err(_) => return Err(RelayClientError::PacketParsingError),
        };
        let event = match packet {
            PacketType::ClientAuthenticated => {
                self.client_state = ClientPhase::Authenticated;
                RelayEvent::Authenticated
            },
            PacketType::ConnectedToRoom { room_id, peer_id } => RelayEvent::RoomJoined {
                room_id,
                peer_id,
            },
            PacketType::GetRooms { rooms } => RelayEvent::RoomsReceived { rooms },
            PacketType::PeerJoinAttempt { target_id, metadata } => RelayEvent::PeerJoinAttempt {
                client_id: target_id,
                metadata,
            },
            PacketType::PeerJoinedRoom { peer_id } => RelayEvent::PeerJoinedRoom { peer_id },
            PacketType::PeerLeftRoom { peer_id } => RelayEvent::PeerLeftRoom { peer_id },
            PacketType::GameData { from_peer, data } => RelayEvent::GameDataReceived {
                data,
                from_peer,
                channel,
            },
            PacketType::ForceDisconnect => RelayEvent::ForceDisconnect,
            PacketType::Error { error_code, error_message } => RelayEvent::Error {
                error_code,
                error_message,
            },
            _ => {
                return Err(RelayClientError::InvalidPacketType);
            },
        };
        let mut events: Vec<RelayEvent> = Vec::new();
        events.push(event);
        proof {
            assert(events_view(events@) =~= seq![events@[0]@]);
        }
        Ok(events)
    }

    /// The bytes of `packet` and the channel to send them on, once a
    /// transport is attached.
    fn send_packet(&self, packet: PacketType, channel: Channel) -> (res: Result<
        (Vec<u8>, Channel),
        RelayClientError,
    >)
        ensures
            request_outcome(self@, res, packet@, channel),
    {
        if !self.has_transport {
            return Err(RelayClientError::TransportNotInitialized);
        }
        Ok((packet.to_bytes(), channel))
    }

    /// Asks to authenticate for application `app_id`, speaking protocol
    /// version `version`.
    pub fn req_auth(&self, app_id: String, version: &str) -> (res: Result<
        (Vec<u8>, Channel),
        RelayClientError,
    >)
        ensures
            request_outcome(
                self@,
                res,
                Packet::Authenticate { app_id: app_id@, version: version@ },
                Channel::Reliable,
            ),
    {
        self.send_packet(
            PacketType::Authenticate { app_id, version: version.to_owned() },
            Channel::Reliable,
        )
    }

    /// Asks to create a room.
    pub fn req_create_room(&self, is_public: bool, metadata: String) -> (res: Result<
        (Vec<u8>, Channel),
        RelayClientError,
    >)
        ensures
            request_outcome(
                self@,
                res,
                Packet::CreateRoom { is_public, metadata: metadata@ },
                Channel::Reliable,
            ),
    {
        self.send_packet(PacketType::CreateRoom { is_public, metadata }, Channel::Reliable)
    }

    /// Asks for the public rooms.
    pub fn req_rooms(&self) -> (res: Result<(Vec<u8>, Channel), RelayClientError>)
        ensures
            request_outcome(self@, res, Packet::ReqRooms, Channel::Reliable),
    {
        self.send_packet(PacketType::ReqRooms, Channel::Reliable)
    }

    /// Asks to join the room with join code `room_id`.
    pub fn req_join_room(&self, room_id: String, metadata: String) -> (res: Result<
        (Vec<u8>, Channel),
        RelayClientError,
    >)
        ensures
            request_outcome(
                self@,
                res,
                Packet::ReqJoin { room_id: room_id@, metadata: metadata@ },
                Channel::Reliable,
            ),
    {
        self.send_packet(PacketType::ReqJoin { room_id, metadata }, Channel::Reliable)
    }

    /// Asks to change the metadata of the room the client is in.
    pub fn req_update_room(&self, room_id: &str, metadata: &str) -> (res: Result<
        (Vec<u8>, Channel),
        RelayClientError,
    >)
        ensures
            request_outcome(
                self@,
                res,
                Packet::UpdateRoom { room_id: room_id@, metadata: metadata@ },
                Channel::Reliable,
            ),
    {
        self.send_packet(
            PacketType::UpdateRoom { room_id: room_id.to_owned(), metadata: metadata.to_owned() },
            Channel::Reliable,
        )
    }

    /// Answers the join request of client `target_id`.
    pub fn send_join_response(&self, room_id: String, target_id: u64, allowed: bool) -> (res:
        Result<(Vec<u8>, Channel), RelayClientError>)
        ensures
            request_outcome(
                self@,
                res,
                Packet::JoinRes { target_id, room_id: room_id@, allowed },
                Channel::Reliable,
            ),
    {
        self.send_packet(PacketType::JoinRes { allowed, room_id, target_id }, Channel::Reliable)
    }

    /// Sends game data to peer `peer_id` of the room, on `channel`.
    pub fn send_game_data(&self, peer_id: i32, data: Vec<u8>, channel: Channel) -> (res: Result<
        (Vec<u8>, Channel),
        RelayClientError,
    >)
        ensures
            request_outcome(
                self@,
                res,
                Packet::GameData { from_peer: peer_id, data: data@ },
                channel,
            ),
    {
        self.send_packet(PacketType::GameData { from_peer: peer_id, data }, channel)
    }

    /// Connected: a transport is attached and reports itself connected.
    pub fn is_connected(&self, transport_connected: bool) -> (res: bool)
        ensures
            res == (self@.has_transport && transport_connected),
    {
        self.has_transport && transport_connected
    }
}

} // verus!
