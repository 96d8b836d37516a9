//! What the UDP transports hand to the relay logic, and the errors they report.

use vstd::prelude::*;

use vstd::slice::slice_to_vec;

use crate::packet::spec_from_bytes;

verus! {

/// `std::io::Error`, the error of socket operations.
#[verifier::external_type_specification]
#[verifier::external_body]
pub struct ExIoError(std::io::Error);

/// `std::time::SystemTimeError`, reported when the clock went backwards.
#[verifier::external_type_specification]
#[verifier::external_body]
pub struct ExSystemTimeError(std::time::SystemTimeError);

/// How a payload travels: resent until acknowledged, in order, or sent once.
#[derive(Debug, Clone, Copy, PartialEq, Eq, Structural)]
pub enum Channel {
    Reliable,
    Unreliable,
}

/// What the client transport hands up: a payload received from the server.
#[derive(Debug)]
pub enum ClientEvent {
    PacketReceived { data: Vec<u8>, channel: Channel },
}

/// Errors of the client transport.
#[derive(Debug)]
pub enum TransportError {
    /// The UDP socket could not be bound.
    BindError(std::io::Error),
    /// The clock may have gone backwards.
    ClockError(std::time::SystemTimeError),
}

/// Errors of the server's UDP interface.
#[derive(Debug)]
pub enum UdpError {
    /// The UDP socket could not be bound.
    BindError(std::io::Error),
    /// A packet could not be sent.
    SendError(std::io::Error),
    /// A packet could not be received.
    RecvError(std::io::Error),
    /// The clock may have gone backwards.
    ClockError(std::time::SystemTimeError),
    /// The server's UDP endpoint could not be created.
    NetcodeCreationFailed(std::io::Error),
}

/// The byte a keep-alive carries.
pub const KEEPALIVE_BYTE: u8 = 3;

/// The payload the client sends, unreliably, to keep its session alive.
pub fn keepalive_payload() -> (res: Vec<u8>)
    ensures
        res@ == seq![KEEPALIVE_BYTE],
{
    let mut v: Vec<u8> = Vec::new();
    v.push(KEEPALIVE_BYTE);
    v
}

/// Whether an unreliable payload the server receives is a keep-alive, which
/// it drops rather than hand on as a packet.
pub fn is_keepalive(payload: &[u8]) -> (res: bool)
    ensures
        res == (payload@ == seq![KEEPALIVE_BYTE]),
{
    let r = payload.len() == 1 && payload[0] == KEEPALIVE_BYTE;
    proof {
        if payload@.len() == 1 && payload@[0] == KEEPALIVE_BYTE {
            assert(payload@ =~= seq![KEEPALIVE_BYTE]);
        }
    }
    r
}

/// The keep-alive payload is no packet, so dropping it loses none: it is a
/// room-creation type byte without the fields that must follow.
pub proof fn lemma_keepalive_is_no_packet()
    ensures
        spec_from_bytes(seq![KEEPALIVE_BYTE]) is Err,
{
    let b = seq![KEEPALIVE_BYTE];
    assert(b.skip(1) =~= Seq::<u8>::empty());
}

// ---------------------------------------------------------------------------
// What a received datagram gives
// ---------------------------------------------------------------------------

/// What a session's reliability layer made of one datagram: payloads sent
/// once, payloads sent reliably with the acknowledgement to return, an
/// acknowledgement of our own packets, or bytes it could not decode.
#[derive(Debug)]
pub enum Decoded {
    Unreliable { payloads: Vec<Vec<u8>> },
    Reliable { payloads: Vec<Vec<u8>>, ack: Option<Vec<u8>> },
    Ack,
    Undecodable,
}

/// What the server's UDP interface hands up.
#[derive(Debug)]
pub enum ServerEvent {
    /// A datagram came from an address with no session yet.
    ClientConnected { client_id: u64 },
    /// A session ended.
    ClientDisconnected { client_id: u64 },
    /// A payload arrived from a client.
    PacketReceived { client_id: u64, data: Vec<u8>, channel: Channel },
}

/// A [`ServerEvent`] as mathematics.
pub enum ServerEventView {
    ClientConnected { client_id: u64 },
    ClientDisconnected { client_id: u64 },
    PacketReceived { client_id: u64, data: Seq<u8>, channel: Channel },
}

impl View for ServerEvent {
    type V = ServerEventView;

    open spec fn view(&self) -> ServerEventView {
        match self {
            ServerEvent::ClientConnected { client_id } => ServerEventView::ClientConnected {
                client_id: *client_id,
            },
            ServerEvent::ClientDisconnected { client_id } => ServerEventView::ClientDisconnected {
                client_id: *client_id,
            },
            ServerEvent::PacketReceived { client_id, data, channel } =>
                ServerEventView::PacketReceived {
                client_id: *client_id,
                data: data@,
                channel: *channel,
            },
        }
    }
}

/// The views of a list of payloads.
pub open spec fn payloads_view(v: Seq<Vec<u8>>) -> Seq<Seq<u8>> {
    v.map_values(|p: Vec<u8>| p@)
}

/// The views of a list of server events.
pub open spec fn server_events_view(v: Seq<ServerEvent>) -> Seq<ServerEventView> {
    v.map_values(|e: ServerEvent| e@)
}

/// The views of a list of client events.
pub open spec fn client_events_view(v: Seq<ClientEvent>) -> Seq<(Seq<u8>, Channel)> {
    v.map_values(
        |e: ClientEvent|
            match e {
                ClientEvent::PacketReceived { data, channel } => (data@, channel),
            },
    )
}

/// The payloads handed on, in order: on the unreliable channel the server
/// drops keep-alives, on the reliable one it keeps everything.
pub open spec fn kept_payloads(ps: Seq<Seq<u8>>, drop_keepalives: bool) -> Seq<Seq<u8>>
    decreases ps.len(),
{
    if ps.len() == 0 {
        Seq::empty()
    } else {
        let before = kept_payloads(ps.drop_last(), drop_keepalives);
        if drop_keepalives && ps.last() == seq![KEEPALIVE_BYTE] {
            before
        } else {
            before.push(ps.last())
        }
    }
}

/// The packet events for payloads of client `id` received on `channel`.
pub open spec fn packet_events(id: u64, ps: Seq<Seq<u8>>, channel: Channel) -> Seq<ServerEventView> {
    ps.map_values(|p: Seq<u8>| ServerEventView::PacketReceived { client_id: id, data: p, channel })
}

/// What the server does with one datagram of a session.
#[derive(Debug)]
pub struct DatagramOutcome {
    /// The events to hand up, in order.
    pub events: Vec<ServerEvent>,
    /// The acknowledgement to send back to the session's address.
    pub ack: Option<Vec<u8>>,
    /// Whether the session ends.
    pub end_session: bool,
}

/// Appends packet events for the payloads of `ps` that are kept.
fn push_packet_events(
    out: &mut Vec<ServerEvent>,
    id: u64,
    ps: &Vec<Vec<u8>>,
    channel: Channel,
    drop_keepalives: bool,
)
    ensures
        server_events_view(final(out)@) == server_events_view(old(out)@) + packet_events(
            id,
            kept_payloads(payloads_view(ps@), drop_keepalives),
            channel,
        ),
{
    let ghost pv = payloads_view(ps@);
    let mut i: usize = 0;
    while i < ps.len()
        invariant
            i <= ps@.len(),
            pv == payloads_view(ps@),
            server_events_view(out@) == server_events_view(old(out)@) + packet_events(
                id,
                kept_payloads(pv.take(i as int), drop_keepalives),
                channel,
            ),
        decreases ps@.len() - i,
    {
        let ghost before = out@;
        proof {
            assert(pv.take(i + 1).drop_last() =~= pv.take(i as int));
            assert(pv.take(i + 1).last() == ps@[i as int]@);
        }
        let p: &Vec<u8> = &ps[i];
        if !(drop_keepalives && is_keepalive(p.as_slice())) {
            let data = slice_to_vec(p.as_slice());
            out.push(ServerEvent::PacketReceived { client_id: id, data, channel });
            proof {
                let k = kept_payloads(pv.take(i as int), drop_keepalives);
                assert(kept_payloads(pv.take(i + 1), drop_keepalives) == k.push(ps@[i as int]@));
                assert(server_events_view(out@) =~= server_events_view(before).push(
                    ServerEventView::PacketReceived { client_id: id, data: ps@[i as int]@, channel },
                ));
                assert(packet_events(id, k.push(ps@[i as int]@), channel) =~= packet_events(
                    id,
                    k,
                    channel,
                ).push(ServerEventView::PacketReceived { client_id: id, data: ps@[i as int]@, channel }));
            }
        }
        i = i + 1;
    }
    proof {
        assert(pv.take(ps@.len() as int) =~= pv);
    }
}

/// The server receives one datagram from session `session_id`, new when
/// `is_new`: a new session is announced before its payloads; payloads sent
/// once are handed on unreliably, keep-alives dropped; payloads sent
/// reliably are all handed on reliably and their acknowledgement goes back;
/// an acknowledgement gives nothing; bytes that cannot be decoded end the
/// session.
pub fn server_datagram(session_id: u64, is_new: bool, decoded: Decoded) -> (res: DatagramOutcome)
    ensures
        ({
            let connected: Seq<ServerEventView> = if is_new {
                seq![ServerEventView::ClientConnected { client_id: session_id }]
            } else {
                Seq::empty()
            };
            match decoded {
                Decoded::Unreliable { payloads } => {
                    &&& server_events_view(res.events@) == connected + packet_events(
                        session_id,
                        kept_payloads(payloads_view(payloads@), true),
                        Channel::Unreliable,
                    )
                    &&& res.ack is None
                    &&& !res.end_session
                },
                Decoded::Reliable { payloads, ack } => {
                    &&& server_events_view(res.events@) == connected + packet_events(
                        session_id,
                        payloads_view(payloads@),
                        Channel::Reliable,
                    )
                    &&& res.ack == ack
                    &&& !res.end_session
                },
                Decoded::Ack => {
                    &&& server_events_view(res.events@) == connected
                    &&& res.ack is None
                    &&& !res.end_session
                },
                Decoded::Undecodable => {
                    &&& server_events_view(res.events@) == connected
                    &&& res.ack is None
                    &&& res.end_session
                },
            }
        }),
{
    let mut events: Vec<ServerEvent> = Vec::new();
    if is_new {
        events.push(ServerEvent::ClientConnected { client_id: session_id });
    }
    proof {
        assert(server_events_view(events@) =~= if is_new {
            seq![ServerEventView::ClientConnected { client_id: session_id }]
        } else {
            Seq::<ServerEventView>::empty()
        });
    }
    match decoded {
        Decoded::Unreliable { payloads } => {
            push_packet_events(&mut events, session_id, &payloads, Channel::Unreliable, true);
            DatagramOutcome { events, ack: None, end_session: false }
        },
        Decoded::Reliable { payloads, ack } => {
            push_packet_events(&mut events, session_id, &payloads, Channel::Reliable, false);
            proof {
                lemma_kept_payloads_all(payloads_view(payloads@));
            }
            DatagramOutcome { events, ack, end_session: false }
        },
        Decoded::Ack => DatagramOutcome { events, ack: None, end_session: false },
        Decoded::Undecodable => DatagramOutcome { events, ack: None, end_session: true },
    }
}

/// On the unreliable channel exactly the payloads other than the keep-alive
/// are handed on, in the order they came.
pub proof fn lemma_keepalives_dropped(ps: Seq<Seq<u8>>)
    ensures
        kept_payloads(ps, true) == ps.filter(|p: Seq<u8>| p != seq![KEEPALIVE_BYTE]),
    decreases ps.len(),
{
    let pred = |p: Seq<u8>| p != seq![KEEPALIVE_BYTE];
    reveal_with_fuel(Seq::filter, 1);
    if ps.len() == 0 {
        assert(ps =~= Seq::<Seq<u8>>::empty());
    } else {
        lemma_keepalives_dropped(ps.drop_last());
        assert(ps.filter(pred) == if pred(ps.last()) {
            ps.drop_last().filter(pred).push(ps.last())
        } else {
            ps.drop_last().filter(pred)
        });
    }
}

/// On the reliable channel every payload is handed on, keep-alive or not.
pub proof fn lemma_kept_payloads_all(ps: Seq<Seq<u8>>)
    ensures
        kept_payloads(ps, false) == ps,
    decreases ps.len(),
{
    if ps.len() > 0 {
        lemma_kept_payloads_all(ps.drop_last());
        assert(ps.drop_last().push(ps.last()) =~= ps);
    }
}

/// The client receives one datagram from the server: every payload is
/// handed on, on the channel it came on, and the acknowledgement of
/// reliable payloads goes back. Anything else gives nothing.
pub fn client_datagram(decoded: Decoded) -> (res: (Vec<ClientEvent>, Option<Vec<u8>>))
    ensures
        match decoded {
            Decoded::Unreliable { payloads } => {
                &&& client_events_view(res.0@) == payloads_view(payloads@).map_values(
                    |p: Seq<u8>| (p, Channel::Unreliable),
                )
                &&& res.1 is None
            },
            Decoded::Reliable { payloads, ack } => {
                &&& client_events_view(res.0@) == payloads_view(payloads@).map_values(
                    |p: Seq<u8>| (p, Channel::Reliable),
                )
                &&& res.1 == ack
            },
            _ => client_events_view(res.0@).len() == 0 && res.1 is None,
        },
{
    match decoded {
        Decoded::Unreliable { payloads } => (client_events(&payloads, Channel::Unreliable), None),
        Decoded::Reliable { payloads, ack } => (client_events(&payloads, Channel::Reliable), ack),
        _ => {
            let v: Vec<ClientEvent> = Vec::new();
            assert(client_events_view(v@) =~= Seq::empty());
            (v, None)
        },
    }
}

/// The client events for payloads received on `channel`.
fn client_events(ps: &Vec<Vec<u8>>, channel: Channel) -> (res: Vec<ClientEvent>)
    ensures
        client_events_view(res@) == payloads_view(ps@).map_values(|p: Seq<u8>| (p, channel)),
{
    let mut out: Vec<ClientEvent> = Vec::new();
    let mut i: usize = 0;
    while i < ps.len()
        invariant
            i <= ps@.len(),
            client_events_view(out@) == payloads_view(ps@).take(i as int).map_values(
                |p: Seq<u8>| (p, channel),
            ),
        decreases ps@.len() - i,
    {
        let ghost before = out@;
        let data = slice_to_vec(ps[i].as_slice());
        out.push(ClientEvent::PacketReceived { data, channel });
        proof {
            let pv = payloads_view(ps@);
            assert(client_events_view(out@) =~= client_events_view(before).push(
                (ps@[i as int]@, channel),
            ));
            assert(pv.take(i + 1) =~= pv.take(i as int).push(ps@[i as int]@));
            assert(pv.take(i + 1).map_values(|p: Seq<u8>| (p, channel)) =~= pv.take(
                i as int,
            ).map_values(|p: Seq<u8>| (p, channel)).push((ps@[i as int]@, channel)));
        }
        i = i + 1;
    }
    proof {
        assert(payloads_view(ps@).take(ps@.len() as int) =~= payloads_view(ps@));
    }
    out
}

} // verus!
