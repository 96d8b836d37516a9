use nt_relay::transport::client_datagram;
use nt_relay::transport::Decoded;
use nt_relay::packet::PacketType;
use nt_relay::packet::RoomInfo;
use nt_relay::relay_client::ClientPhase;
use nt_relay::relay_client::RelayClient;
use nt_relay::relay_client::RelayClientError;
use nt_relay::relay_client::RelayEvent;
use nt_relay::transport::Channel;
use nt_relay::transport::ClientEvent;

fn received(p: PacketType, channel: Channel) -> ClientEvent {
    ClientEvent::PacketReceived { data: p.to_bytes(), channel }
}

#[test]
fn requests_need_a_transport() {
    let client = RelayClient::new();
    assert!(matches!(client.req_rooms(), Err(RelayClientError::TransportNotInitialized)));
    let mut client = RelayClient::new();
    assert!(matches!(client.update(1), Err(RelayClientError::TransportNotInitialized)));
}

#[test]
fn requests_encode_their_packets() {
    let mut client = RelayClient::new();
    client.connect();
    let (bytes, ch) = client.req_auth("app".to_string(), "1.0").unwrap();
    assert_eq!(ch, Channel::Reliable);
    assert_eq!(
        bytes,
        PacketType::Authenticate { app_id: "app".into(), version: "1.0".into() }.to_bytes()
    );
    let (bytes, ch) = client.send_game_data(3, vec![9], Channel::Unreliable).unwrap();
    assert_eq!(ch, Channel::Unreliable);
    assert_eq!(bytes, PacketType::GameData { from_peer: 3, data: vec![9] }.to_bytes());
    let (bytes, _) = client.send_join_response("ABCDE".into(), 8, true).unwrap();
    assert_eq!(
        bytes,
        PacketType::JoinRes { target_id: 8, room_id: "ABCDE".into(), allowed: true }.to_bytes()
    );
    let (bytes, _) = client.req_update_room("R", "m").unwrap();
    assert_eq!(
        bytes,
        PacketType::UpdateRoom { room_id: "R".into(), metadata: "m".into() }.to_bytes()
    );
    let (bytes, _) = client.req_create_room(true, "m".into()).unwrap();
    assert_eq!(bytes, PacketType::CreateRoom { is_public: true, metadata: "m".into() }.to_bytes());
    let (bytes, _) = client.req_join_room("R".into(), "me".into()).unwrap();
    assert_eq!(bytes, PacketType::ReqJoin { room_id: "R".into(), metadata: "me".into() }.to_bytes());
}

#[test]
fn keepalive_is_due_every_five_seconds() {
    let mut client = RelayClient::new();
    client.connect();
    assert_eq!(client.update(4_000_000_000).unwrap(), false);
    assert_eq!(client.update(1_000_000_000).unwrap(), true);
    assert_eq!(client.update(4_999_999_999).unwrap(), false);
    assert_eq!(client.update(1).unwrap(), true);
}

#[test]
fn connection_is_reported_once() {
    let mut client = RelayClient::new();
    client.connect();
    let ev = client.finish_update(true, Vec::new()).unwrap();
    assert!(matches!(ev.as_slice(), [RelayEvent::ConnectedToServer]));
    let ev = client.finish_update(true, Vec::new()).unwrap();
    assert!(ev.is_empty());
    assert!(client.is_connected(true));
    assert!(!client.is_connected(false));
}

#[test]
fn packets_become_events_in_order() {
    let mut client = RelayClient::new();
    client.connect();
    let events = vec![
        received(PacketType::ClientAuthenticated, Channel::Reliable),
        received(
            PacketType::GetRooms {
                rooms: vec![RoomInfo { id: "AAAAA".into(), metadata: "m".into() }],
            },
            Channel::Reliable,
        ),
        received(PacketType::GameData { from_peer: 2, data: vec![5] }, Channel::Unreliable),
        received(PacketType::PeerJoinAttempt { target_id: 9, metadata: "x".into() }, Channel::Reliable),
    ];
    let ev = client.finish_update(false, events).unwrap();
    assert_eq!(ev.len(), 4);
    assert!(matches!(ev[0], RelayEvent::Authenticated));
    match &ev[1] {
        RelayEvent::RoomsReceived { rooms } => assert_eq!(rooms[0].id, "AAAAA"),
        other => panic!("unexpected {:?}", other),
    }
    match &ev[2] {
        RelayEvent::GameDataReceived { data, from_peer, channel } => {
            assert_eq!(data, &vec![5]);
            assert_eq!(*from_peer, 2);
            assert_eq!(*channel, Channel::Unreliable);
        }
        other => panic!("unexpected {:?}", other),
    }
    assert!(matches!(ev[3], RelayEvent::PeerJoinAttempt { client_id: 9, .. }));
    let _ = ClientPhase::Authenticated;
}

#[test]
fn unexpected_and_garbled_packets_are_errors() {
    let mut client = RelayClient::new();
    client.connect();
    let r = client.finish_update(false, vec![received(PacketType::ReqRooms, Channel::Reliable)]);
    assert!(matches!(r, Err(RelayClientError::InvalidPacketType)));
    let r = client.finish_update(
        false,
        vec![ClientEvent::PacketReceived { data: vec![], channel: Channel::Reliable }],
    );
    assert!(matches!(r, Err(RelayClientError::PacketParsingError)));
}

#[test]
fn client_hands_on_every_payload_with_its_channel() {
    let (ev, ack) = client_datagram(Decoded::Unreliable { payloads: vec![vec![3], vec![7]] });
    assert_eq!(ev.len(), 2);
    assert!(ack.is_none());
    assert!(matches!(&ev[0], ClientEvent::PacketReceived { data, channel: Channel::Unreliable } if data == &vec![3]));
    let (ev, ack) = client_datagram(Decoded::Reliable { payloads: vec![vec![1]], ack: Some(vec![2]) });
    assert_eq!(ack, Some(vec![2]));
    assert!(matches!(&ev[0], ClientEvent::PacketReceived { channel: Channel::Reliable, .. }));
    let (ev, ack) = client_datagram(Decoded::Undecodable);
    assert!(ev.is_empty() && ack.is_none());
}
