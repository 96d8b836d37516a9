use nt_relay::error::ProtocolError;
use nt_relay::packet::PacketType;
use nt_relay::packet::RoomInfo;
use nt_relay::packet::AUTHENTICATE;
use nt_relay::packet::CREATE_ROOM;
use nt_relay::packet::GAME_DATA;
use nt_relay::packet::GET_ROOMS;
use nt_relay::packet::JOIN_RES;
use nt_relay::packet::PEER_JOINED;
use nt_relay::packet::read_room_info;
use nt_relay::packet::read_vec_room_info;
use nt_relay::packet::push_vec_room_info;
use nt_relay::wire::push_bool;
use nt_relay::wire::push_i32;
use nt_relay::wire::push_string;
use nt_relay::wire::push_u64;
use nt_relay::wire::read_bool;
use nt_relay::wire::read_i32;
use nt_relay::wire::read_string;
use nt_relay::wire::read_u64;

fn room(id: &str, metadata: &str) -> RoomInfo {
    RoomInfo { id: id.to_string(), metadata: metadata.to_string() }
}

fn roundtrip(p: &PacketType) -> PacketType {
    PacketType::from_bytes(&p.to_bytes()).expect("decodes")
}

#[test]
fn push_i32_is_big_endian_twos_complement() {
    let mut buf = Vec::new();
    push_i32(&mut buf, 0x01020304);
    push_i32(&mut buf, -2);
    assert_eq!(buf, vec![1, 2, 3, 4, 0xff, 0xff, 0xff, 0xfe]);
}

#[test]
fn push_u64_is_big_endian() {
    let mut buf = vec![9];
    push_u64(&mut buf, 0x0102030405060708);
    assert_eq!(buf, vec![9, 1, 2, 3, 4, 5, 6, 7, 8]);
}

#[test]
fn push_bool_writes_one_or_zero() {
    let mut buf = Vec::new();
    push_bool(&mut buf, true);
    push_bool(&mut buf, false);
    assert_eq!(buf, vec![0, 0, 0, 1, 0, 0, 0, 0]);
}

#[test]
fn push_string_writes_byte_count_then_utf8() {
    let mut buf = Vec::new();
    push_string(&mut buf, "hé");
    assert_eq!(buf, vec![0, 0, 0, 3, b'h', 0xc3, 0xa9]);
}

#[test]
fn read_i32_reads_and_leaves_rest() {
    let bytes = [0xff, 0xff, 0xff, 0xfe, 7, 8];
    let (v, rest) = read_i32(&bytes).unwrap();
    assert_eq!(v, -2);
    assert_eq!(rest, &[7, 8]);
}

#[test]
fn read_i32_short_input_names_the_shortfall() {
    match read_i32(&[1, 2, 3]) {
        Err(ProtocolError::NotEnoughBytes(msg)) => {
            assert_eq!(msg, "for i32 (need 4 bytes, have 3)")
        }
        other => panic!("unexpected {:?}", other),
    }
}

#[test]
fn read_u64_short_input_names_the_shortfall() {
    match read_u64(&[1; 7]) {
        Err(ProtocolError::NotEnoughBytes(msg)) => {
            assert_eq!(msg, "for u64 (need 8 bytes, have 7)")
        }
        other => panic!("unexpected {:?}", other),
    }
    let (v, rest) = read_u64(&[0, 0, 0, 0, 0, 0, 1, 0, 5]).unwrap();
    assert_eq!(v, 256);
    assert_eq!(rest, &[5]);
}

#[test]
fn read_bool_treats_nonzero_as_true() {
    let (b, rest) = read_bool(&[0, 0, 0, 7]).unwrap();
    assert!(b);
    assert!(rest.is_empty());
    let (b, _) = read_bool(&[0, 0, 0, 0]).unwrap();
    assert!(!b);
}

#[test]
fn read_string_reads_utf8() {
    let (s, rest) = read_string(&[0, 0, 0, 2, b'h', b'i', 42]).unwrap();
    assert_eq!(s, "hi");
    assert_eq!(rest, &[42]);
}

#[test]
fn read_string_rejects_short_and_negative_lengths() {
    match read_string(&[0, 0, 0, 5, b'a']) {
        Err(ProtocolError::NotEnoughBytes(msg)) => {
            assert_eq!(msg, "for string (need 5 bytes, have 1)")
        }
        other => panic!("unexpected {:?}", other),
    }
    match read_string(&[0xff, 0xff, 0xff, 0xff]) {
        Err(ProtocolError::NotEnoughBytes(msg)) => {
            assert_eq!(msg, "for string (need -1 bytes, have 0)")
        }
        other => panic!("unexpected {:?}", other),
    }
}

#[test]
fn read_string_rejects_invalid_utf8() {
    assert!(matches!(
        read_string(&[0, 0, 0, 1, 0xff]),
        Err(ProtocolError::InvalidUtf8String(_))
    ));
}

#[test]
fn room_info_roundtrip() {
    let mut buf = Vec::new();
    push_vec_room_info(&mut buf, &[room("ABCDE", "m1"), room("XYZ12", "")]);
    buf.push(99);
    let (rooms, rest) = read_vec_room_info(&buf).unwrap();
    assert_eq!(rooms.len(), 2);
    assert_eq!(rooms[0].id, "ABCDE");
    assert_eq!(rooms[0].metadata, "m1");
    assert_eq!(rooms[1].id, "XYZ12");
    assert_eq!(rooms[1].metadata, "");
    assert_eq!(rest, &[99]);
    let (one, rest) = read_room_info(&buf[4..]).unwrap();
    assert_eq!(one.id, "ABCDE");
    assert_eq!(rest.len(), buf.len() - 4 - 15);
}

#[test]
fn read_vec_room_info_rejects_negative_length() {
    assert!(matches!(
        read_vec_room_info(&[0xff, 0xff, 0xff, 0xff]),
        Err(ProtocolError::NegativeVectorLength())
    ));
}

#[test]
fn read_vec_room_info_reports_missing_entry() {
    assert!(matches!(
        read_vec_room_info(&[0, 0, 0, 1]),
        Err(ProtocolError::NotEnoughBytes(_))
    ));
}

#[test]
fn empty_packet_is_rejected() {
    assert!(matches!(PacketType::from_bytes(&[]), Err(ProtocolError::EmptyPacket)));
}

#[test]
fn unknown_packet_type_is_rejected() {
    assert!(matches!(
        PacketType::from_bytes(&[200]),
        Err(ProtocolError::UnknownPacketType(200))
    ));
}

#[test]
fn authenticate_bytes_are_exact() {
    let p = PacketType::Authenticate { app_id: "ab".to_string(), version: "1".to_string() };
    assert_eq!(p.to_bytes(), vec![AUTHENTICATE, 0, 0, 0, 2, b'a', b'b', 0, 0, 0, 1, b'1']);
}

#[test]
fn join_res_bytes_are_exact() {
    let p = PacketType::JoinRes { target_id: 5, room_id: "R".to_string(), allowed: true };
    assert_eq!(
        p.to_bytes(),
        vec![JOIN_RES, 0, 0, 0, 0, 0, 0, 0, 5, 0, 0, 0, 1, b'R', 0, 0, 0, 1]
    );
}

#[test]
fn game_data_carries_the_rest_of_the_packet() {
    let bytes = [GAME_DATA, 0, 0, 0, 3, 10, 20, 30];
    match PacketType::from_bytes(&bytes).unwrap() {
        PacketType::GameData { from_peer, data } => {
            assert_eq!(from_peer, 3);
            assert_eq!(data, vec![10, 20, 30]);
        }
        other => panic!("unexpected {:?}", other),
    }
}

#[test]
fn create_room_without_readable_metadata_has_empty_metadata() {
    let bytes = [CREATE_ROOM, 0, 0, 0, 1, 0, 0];
    match PacketType::from_bytes(&bytes).unwrap() {
        PacketType::CreateRoom { is_public, metadata } => {
            assert!(is_public);
            assert_eq!(metadata, "");
        }
        other => panic!("unexpected {:?}", other),
    }
}

#[test]
fn create_room_needs_its_flag() {
    assert!(matches!(
        PacketType::from_bytes(&[CREATE_ROOM, 0, 0]),
        Err(ProtocolError::NotEnoughBytes(_))
    ));
}

#[test]
fn trailing_bytes_after_fields_are_ignored() {
    match PacketType::from_bytes(&[PEER_JOINED, 0, 0, 0, 9, 1, 2, 3]).unwrap() {
        PacketType::PeerJoinedRoom { peer_id } => assert_eq!(peer_id, 9),
        other => panic!("unexpected {:?}", other),
    }
}

#[test]
fn get_rooms_with_negative_count_is_rejected() {
    assert!(matches!(
        PacketType::from_bytes(&[GET_ROOMS, 0x80, 0, 0, 0]),
        Err(ProtocolError::NegativeVectorLength())
    ));
}

#[test]
fn every_packet_decodes_to_itself() {
    let packets = vec![
        PacketType::Authenticate { app_id: "app".into(), version: "0.1".into() },
        PacketType::ClientAuthenticated,
        PacketType::CreateRoom { is_public: false, metadata: "{\"name\":\"x\"}".into() },
        PacketType::ReqRooms,
        PacketType::GetRooms { rooms: vec![room("AAAAA", "a"), room("BBBBB", "ü")] },
        PacketType::UpdateRoom { room_id: "CCCCC".into(), metadata: "new".into() },
        PacketType::ReqJoin { room_id: "DDDDD".into(), metadata: "me".into() },
        PacketType::JoinRes { target_id: u64::MAX, room_id: "EEEEE".into(), allowed: false },
        PacketType::ConnectedToRoom { room_id: "FFFFF".into(), peer_id: i32::MIN },
        PacketType::PeerJoinAttempt { target_id: 77, metadata: "hello".into() },
        PacketType::PeerJoinedRoom { peer_id: 4 },
        PacketType::PeerLeftRoom { peer_id: -4 },
        PacketType::GameData { from_peer: 2, data: vec![0, 1, 2, 255] },
        PacketType::ForceDisconnect,
        PacketType::Error { error_code: 401, error_message: "Room not found".into() },
    ];
    for p in &packets {
        let q = roundtrip(p);
        assert_eq!(format!("{:?}", p), format!("{:?}", q));
    }
}

#[test]
fn packets_with_bytes_after_them_decode_to_themselves() {
    let packets = vec![
        PacketType::Authenticate { app_id: "app".into(), version: "0.1".into() },
        PacketType::GetRooms { rooms: vec![room("AAAAA", "a")] },
        PacketType::JoinRes { target_id: 3, room_id: "EEEEE".into(), allowed: true },
        PacketType::Error { error_code: 401, error_message: "Room not found".into() },
    ];
    for p in &packets {
        let mut bytes = p.to_bytes();
        bytes.extend_from_slice(&[9, 8, 7]);
        let q = PacketType::from_bytes(&bytes).unwrap();
        assert_eq!(format!("{:?}", p), format!("{:?}", q));
    }
}
