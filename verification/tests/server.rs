use nt_relay::transport::server_datagram;
use nt_relay::transport::Decoded;
use nt_relay::transport::ServerEvent;
use nt_relay::handlers::shutdown;
use nt_relay::apps::Apps;
use nt_relay::handlers::cleanup_plan;
use nt_relay::handlers::dispatch;
use nt_relay::handlers::ClientState;
use nt_relay::handlers::GameDataHandler;
use nt_relay::handlers::RoomHandler;
use nt_relay::handlers::ServerRequest;
use nt_relay::packet::PacketType;
use nt_relay::transport::Channel;

fn apps_with_one() -> (Apps, u64) {
    let mut apps = Apps::new();
    let id = apps.create("token".to_string());
    (apps, id)
}

fn make_room(apps: &mut Apps, app: u64, host: u64, public: bool, meta: &str) -> (u64, String) {
    let (out, state) = RoomHandler::create_room(apps, true, host, app, public, meta).unwrap();
    let code = match out.packet {
        PacketType::ConnectedToRoom { room_id, peer_id } => {
            assert_eq!(peer_id, 1);
            room_id
        }
        other => panic!("unexpected {:?}", other),
    };
    match state {
        ClientState::InRoom { app_id, room_id } => {
            assert_eq!(app_id, app);
            (room_id, code)
        }
        other => panic!("unexpected {:?}", other),
    }
}

#[test]
fn send_err_uses_code_401() {
    let out = RoomHandler::send_err(5, "Room not found");
    assert_eq!(out.target, 5);
    assert_eq!(out.channel, Channel::Reliable);
    match out.packet {
        PacketType::Error { error_code, error_message } => {
            assert_eq!(error_code, 401);
            assert_eq!(error_message, "Room not found");
        }
        other => panic!("unexpected {:?}", other),
    }
}

#[test]
fn create_room_puts_host_in_as_first_peer() {
    let (mut apps, app) = apps_with_one();
    let (room_id, code) = make_room(&mut apps, app, 77, true, "m");
    assert_eq!(room_id, 0);
    let a = apps.get_mut(app).unwrap();
    let room = a.rooms.get_by_jc(&code).unwrap();
    assert_eq!(room.get_host(), 77);
    assert_eq!(room.client_to_gd(77), Some(1));
    assert_eq!(room.metadata, "m");
}

#[test]
fn create_room_needs_app_and_client() {
    let (mut apps, app) = apps_with_one();
    assert!(RoomHandler::create_room(&mut apps, true, 1, app + 1, true, "").is_none());
    assert!(RoomHandler::create_room(&mut apps, false, 1, app, true, "").is_none());
    assert!(apps.get_mut(app).unwrap().rooms.iter().is_empty());
}

#[test]
fn send_rooms_lists_only_public_rooms() {
    let (mut apps, app) = apps_with_one();
    let (_, public_code) = make_room(&mut apps, app, 1, true, "pub");
    make_room(&mut apps, app, 2, false, "priv");
    let out = RoomHandler::send_rooms(&mut apps, 9, app).unwrap();
    assert_eq!(out.target, 9);
    match out.packet {
        PacketType::GetRooms { rooms } => {
            assert_eq!(rooms.len(), 1);
            assert_eq!(rooms[0].id, public_code);
            assert_eq!(rooms[0].metadata, "pub");
        }
        other => panic!("unexpected {:?}", other),
    }
    assert!(RoomHandler::send_rooms(&mut apps, 9, app + 1).is_none());
}

#[test]
fn update_room_changes_metadata_or_reports_missing_room() {
    let (mut apps, app) = apps_with_one();
    let (room_id, _) = make_room(&mut apps, app, 1, true, "old");
    assert!(RoomHandler::update_room(&mut apps, 1, app, room_id, "new").is_none());
    assert_eq!(apps.get_mut(app).unwrap().rooms.get(room_id).unwrap().metadata, "new");
    let out = RoomHandler::update_room(&mut apps, 1, app, room_id + 5, "x").unwrap();
    assert_eq!(out.target, 1);
    assert!(matches!(out.packet, PacketType::Error { error_code: 401, .. }));
}

#[test]
fn remove_room_takes_room_out() {
    let (mut apps, app) = apps_with_one();
    let (room_id, code) = make_room(&mut apps, app, 1, true, "");
    RoomHandler::remove_room(&mut apps, app, room_id);
    assert!(apps.get_mut(app).unwrap().rooms.get_by_jc(&code).is_none());
    RoomHandler::remove_room(&mut apps, app + 3, room_id);
}

#[test]
fn join_request_goes_to_the_host() {
    let (mut apps, app) = apps_with_one();
    let (_, code) = make_room(&mut apps, app, 50, true, "");
    let out = RoomHandler::recv_join_req(&mut apps, 60, app, &code, "hi").unwrap();
    assert_eq!(out.target, 50);
    match out.packet {
        PacketType::PeerJoinAttempt { target_id, metadata } => {
            assert_eq!(target_id, 60);
            assert_eq!(metadata, "hi");
        }
        other => panic!("unexpected {:?}", other),
    }
    let out = RoomHandler::recv_join_req(&mut apps, 60, app, "NOPE1", "hi").unwrap();
    assert_eq!(out.target, 60);
    match out.packet {
        PacketType::Error { error_message, .. } => assert_eq!(error_message, "Room not found"),
        other => panic!("unexpected {:?}", other),
    }
    assert!(RoomHandler::recv_join_req(&mut apps, 60, app + 1, &code, "hi").is_none());
}

#[test]
fn allowed_join_adds_peer_and_tells_both() {
    let (mut apps, app) = apps_with_one();
    let (room_id, code) = make_room(&mut apps, app, 50, true, "");
    let (out, state) = RoomHandler::recv_join_res(&mut apps, true, app, 60, room_id, true);
    assert_eq!(state, Some(ClientState::InRoom { app_id: app, room_id }));
    assert_eq!(out.len(), 2);
    assert_eq!(out[0].target, 60);
    assert_eq!(out[0].channel, Channel::Reliable);
    assert_eq!(out[1].channel, Channel::Reliable);
    match &out[0].packet {
        PacketType::ConnectedToRoom { room_id: jc, peer_id } => {
            assert_eq!(jc, &code);
            assert_eq!(*peer_id, 2);
        }
        other => panic!("unexpected {:?}", other),
    }
    assert_eq!(out[1].target, 50);
    assert!(matches!(out[1].packet, PacketType::PeerJoinedRoom { peer_id: 2 }));
}

#[test]
fn denied_join_tells_the_client() {
    let (mut apps, app) = apps_with_one();
    let (room_id, _) = make_room(&mut apps, app, 50, true, "");
    let (out, state) = RoomHandler::recv_join_res(&mut apps, true, app, 60, room_id, false);
    assert_eq!(state, None);
    assert_eq!(out.len(), 1);
    match &out[0].packet {
        PacketType::Error { error_message, .. } => assert_eq!(error_message, "Room host denied entry"),
        other => panic!("unexpected {:?}", other),
    }
    let (out, state) = RoomHandler::recv_join_res(&mut apps, false, app, 60, room_id, true);
    assert!(out.is_empty() && state.is_none());
    let (out, _) = RoomHandler::recv_join_res(&mut apps, true, app, 60, room_id + 1, true);
    assert!(matches!(out[0].packet, PacketType::Error { .. }));
}

#[test]
fn game_data_goes_to_target_peer_marked_with_sender_peer() {
    let (mut apps, app) = apps_with_one();
    let (room_id, _) = make_room(&mut apps, app, 50, true, "");
    RoomHandler::recv_join_res(&mut apps, true, app, 60, room_id, true);
    let out = GameDataHandler::route_game_data(&mut apps, 60, app, room_id, 1, &[1, 2, 3], Channel::Unreliable)
        .unwrap();
    assert_eq!(out.target, 50);
    assert_eq!(out.channel, Channel::Unreliable);
    match out.packet {
        PacketType::GameData { from_peer, data } => {
            assert_eq!(from_peer, 2);
            assert_eq!(data, vec![1, 2, 3]);
        }
        other => panic!("unexpected {:?}", other),
    }
    assert!(GameDataHandler::route_game_data(&mut apps, 60, app, room_id, 9, &[1], Channel::Reliable).is_none());
    assert!(GameDataHandler::route_game_data(&mut apps, 61, app, room_id, 1, &[1], Channel::Reliable).is_none());
    assert!(GameDataHandler::route_game_data(&mut apps, 60, app, room_id + 1, 1, &[1], Channel::Reliable).is_none());
}

#[test]
fn dispatch_follows_client_state() {
    let auth = PacketType::Authenticate { app_id: "a".into(), version: "v".into() };
    assert!(matches!(dispatch(ClientState::Connected, auth), ServerRequest::Authenticate { .. }));
    assert!(matches!(
        dispatch(ClientState::Connected, PacketType::ReqRooms),
        ServerRequest::Unexpected
    ));
    assert!(matches!(
        dispatch(ClientState::Authenticated { app_id: 3 }, PacketType::ReqRooms),
        ServerRequest::ListRooms { app_id: 3 }
    ));
    let upd = PacketType::UpdateRoom { room_id: "ignored".into(), metadata: "m".into() };
    match dispatch(ClientState::InRoom { app_id: 1, room_id: 8 }, upd) {
        ServerRequest::UpdateRoom { app_id, room_id, metadata } => {
            assert_eq!((app_id, room_id), (1, 8));
            assert_eq!(metadata, "m");
        }
        other => panic!("unexpected {:?}", other),
    }
    let gd = PacketType::GameData { from_peer: 4, data: vec![7] };
    assert!(matches!(
        dispatch(ClientState::InRoom { app_id: 1, room_id: 8 }, gd),
        ServerRequest::GameData { target_peer: 4, .. }
    ));
    assert!(matches!(
        dispatch(ClientState::InRoom { app_id: 1, room_id: 8 }, PacketType::ReqRooms),
        ServerRequest::Unexpected
    ));
}

#[test]
fn cleanup_plan_covers_every_client_room_and_peer() {
    let (mut apps, app) = apps_with_one();
    let other = apps.create("other".to_string());
    let (r1, _) = make_room(&mut apps, app, 1, true, "");
    RoomHandler::recv_join_res(&mut apps, true, app, 2, r1, true);
    let (r2, _) = make_room(&mut apps, other, 3, false, "");
    let plan = cleanup_plan(&apps, &vec![9, 1, 2, 3]);
    let mut d = plan.disconnects.clone();
    d.sort();
    assert_eq!(d, vec![1, 2, 3, 9]);
    let mut rm = plan.to_remove.clone();
    rm.sort();
    assert_eq!(rm, vec![(app, r1), (other, r2)]);
}

#[test]
fn game_data_keeps_the_reliable_channel() {
    let (mut apps, app) = apps_with_one();
    let (room_id, _) = make_room(&mut apps, app, 50, true, "");
    RoomHandler::recv_join_res(&mut apps, true, app, 60, room_id, true);
    let out = GameDataHandler::route_game_data(&mut apps, 50, app, room_id, 2, &[5], Channel::Reliable).unwrap();
    assert_eq!(out.target, 60);
    assert_eq!(out.channel, Channel::Reliable);
}

#[test]
fn room_replies_go_reliably() {
    let (mut apps, app) = apps_with_one();
    let (out, _) = RoomHandler::create_room(&mut apps, true, 1, app, true, "").unwrap();
    assert_eq!(out.channel, Channel::Reliable);
    let rooms = RoomHandler::send_rooms(&mut apps, 1, app).unwrap();
    assert_eq!(rooms.channel, Channel::Reliable);
    let code = match out.packet {
        PacketType::ConnectedToRoom { room_id, .. } => room_id,
        other => panic!("unexpected {:?}", other),
    };
    let ask = RoomHandler::recv_join_req(&mut apps, 2, app, &code, "").unwrap();
    assert_eq!(ask.channel, Channel::Reliable);
}

#[test]
fn cleanup_plan_disconnects_clients_outside_rooms() {
    let (apps, _) = apps_with_one();
    let plan = cleanup_plan(&apps, &vec![4, 5, 4]);
    let mut d = plan.disconnects.clone();
    d.sort();
    assert_eq!(d, vec![4, 5]);
    assert!(plan.to_remove.is_empty());
}

#[test]
fn shutdown_removes_every_room_and_keeps_the_apps() {
    let (mut apps, app) = apps_with_one();
    let other = apps.create("other".to_string());
    let (r1, code) = make_room(&mut apps, app, 1, true, "");
    RoomHandler::recv_join_res(&mut apps, true, app, 2, r1, true);
    make_room(&mut apps, other, 3, false, "");
    let mut d = shutdown(&mut apps, &vec![7, 1]);
    d.sort();
    assert_eq!(d, vec![1, 2, 3, 7]);
    let a = apps.get_mut(app).unwrap();
    assert!(a.rooms.iter().is_empty());
    assert!(a.rooms.get_by_jc(&code).is_none());
    assert!(apps.get_mut(other).unwrap().rooms.iter().is_empty());
    assert_eq!(apps.get_by_token("other").unwrap().id, other);
}

#[test]
fn new_session_is_announced_before_its_payloads() {
    let out = server_datagram(4, true, Decoded::Reliable { payloads: vec![vec![1], vec![3]], ack: Some(vec![9]) });
    assert!(!out.end_session);
    assert_eq!(out.ack, Some(vec![9]));
    assert_eq!(out.events.len(), 3);
    assert!(matches!(out.events[0], ServerEvent::ClientConnected { client_id: 4 }));
    match &out.events[2] {
        ServerEvent::PacketReceived { client_id, data, channel } => {
            assert_eq!(*client_id, 4);
            assert_eq!(data, &vec![3]);
            assert_eq!(*channel, Channel::Reliable);
        }
        other => panic!("unexpected {:?}", other),
    }
}

#[test]
fn unreliable_keepalives_are_dropped_and_bad_bytes_end_the_session() {
    let out = server_datagram(4, false, Decoded::Unreliable { payloads: vec![vec![3], vec![3, 0], vec![5]] });
    assert_eq!(out.events.len(), 2);
    assert!(out.ack.is_none());
    match &out.events[0] {
        ServerEvent::PacketReceived { data, channel, .. } => {
            assert_eq!(data, &vec![3, 0]);
            assert_eq!(*channel, Channel::Unreliable);
        }
        other => panic!("unexpected {:?}", other),
    }
    let out = server_datagram(4, false, Decoded::Undecodable);
    assert!(out.end_session && out.events.is_empty());
    let out = server_datagram(4, false, Decoded::Ack);
    assert!(!out.end_session && out.events.is_empty());
}
