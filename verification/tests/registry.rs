use nt_relay::apps::App;
use nt_relay::apps::Apps;
use nt_relay::rooms::Room;
use nt_relay::rooms::RoomIds;
use nt_relay::rooms::Rooms;

const ALPHABET: &str = "ABCDEFGHJKLMNPQRSTUVWXYZ123456789";

fn is_join_code(s: &str) -> bool {
    s.chars().count() == 5 && s.chars().all(|c| ALPHABET.contains(c))
}

#[test]
fn generated_codes_are_fresh_join_codes() {
    let mut ids = RoomIds::new();
    let mut seen = std::collections::HashSet::new();
    for _ in 0..200 {
        let code = ids.generate();
        assert!(is_join_code(&code), "{code}");
        assert!(seen.insert(code));
    }
}

#[test]
fn freed_code_can_be_generated_again_without_clash() {
    let mut ids = RoomIds::new();
    let a = ids.generate();
    ids.free(&a);
    let b = ids.generate();
    assert!(is_join_code(&b));
}

#[test]
fn new_room_has_no_peers() {
    let r = Room::new(3, "ABCDE".to_string(), 42, true, "meta".to_string());
    assert_eq!(r.id, 3);
    assert_eq!(r.join_code, "ABCDE");
    assert!(r.is_public);
    assert_eq!(r.metadata, "meta");
    assert_eq!(r.get_host(), 42);
    assert!(r.get_clients().is_empty());
    assert_eq!(r.client_to_gd(42), None);
}

#[test]
fn to_info_shows_join_code_and_metadata() {
    let r = Room::new(3, "ABCDE".to_string(), 42, false, "meta".to_string());
    let info = r.to_info();
    assert_eq!(info.id, "ABCDE");
    assert_eq!(info.metadata, "meta");
}

#[test]
fn peers_get_increasing_ids_from_one() {
    let mut r = Room::new(0, "ABCDE".to_string(), 10, true, String::new());
    assert_eq!(r.add_peer(10), 1);
    assert_eq!(r.add_peer(11), 2);
    assert_eq!(r.add_peer(12), 3);
    assert_eq!(r.client_to_gd(11), Some(2));
    assert_eq!(r.gd_to_client(3), Some(12));
    let mut clients = r.get_clients();
    clients.sort();
    assert_eq!(clients, vec![10, 11, 12]);
}

#[test]
fn removing_a_peer_frees_both_directions() {
    let mut r = Room::new(0, "ABCDE".to_string(), 10, true, String::new());
    r.add_peer(10);
    let p = r.add_peer(11);
    r.remove_peer(11);
    assert_eq!(r.client_to_gd(11), None);
    assert_eq!(r.gd_to_client(p), None);
    assert_eq!(r.client_to_gd(10), Some(1));
    r.remove_peer(999);
    assert_eq!(r.get_clients(), vec![10]);
    assert_eq!(r.add_peer(12), 3);
}

#[test]
fn peer_id_of_each_client_leads_back() {
    let mut r = Room::new(0, "ABCDE".to_string(), 1, true, String::new());
    for c in 100..110u64 {
        r.add_peer(c);
    }
    for c in 100..110u64 {
        let p = r.client_to_gd(c).unwrap();
        assert_eq!(r.gd_to_client(p), Some(c));
    }
}

#[test]
fn rooms_are_found_by_id_and_join_code() {
    let mut rooms = Rooms::new();
    let (id, code) = {
        let r = rooms.create(7, true, "m".to_string());
        (r.id, r.join_code.clone())
    };
    assert_eq!(id, 0);
    assert!(is_join_code(&code));
    assert_eq!(rooms.get(id).unwrap().get_host(), 7);
    assert_eq!(rooms.get_by_jc(&code).unwrap().id, id);
    assert!(rooms.get(1).is_none());
    assert!(rooms.get_by_jc("ZZZZZ").is_none() || rooms.get_by_jc("ZZZZZ").unwrap().id == id);
    let second = rooms.create(8, false, String::new()).id;
    assert_eq!(second, 1);
    assert_eq!(rooms.iter().len(), 2);
}

#[test]
fn rooms_have_distinct_join_codes() {
    let mut rooms = Rooms::new();
    let mut codes = std::collections::HashSet::new();
    for host in 0..50u64 {
        let code = rooms.create(host, true, String::new()).join_code.clone();
        assert!(codes.insert(code));
    }
    assert!(rooms.has_capacity());
}

#[test]
fn removing_a_room_frees_id_and_code_lookups() {
    let mut rooms = Rooms::new();
    let code = rooms.create(7, true, "m".to_string()).join_code.clone();
    let removed = rooms.remove(0).unwrap();
    assert_eq!(removed.join_code, code);
    assert!(rooms.get(0).is_none());
    assert!(rooms.get_by_jc(&code).is_none());
    assert!(rooms.remove(0).is_none());
    assert!(rooms.iter().is_empty());
}

#[test]
fn get_mut_changes_the_stored_room() {
    let mut rooms = Rooms::new();
    let code = rooms.create(7, true, "old".to_string()).join_code.clone();
    rooms.get_mut(0).unwrap().metadata = "new".to_string();
    assert_eq!(rooms.get(0).unwrap().metadata, "new");
    let pid = rooms.get_by_jc_mut(&code).unwrap().add_peer(9);
    assert_eq!(pid, 1);
    assert_eq!(rooms.get(0).unwrap().client_to_gd(9), Some(1));
    assert!(rooms.get_mut(5).is_none());
}

#[test]
fn created_room_can_take_its_host() {
    let mut rooms = Rooms::new();
    let r = rooms.create(7, true, String::new());
    assert!(r.has_peer_capacity());
    assert_eq!(r.add_peer(7), 1);
    assert_eq!(rooms.get(0).unwrap().get_clients(), vec![7]);
}

#[test]
fn apps_are_found_by_token() {
    let mut apps = Apps::new();
    let a = apps.create("tok-a".to_string());
    let b = apps.create("tok-b".to_string());
    assert_eq!((a, b), (0, 1));
    assert_eq!(apps.get_by_token("tok-a").unwrap().id, 0);
    assert_eq!(apps.get_by_token("tok-b").unwrap().token, "tok-b");
    assert!(apps.get_by_token("nope").is_none());
    assert_eq!(apps.iter().len(), 2);
    assert!(apps.get_mut(1).is_some());
    assert!(apps.get_mut(2).is_none());
}

#[test]
fn token_registered_twice_leads_to_the_newest_app() {
    let mut apps = Apps::new();
    apps.create("same".to_string());
    let second = apps.create("same".to_string());
    assert_eq!(apps.get_by_token("same").unwrap().id, second);
    assert_eq!(apps.iter().len(), 2);
}

#[test]
fn new_app_has_no_rooms() {
    let app = App::new(4, "t".to_string());
    assert_eq!(app.id, 4);
    assert_eq!(app.token, "t");
    assert!(app.rooms.iter().is_empty());
}

#[test]
fn app_ids_are_dense_from_zero() {
    let mut apps = Apps::new();
    assert!(apps.get_mut(0).is_none());
    assert_eq!(apps.create("a".to_string()), 0);
    assert_eq!(apps.create("b".to_string()), 1);
    assert!(apps.get_mut(0).is_some());
    assert_eq!(apps.get_mut(1).unwrap().id, 1);
    assert!(apps.get_mut(2).is_none());
}

#[test]
fn peer_maps_stay_inverse() {
    let mut room = Room::new(0, "ABCDE".to_string(), 1, true, String::new());
    room.add_peer(1);
    room.add_peer(2);
    room.add_peer(3);
    room.remove_peer(2);
    for g in 0..6 {
        for c in 0..6u64 {
            assert_eq!(room.gd_to_client(g) == Some(c), room.client_to_gd(c) == Some(g));
        }
    }
}
