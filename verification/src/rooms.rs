//! Rooms of one application: the join codes handed out to them, the peers in
//! each room, and the registry that finds a room by id or by join code.

use std::collections::hash_map::Entry;
use std::collections::HashMap;

use vstd::hash_map::StringHashMap;
use vstd::hash_set::StringHashSet;
use vstd::prelude::*;
use vstd::relations::injective_on;
use vstd::set_lib::lemma_int_range;
use vstd::set_lib::lemma_len_subset;
use vstd::set_lib::lemma_map_size;
use vstd::set_lib::set_int_range;
use vstd::std_specs::hash::spec_keys_iter;
use vstd::std_specs::iter::IteratorSpec;

use crate::text::string_push;

verus! {

broadcast use vstd::std_specs::hash::group_hash_axioms;

// ---------------------------------------------------------------------------
// Join codes
// ---------------------------------------------------------------------------

/// Number of characters in a join code.
pub const ID_LENGTH: usize = 5;

/// Number of characters a join code is drawn from: `A`-`Z` without `I` and
/// `O`, then `1`-`9`.
pub const ID_ALPHABET_LEN: usize = 33;

/// Number of distinct join codes: `ID_ALPHABET_LEN` to the power `ID_LENGTH`.
pub const CODE_SPACE: u32 = 39135393;

/// The byte of the `d`-th character of the join-code alphabet
/// `ABCDEFGHJKLMNPQRSTUVWXYZ123456789`.
pub open spec fn id_byte(d: int) -> u8 {
    if d < 8 {
        (65 + d) as u8
    } else if d < 13 {
        (66 + d) as u8
    } else if d < 24 {
        (67 + d) as u8
    } else {
        (25 + d) as u8
    }
}

/// The `d`-th character of the join-code alphabet.
pub open spec fn id_char(d: int) -> char {
    id_byte(d) as char
}

/// The join code with index `n`: the base-33 digits of `n`, most significant
/// first, each spelled with the join-code alphabet.
pub open spec fn code_of(n: int) -> Seq<char> {
    seq![
        id_char(n / 1185921 % 33),
        id_char(n / 35937 % 33),
        id_char(n / 1089 % 33),
        id_char(n / 33 % 33),
        id_char(n % 33),
    ]
}

/// A string that is a join code.
pub open spec fn valid_code(s: Seq<char>) -> bool {
    exists|n: int| 0 <= n < CODE_SPACE && s == code_of(n)
}

/// Distinct alphabet positions spell distinct characters.
proof fn lemma_id_char_injective(d1: int, d2: int)
    requires
        0 <= d1 < 33,
        0 <= d2 < 33,
        id_char(d1) == id_char(d2),
    ensures
        d1 == d2,
{
    let b1 = id_byte(d1);
    let b2 = id_byte(d2);
    assert(b1 as char == b2 as char);
    assert(b1 == b2);
}

/// Distinct indices give distinct join codes.
proof fn lemma_code_of_injective(n1: int, n2: int)
    requires
        0 <= n1 < CODE_SPACE,
        0 <= n2 < CODE_SPACE,
        code_of(n1) == code_of(n2),
    ensures
        n1 == n2,
{
    assert(code_of(n1)[0] == code_of(n2)[0]);
    assert(code_of(n1)[1] == code_of(n2)[1]);
    assert(code_of(n1)[2] == code_of(n2)[2]);
    assert(code_of(n1)[3] == code_of(n2)[3]);
    assert(code_of(n1)[4] == code_of(n2)[4]);
    assert(0 <= n1 / 1185921 % 33 < 33 && 0 <= n2 / 1185921 % 33 < 33) by (nonlinear_arith)
        requires
            0 <= n1,
            0 <= n2,
    ;
    lemma_id_char_injective(n1 / 1185921 % 33, n2 / 1185921 % 33);
    lemma_id_char_injective(n1 / 35937 % 33, n2 / 35937 % 33);
    lemma_id_char_injective(n1 / 1089 % 33, n2 / 1089 % 33);
    lemma_id_char_injective(n1 / 33 % 33, n2 / 33 % 33);
    lemma_id_char_injective(n1 % 33, n2 % 33);
    lemma_digits_determine(n1);
    lemma_digits_determine(n2);
}

/// An index below `CODE_SPACE` is the sum of its base-33 digits times their weights.
proof fn lemma_digits_determine(n: int)
    requires
        0 <= n < CODE_SPACE,
    ensures
        n == (n / 1185921 % 33) * 1185921 + (n / 35937 % 33) * 35937 + (n / 1089 % 33) * 1089 + (n
            / 33 % 33) * 33 + n % 33,
{
    assert(n == (n / 1185921 % 33) * 1185921 + (n / 35937 % 33) * 35937 + (n / 1089 % 33) * 1089
        + (n / 33 % 33) * 33 + n % 33) by (nonlinear_arith)
        requires
            0 <= n < 39135393,
    ;
}

/// Fewer codes in use than there are codes leaves a join code free.
pub proof fn lemma_free_code_exists(used: Set<Seq<char>>)
    requires
        used.finite(),
        used.len() < CODE_SPACE,
    ensures
        exists|n: int| 0 <= n < CODE_SPACE && !used.contains(#[trigger] code_of(n)),
{
    let all = set_int_range(0, CODE_SPACE as int);
    let f = |n: int| code_of(n);
    let codes = all.map(f);
    lemma_int_range(0, CODE_SPACE as int);
    assert(injective_on(f, all)) by {
        assert forall|n1: int, n2: int|
            all.contains(n1) && all.contains(n2) && #[trigger] f(n1) == #[trigger] f(n2) implies n1
            == n2 by {
            lemma_code_of_injective(n1, n2);
        }
    }
    lemma_map_size(all, codes, f);
    if forall|n: int| 0 <= n < CODE_SPACE ==> used.contains(#[trigger] code_of(n)) {
        assert(codes.subset_of(used)) by {
            assert forall|s: Seq<char>| codes.contains(s) implies used.contains(s) by {
                let n = choose|n: int| all.contains(n) && f(n) == s;
                assert(used.contains(code_of(n)));
            }
        }
        lemma_len_subset(codes, used);
        assert(false);
    }
}

/// `rand::random_range(0..bound)`: some index below `bound`, drawn uniformly
/// at random. Nothing is stated of which one.
#[verifier::external_body]
fn random_index(bound: usize) -> (res: usize)
    requires
        bound > 0,
    ensures
        res < bound,
{
    rand::random_range(0..bound)
}

/// The character of the join-code alphabet at position `d`.
fn code_char(d: u32) -> (c: char)
    requires
        d < 33,
    ensures
        c == id_char(d as int),
{
    let b: u8 = if d < 8 {
        (65 + d) as u8
    } else if d < 13 {
        (66 + d) as u8
    } else if d < 24 {
        (67 + d) as u8
    } else {
        (25 + d) as u8
    };
    b as char
}

/// The join code with index `n`.
fn code_string(n: u32) -> (res: String)
    requires
        n < CODE_SPACE,
    ensures
        res@ == code_of(n as int),
        valid_code(res@),
{
    let mut s = String::new();
    string_push(&mut s, code_char(n / 1185921 % 33));
    string_push(&mut s, code_char(n / 35937 % 33));
    string_push(&mut s, code_char(n / 1089 % 33));
    string_push(&mut s, code_char(n / 33 % 33));
    string_push(&mut s, code_char(n % 33));
    assert(s@ =~= code_of(n as int));
    s
}

/// The join codes handed out and not yet freed.
pub struct RoomIds {
    used: StringHashSet,
}

impl View for RoomIds {
    type V = Set<Seq<char>>;

    closed spec fn view(&self) -> Set<Seq<char>> {
        self.used@
    }
}

impl RoomIds {
    /// The set of codes in use is finite.
    pub open spec fn wf(&self) -> bool {
        self@.finite()
    }

    /// No code in use.
    pub fn new() -> (res: Self)
        ensures
            res.wf(),
            res@ == Set::<Seq<char>>::empty(),
    {
        RoomIds { used: StringHashSet::new() }
    }

    /// Hands out a join code that is not in use, and marks it used. Codes are
    /// drawn at random until a free one comes up.
    pub fn generate(&mut self) -> (res: String)
        requires
            old(self).wf(),
            old(self)@.len() < CODE_SPACE,
        ensures
            final(self).wf(),
            valid_code(res@),
            !old(self)@.contains(res@),
            final(self)@ == old(self)@.insert(res@),
    {
        let mut attempts: u64 = 0;
        while attempts < u64::MAX
            invariant
                self.wf(),
                self@ == old(self)@,
            decreases u64::MAX - attempts,
        {
            let n = (((random_index(ID_ALPHABET_LEN) * 33 + random_index(ID_ALPHABET_LEN)) * 33
                + random_index(ID_ALPHABET_LEN)) * 33 + random_index(ID_ALPHABET_LEN)) * 33
                + random_index(ID_ALPHABET_LEN);
            let id = code_string(n as u32);
            if self.used.insert(id.clone()) {
                return id;
            }
            assert(self.used@ =~= old(self)@);
            attempts = attempts + 1;
        }
        proof {
            lemma_free_code_exists(self.used@);
        }
        let mut n: u32 = 0;
        while n < CODE_SPACE
            invariant
                self.wf(),
                self@ == old(self)@,
                n <= CODE_SPACE,
                forall|m: int| 0 <= m < n ==> self@.contains(#[trigger] code_of(m)),
            decreases CODE_SPACE - n,
        {
            let id = code_string(n);
            if self.used.insert(id.clone()) {
                return id;
            }
            assert(self.used@ =~= old(self)@);
            n = n + 1;
        }
        proof {
            let m = choose|m: int| 0 <= m < CODE_SPACE && !old(self)@.contains(#[trigger] code_of(m));
            assert(self@.contains(code_of(m)));
        }
        String::new()
    }

    /// Returns a join code to the pool.
    pub fn free(&mut self, id: &str)
        requires
            old(self).wf(),
        ensures
            final(self).wf(),
            final(self)@ == old(self)@.remove(id@),
    {
        self.used.remove(id);
    }
}

// ---------------------------------------------------------------------------
// A room and its peers
// ---------------------------------------------------------------------------

/// A room: its join code, whether it is listed publicly, its metadata, its
/// host, and the peers in it. Each client in the room has a peer id, handed
/// out in increasing order from 1.
#[derive(Debug)]
pub struct Room {
    pub id: u64,
    pub join_code: String,
    pub is_public: bool,
    pub metadata: String,
    pub(crate) host_id: u64,
    pub(crate) client_to_godot: HashMap<u64, i32>,
    pub(crate) godot_to_client: HashMap<i32, u64>,
    pub(crate) next_godot_id: i32,
}

/// A [`Room`] as mathematics.
pub struct RoomView {
    pub id: u64,
    pub join_code: Seq<char>,
    pub is_public: bool,
    pub metadata: Seq<char>,
    /// The client that created the room.
    pub host: u64,
    /// The peer id of each client in the room.
    pub peers: Map<u64, i32>,
    /// The client behind each peer id handed out and not yet taken back.
    pub peer_clients: Map<i32, u64>,
    /// The peer id the next client will get.
    pub next_peer: i32,
}

impl RoomView {
    /// Peer ids are positive and below the next one to hand out, and the peer
    /// id of each client leads back to that client.
    pub open spec fn wf(self) -> bool {
        &&& 1 <= self.next_peer
        &&& forall|c: u64| #[trigger]
            self.peers.contains_key(c) ==> {
                &&& 1 <= self.peers[c] < self.next_peer
                &&& self.peer_clients.contains_key(self.peers[c])
                &&& self.peer_clients[self.peers[c]] == c
            }
        &&& forall|p: i32| #[trigger] self.peer_clients.contains_key(p) ==> 1 <= p < self.next_peer
    }

    /// Each peer id in use belongs to a client in the room that has that very
    /// peer id: the two maps are inverse. A client added again while already
    /// in the room leaves its former peer id behind, which breaks this.
    pub open spec fn peer_maps_inverse(self) -> bool {
        forall|p: i32| #[trigger]
            self.peer_clients.contains_key(p) ==> {
                &&& self.peers.contains_key(self.peer_clients[p])
                &&& self.peers[self.peer_clients[p]] == p
            }
    }

    /// The same room, with everything but the peers unchanged.
    pub open spec fn same_but_peers(self, other: RoomView) -> bool {
        &&& self.id == other.id
        &&& self.join_code == other.join_code
        &&& self.is_public == other.is_public
        &&& self.metadata == other.metadata
        &&& self.host == other.host
    }
}

impl View for Room {
    type V = RoomView;

    closed spec fn view(&self) -> RoomView {
        RoomView {
            id: self.id,
            join_code: self.join_code@,
            is_public: self.is_public,
            metadata: self.metadata@,
            host: self.host_id,
            peers: self.client_to_godot@,
            peer_clients: self.godot_to_client@,
            next_peer: self.next_godot_id,
        }
    }
}

/// The public fields of a room are those of its view.
pub(crate) broadcast proof fn lemma_room_fields(r: &Room)
    ensures
        #![trigger r@]
        r@ == (RoomView {
            id: r.id,
            join_code: r.join_code@,
            is_public: r.is_public,
            metadata: r.metadata@,
            host: r.host_id,
            peers: r.client_to_godot@,
            peer_clients: r.godot_to_client@,
            next_peer: r.next_godot_id,
        }),
{
}

impl Room {
    /// See [`RoomView::wf`].
    pub open spec fn wf(&self) -> bool {
        self@.wf()
    }

    /// A room with no peer yet.
    pub fn new(id: u64, join_code: String, host_id: u64, is_public: bool, metadata: String) -> (res:
        Self)
        ensures
            res.wf(),
            res@ == (RoomView {
                id,
                join_code: join_code@,
                is_public,
                metadata: metadata@,
                host: host_id,
                peers: Map::empty(),
                peer_clients: Map::empty(),
                next_peer: 1,
            }),
            res@.peer_maps_inverse(),
    {
        Room {
            id,
            join_code,
            is_public,
            metadata,
            host_id,
            client_to_godot: HashMap::new(),
            godot_to_client: HashMap::new(),
            next_godot_id: 1,
        }
    }

    /// The room as the room list shows it: its join code and its metadata.
    pub fn to_info(&self) -> (res: crate::packet::RoomInfo)
        ensures
            res@ == (crate::packet::RoomInfoView { id: self@.join_code, metadata: self@.metadata }),
    {
        crate::packet::RoomInfo { id: self.join_code.clone(), metadata: self.metadata.clone() }
    }

    /// Adds a client to the room under the next peer id, and returns that id.
    pub fn add_peer(&mut self, client_id: u64) -> (res: i32)
        requires
            old(self).wf(),
            old(self)@.next_peer < i32::MAX,
        ensures
            final(self).wf(),
            res == old(self)@.next_peer,
            final(self)@.next_peer == res + 1,
            final(self)@.peers == old(self)@.peers.insert(client_id, res),
            final(self)@.peer_clients == old(self)@.peer_clients.insert(res, client_id),
            final(self)@.same_but_peers(old(self)@),
            old(self)@.peer_maps_inverse() && !old(self)@.peers.contains_key(client_id)
                ==> final(self)@.peer_maps_inverse(),
    {
        let godot_pid = self.next_godot_id;
        self.client_to_godot.insert(client_id, godot_pid);
        self.godot_to_client.insert(godot_pid, client_id);
        self.next_godot_id = self.next_godot_id + 1;
        proof {
            let old_v = old(self)@;
            let v = self@;
            assert forall|c: u64| #[trigger] v.peers.contains_key(c) implies {
                &&& 1 <= v.peers[c] < v.next_peer
                &&& v.peer_clients.contains_key(v.peers[c])
                &&& v.peer_clients[v.peers[c]] == c
            } by {
                if c != client_id {
                    assert(old_v.peers.contains_key(c));
                }
            }
            assert forall|p: i32| #[trigger] v.peer_clients.contains_key(p) implies 1 <= p
                < v.next_peer by {
                if p != godot_pid {
                    assert(old_v.peer_clients.contains_key(p));
                }
            }
            if old_v.peer_maps_inverse() && !old_v.peers.contains_key(client_id) {
                assert forall|p: i32| #[trigger] v.peer_clients.contains_key(p) implies {
                    &&& v.peers.contains_key(v.peer_clients[p])
                    &&& v.peers[v.peer_clients[p]] == p
                } by {
                    if p != godot_pid {
                        assert(old_v.peer_clients.contains_key(p));
                        assert(old_v.peers.contains_key(old_v.peer_clients[p]));
                    }
                }
            }
        }
        godot_pid
    }

    /// The clients in the room, each once, in no particular order.
    pub fn get_clients(&self) -> (res: Vec<u64>)
        ensures
            res@.to_set() == self@.peers.dom(),
            res@.no_duplicates(),
    {
        let mut res: Vec<u64> = Vec::new();
        let ghost keys = spec_keys_iter(&self.client_to_godot).remaining().unref();
        for k in it: self.client_to_godot.keys()
            invariant
                it.seq().unref() == keys,
                res@ == keys.take(it.index()),
        {
            assert(keys.take(it.index() + 1) =~= keys.take(it.index()).push(*k));
            res.push(*k);
        }
        assert(res@ =~= keys);
        res
    }

    /// The peer id of a client, if it is in the room.
    pub fn client_to_gd(&self, client_id: u64) -> (res: Option<i32>)
        ensures
            res == self@.peers.get(client_id),
    {
        match self.client_to_godot.get(&client_id) {
            Some(p) => Some(*p),
            None => None,
        }
    }

    /// The client behind a peer id, if that id is in use.
    pub fn gd_to_client(&self, godot_id: i32) -> (res: Option<u64>)
        ensures
            res == self@.peer_clients.get(godot_id),
    {
        match self.godot_to_client.get(&godot_id) {
            Some(c) => Some(*c),
            None => None,
        }
    }

    /// Whether another peer id can be handed out without overflowing `i32`.
    pub fn has_peer_capacity(&self) -> (res: bool)
        ensures
            res == (self@.next_peer < i32::MAX),
    {
        self.next_godot_id < i32::MAX
    }

    /// The client that created the room.
    pub fn get_host(&self) -> (res: u64)
        ensures
            res == self@.host,
    {
        self.host_id
    }

    /// Takes a client out of the room, with its peer id; a client not in the
    /// room leaves it unchanged.
    pub fn remove_peer(&mut self, renet_id: u64)
        requires
            old(self).wf(),
        ensures
            final(self).wf(),
            final(self)@.peers == old(self)@.peers.remove(renet_id),
            final(self)@.peer_clients == if old(self)@.peers.contains_key(renet_id) {
                old(self)@.peer_clients.remove(old(self)@.peers[renet_id])
            } else {
                old(self)@.peer_clients
            },
            final(self)@.next_peer == old(self)@.next_peer,
            final(self)@.same_but_peers(old(self)@),
            old(self)@.peer_maps_inverse() ==> final(self)@.peer_maps_inverse(),
    {
        let peer_id = match self.client_to_godot.remove(&renet_id) {
            Some(p) => p,
            None => {
                assert(self.client_to_godot@ =~= old(self).client_to_godot@);
                return;
            },
        };
        self.godot_to_client.remove(&peer_id);
        proof {
            let old_v = old(self)@;
            let v = self@;
            assert forall|c: u64| #[trigger] v.peers.contains_key(c) implies {
                &&& 1 <= v.peers[c] < v.next_peer
                &&& v.peer_clients.contains_key(v.peers[c])
                &&& v.peer_clients[v.peers[c]] == c
            } by {
                assert(old_v.peers.contains_key(c));
                assert(old_v.peers.contains_key(renet_id));
                assert(old_v.peer_clients[old_v.peers[renet_id]] == renet_id);
            }
            assert forall|p: i32| #[trigger] v.peer_clients.contains_key(p) implies 1 <= p
                < v.next_peer by {
                assert(old_v.peer_clients.contains_key(p));
            }
            if old_v.peer_maps_inverse() {
                assert forall|p: i32| #[trigger] v.peer_clients.contains_key(p) implies {
                    &&& v.peers.contains_key(v.peer_clients[p])
                    &&& v.peers[v.peer_clients[p]] == p
                } by {
                    assert(old_v.peer_clients.contains_key(p));
                    assert(old_v.peers.contains_key(old_v.peer_clients[p]));
                    assert(old_v.peer_clients[p] != renet_id);
                }
            }
        }
    }
}

// ---------------------------------------------------------------------------
// The rooms of an application
// ---------------------------------------------------------------------------

/// The rooms of one application, found by id or by join code.
pub struct Rooms {
    by_id: HashMap<u64, Room>,
    jc_to_id: StringHashMap<u64>,
    next_id: u64,
    join_codes: RoomIds,
}

/// A [`Rooms`] as mathematics.
pub struct RoomsView {
    /// Each room, by id.
    pub rooms: Map<u64, RoomView>,
    /// The id of the room behind each join code.
    pub codes: Map<Seq<char>, u64>,
    /// The join codes in use.
    pub used: Set<Seq<char>>,
    /// The id the next room will get.
    pub next_id: u64,
}

impl RoomsView {
    /// Each room sits under its own id, below the next id, and is well
    /// formed; its join code leads back to it; every join code leads to a
    /// room with that code; and the codes in use are exactly those of the rooms.
    pub open spec fn wf(self) -> bool {
        &&& self.used.finite()
        &&& self.used == self.codes.dom()
        &&& forall|id: u64| #[trigger]
            self.rooms.contains_key(id) ==> {
                &&& self.rooms[id].id == id
                &&& id < self.next_id
                &&& self.rooms[id].wf()
                &&& self.codes.contains_key(self.rooms[id].join_code)
                &&& self.codes[self.rooms[id].join_code] == id
            }
        &&& forall|jc: Seq<char>| #[trigger]
            self.codes.contains_key(jc) ==> {
                &&& self.rooms.contains_key(self.codes[jc])
                &&& self.rooms[self.codes[jc]].join_code == jc
            }
    }

    /// The room behind a join code.
    pub open spec fn room_by_code(self, jc: Seq<char>) -> Option<RoomView> {
        if self.codes.contains_key(jc) {
            Some(self.rooms[self.codes[jc]])
        } else {
            None
        }
    }
}

impl View for Rooms {
    type V = RoomsView;

    closed spec fn view(&self) -> RoomsView {
        RoomsView {
            rooms: rooms_view_of(self.by_id@),
            codes: self.jc_to_id@,
            used: self.join_codes@,
            next_id: self.next_id,
        }
    }
}

/// Putting a well-formed room under an id whose join code already leads to
/// that id keeps the rooms well formed, whatever else the room holds.
proof fn lemma_put_room_keeps_wf(v: RoomsView, id: u64, jc: Seq<char>)
    requires
        v.used.finite(),
        v.used == v.codes.dom(),
        id < v.next_id,
        v.codes.contains_key(jc),
        v.codes[jc] == id,
        forall|i: u64| #[trigger]
            v.rooms.contains_key(i) && i != id ==> {
                &&& v.rooms[i].id == i
                &&& i < v.next_id
                &&& v.rooms[i].wf()
                &&& v.codes.contains_key(v.rooms[i].join_code)
                &&& v.codes[v.rooms[i].join_code] == i
            },
        forall|c: Seq<char>| #[trigger]
            v.codes.contains_key(c) && c != jc ==> {
                &&& v.rooms.contains_key(v.codes[c])
                &&& v.codes[c] != id
                &&& v.rooms[v.codes[c]].join_code == c
            },
    ensures
        forall|r: RoomView|
            r.id == id && r.join_code == jc && r.wf() ==> (RoomsView {
                rooms: #[trigger] v.rooms.insert(id, r),
                ..v
            }).wf(),
{
}

/// The views of a map of rooms.
pub open spec fn rooms_view_of(m: Map<u64, Room>) -> Map<u64, RoomView> {
    m.map_values(|r: Room| r@)
}

/// The view of a map of rooms after an insertion.
proof fn lemma_view_insert(m: Map<u64, Room>, id: u64)
    ensures
        forall|r: Room| #[trigger]
            rooms_view_of(m.insert(id, r)) == rooms_view_of(m).insert(id, r@),
{
    assert forall|r: Room| #[trigger]
        rooms_view_of(m.insert(id, r)) == rooms_view_of(m).insert(id, r@) by {
        assert(rooms_view_of(m.insert(id, r)) =~= rooms_view_of(m).insert(id, r@));
    }
}

impl Rooms {
    /// See [`RoomsView::wf`].
    pub open spec fn wf(&self) -> bool {
        self@.wf()
    }

    /// Ties the view of the rooms to the map that holds them.
    proof fn lemma_view_rooms(&self)
        ensures
            self@.rooms.dom() == self.by_id@.dom(),
            forall|id: u64| #[trigger]
                self.by_id@.contains_key(id) ==> self@.rooms[id] == self.by_id@[id]@,
    {
        assert(self@.rooms.dom() =~= self.by_id@.dom());
    }

    /// No room yet.
    pub fn new() -> (res: Self)
        ensures
            res.wf(),
            res@.rooms == Map::<u64, RoomView>::empty(),
            res@.codes == Map::<Seq<char>, u64>::empty(),
            res@.next_id == 0,
    {
        let res = Rooms {
            by_id: HashMap::new(),
            jc_to_id: StringHashMap::new(),
            next_id: 0,
            join_codes: RoomIds::new(),
        };
        assert(res@.rooms =~= Map::<u64, RoomView>::empty());
        assert(res@.used =~= res@.codes.dom());
        res
    }

    /// Creates a room hosted by `host_id` under the next id and a fresh join
    /// code, and returns it so that the caller can fill it in.
    pub fn create(&mut self, host_id: u64, is_public: bool, metadata: String) -> (res: &mut Room)
        requires
            old(self).wf(),
            old(self)@.next_id < u64::MAX,
            old(self)@.codes.len() < CODE_SPACE,
        ensures
            res@ == (RoomView {
                id: old(self)@.next_id,
                join_code: res@.join_code,
                is_public,
                metadata: metadata@,
                host: host_id,
                peers: Map::empty(),
                peer_clients: Map::empty(),
                next_peer: 1,
            }),
            valid_code(res@.join_code),
            !old(self)@.rooms.contains_key(res@.id),
            !old(self)@.codes.contains_key(res@.join_code),
            final(self)@.rooms == old(self)@.rooms.insert(res@.id, final(res)@),
            final(self)@.codes == old(self)@.codes.insert(res@.join_code, res@.id),
            final(self)@.used == old(self)@.used.insert(res@.join_code),
            final(self)@.next_id == old(self)@.next_id + 1,
            (final(res)@.id == res@.id && final(res)@.join_code == res@.join_code
                && final(res).wf()) ==> final(self).wf(),
    {
        proof {
            self.lemma_view_rooms();
        }
        let room_id = self.next_id;
        self.next_id = self.next_id + 1;
        let join_code = self.join_codes.generate();
        let room = Room::new(room_id, join_code.clone(), host_id, is_public, metadata);
        self.jc_to_id.insert(join_code, room_id);
        proof {
            assert(!old(self).by_id@.contains_key(room_id));
            lemma_put_room_keeps_wf(self@, room_id, room@.join_code);
            lemma_view_insert(self.by_id@, room_id);
        }
        self.by_id.entry(room_id).or_insert(room)
    }

    /// Whether another room can be created: a room id and a join code are
    /// both left.
    pub fn has_capacity(&self) -> (res: bool)
        requires
            self.wf(),
        ensures
            res == (self@.next_id < u64::MAX && self@.codes.len() < CODE_SPACE),
    {
        self.next_id < u64::MAX && self.jc_to_id.len() < CODE_SPACE as usize
    }

    /// The room with id `id`.
    pub fn get(&self, id: u64) -> (res: Option<&Room>)
        ensures
            match res {
                Some(r) => self@.rooms.contains_key(id) && r@ == self@.rooms[id],
                None => !self@.rooms.contains_key(id),
            },
    {
        proof {
            self.lemma_view_rooms();
        }
        self.by_id.get(&id)
    }

    /// The room with id `id`, to change in place. As long as the caller keeps
    /// the room's id and join code and leaves it well formed, the rooms stay
    /// well formed.
    pub fn get_mut(&mut self, id: u64) -> (res: Option<&mut Room>)
        requires
            old(self).wf(),
        ensures
            match res {
                Some(r) => {
                    &&& old(self)@.rooms.contains_key(id)
                    &&& r@ == old(self)@.rooms[id]
                    &&& final(self)@ == (RoomsView {
                        rooms: old(self)@.rooms.insert(id, final(r)@),
                        ..old(self)@
                    })
                    &&& (final(r)@.id == id && final(r)@.join_code == r@.join_code
                        && final(r).wf()) ==> final(self).wf()
                },
                None => !old(self)@.rooms.contains_key(id) && final(self)@ == old(self)@,
            },
    {
        proof {
            self.lemma_view_rooms();
            if self.by_id@.contains_key(id) {
                let r = self.by_id@[id];
                lemma_put_room_keeps_wf(self@, id, r@.join_code);
            } else {
                assert(self.by_id@.remove(id) =~= self.by_id@);
            }
            lemma_view_insert(self.by_id@, id);
        }
        match self.by_id.entry(id) {
            Entry::Occupied(o) => Some(o.into_mut()),
            Entry::Vacant(_) => None,
        }
    }

    /// The room behind join code `jc`.
    pub fn get_by_jc(&self, jc: &str) -> (res: Option<&Room>)
        requires
            self.wf(),
        ensures
            match res {
                Some(r) => self@.room_by_code(jc@) == Some(r@),
                None => self@.room_by_code(jc@) is None,
            },
    {
        proof {
            self.lemma_view_rooms();
        }
        let id = match self.jc_to_id.get(jc) {
            Some(id) => id,
            None => return None,
        };
        self.by_id.get(id)
    }

    /// The room behind join code `jc`, to change in place; see [`Rooms::get_mut`].
    pub fn get_by_jc_mut(&mut self, jc: &str) -> (res: Option<&mut Room>)
        requires
            old(self).wf(),
        ensures
            match res {
                Some(r) => {
                    &&& old(self)@.room_by_code(jc@) == Some(r@)
                    &&& final(self)@ == (RoomsView {
                        rooms: old(self)@.rooms.insert(r@.id, final(r)@),
                        ..old(self)@
                    })
                    &&& (final(r)@.id == r@.id && final(r)@.join_code == r@.join_code
                        && final(r).wf()) ==> final(self).wf()
                },
                None => old(self)@.room_by_code(jc@) is None && final(self)@ == old(self)@,
            },
    {
        let id = match self.jc_to_id.get(jc) {
            Some(id) => *id,
            None => return None,
        };
        self.get_mut(id)
    }

    /// Removes the room with id `id` and frees its join code; returns the room.
    pub fn remove(&mut self, id: u64) -> (res: Option<Room>)
        requires
            old(self).wf(),
        ensures
            final(self).wf(),
            match res {
                Some(r) => {
                    &&& old(self)@.rooms.contains_key(id)
                    &&& r@ == old(self)@.rooms[id]
                    &&& final(self)@ == (RoomsView {
                        rooms: old(self)@.rooms.remove(id),
                        codes: old(self)@.codes.remove(r@.join_code),
                        used: old(self)@.used.remove(r@.join_code),
                        next_id: old(self)@.next_id,
                    })
                },
                None => !old(self)@.rooms.contains_key(id) && final(self)@ == old(self)@,
            },
    {
        proof {
            self.lemma_view_rooms();
        }
        let r = match self.by_id.remove(&id) {
            Some(r) => r,
            None => {
                assert(self@.rooms =~= old(self)@.rooms);
                return None;
            },
        };
        self.jc_to_id.remove(r.join_code.as_str());
        self.join_codes.free(r.join_code.as_str());
        proof {
            let old_v = old(self)@;
            let v = self@;
            assert(v.rooms =~= old_v.rooms.remove(id));
            assert(v.used =~= v.codes.dom());
            assert forall|i: u64| #[trigger] v.rooms.contains_key(i) implies {
                &&& v.rooms[i].id == i
                &&& i < v.next_id
                &&& v.rooms[i].wf()
                &&& v.codes.contains_key(v.rooms[i].join_code)
                &&& v.codes[v.rooms[i].join_code] == i
            } by {
                assert(old_v.rooms.contains_key(i));
                assert(old_v.codes[old_v.rooms[i].join_code] == i);
            }
        }
        Some(r)
    }

    /// The rooms, each once, in no particular order.
    pub fn iter(&self) -> (res: Vec<&Room>)
        requires
            self.wf(),
        ensures
            res@.len() == self@.rooms.len(),
            forall|i: int|
                0 <= i < res@.len() ==> self@.rooms.contains_key(#[trigger] res@[i]@.id)
                    && self@.rooms[res@[i]@.id] == res@[i]@,
            forall|id: u64|
                #[trigger] self@.rooms.contains_key(id) ==> exists|i: int|
                    0 <= i < res@.len() && #[trigger] res@[i]@.id == id,
            forall|i: int, j: int|
                0 <= i < res@.len() && 0 <= j < res@.len() && i != j ==> #[trigger] res@[i]@.id
                    != #[trigger] res@[j]@.id,
    {
        proof {
            self.lemma_view_rooms();
        }
        let mut res: Vec<&Room> = Vec::new();
        let ghost keys = spec_keys_iter(&self.by_id).remaining().unref();
        for k in it: self.by_id.keys()
            invariant
                self.wf(),
                it.seq().unref() == keys,
                keys.to_set() == self.by_id@.dom(),
                keys.no_duplicates(),
                res@.len() == it.index(),
                forall|i: int| 0 <= i < it.index() ==> (#[trigger] res@[i])@ == self@.rooms[keys[i]],
        {
            proof {
                assert(keys.contains(keys[it.index()]));
                self.lemma_view_rooms();
            }
            let v = self.by_id.get(k).unwrap();
            res.push(v);
        }
        proof {
            self.lemma_view_rooms();
            assert(res@.len() == keys.len());
            assert forall|i: int| 0 <= i < res@.len() implies self@.rooms.contains_key(
                #[trigger] res@[i]@.id,
            ) && self@.rooms[res@[i]@.id] == res@[i]@ by {
                let id = keys[i];
                assert(keys.contains(id));
                assert(self@.rooms.contains_key(id));
                assert(res@[i]@ == self@.rooms[id]);
                assert(self@.rooms[id].id == id);
            }
            assert forall|id: u64| #[trigger] self@.rooms.contains_key(id) implies exists|i: int|
                0 <= i < res@.len() && #[trigger] res@[i]@.id == id by {
                assert(keys.to_set().contains(id));
                let i = choose|i: int| 0 <= i < keys.len() && keys[i] == id;
                assert(res@[i]@.id == id);
            }
            assert forall|i: int, j: int|
                0 <= i < res@.len() && 0 <= j < res@.len() && i != j implies #[trigger] res@[i]@.id
                != #[trigger] res@[j]@.id by {
                assert(keys.contains(keys[i]));
                assert(keys.contains(keys[j]));
            }
            assert(self@.rooms.dom() =~= keys.to_set());
            keys.unique_seq_to_set();
        }
        res
    }
}

// ---------------------------------------------------------------------------
// Laws
// ---------------------------------------------------------------------------

/// In a well-formed room, the peer id of each client leads back to that
/// client, and two clients never share a peer id.
pub proof fn lemma_peer_ids_lead_back(r: RoomView, c1: u64, c2: u64)
    requires
        r.wf(),
        r.peers.contains_key(c1),
    ensures
        r.peer_clients.get(r.peers[c1]) == Some(c1),
        r.peers.contains_key(c2) && c1 != c2 ==> r.peers[c1] != r.peers[c2],
{
    if r.peers.contains_key(c2) && c1 != c2 {
        assert(r.peer_clients[r.peers[c2]] == c2);
    }
}

/// In a room whose peer maps are inverse, a peer id leads to a client
/// exactly when that client has that peer id.
pub proof fn lemma_peer_maps_are_inverse(r: RoomView, g: i32, c: u64)
    requires
        r.wf(),
        r.peer_maps_inverse(),
    ensures
        r.peer_clients.get(g) == Some(c) <==> r.peers.get(c) == Some(g),
{
    if r.peers.contains_key(c) {
        assert(r.peer_clients.contains_key(r.peers[c]));
    }
    if r.peer_clients.contains_key(g) {
        assert(r.peers.contains_key(r.peer_clients[g]));
    }
}

/// The peer id a room hands out next is above every peer id in use.
pub proof fn lemma_next_peer_is_fresh(r: RoomView, c: u64, p: i32)
    requires
        r.wf(),
    ensures
        r.peers.contains_key(c) ==> r.peers[c] < r.next_peer,
        r.peer_clients.contains_key(p) ==> p < r.next_peer,
{
}

/// In well-formed rooms, a room's join code finds that room.
pub proof fn lemma_code_finds_room(v: RoomsView, id: u64)
    requires
        v.wf(),
        v.rooms.contains_key(id),
    ensures
        v.room_by_code(v.rooms[id].join_code) == Some(v.rooms[id]),
{
}

/// In well-formed rooms, two different rooms never share a join code.
pub proof fn lemma_join_codes_unique(v: RoomsView, id1: u64, id2: u64)
    requires
        v.wf(),
        v.rooms.contains_key(id1),
        v.rooms.contains_key(id2),
        id1 != id2,
    ensures
        v.rooms[id1].join_code != v.rooms[id2].join_code,
{
    assert(v.codes[v.rooms[id1].join_code] == id1);
    assert(v.codes[v.rooms[id2].join_code] == id2);
}

/// After a room is removed, neither its id nor its join code finds a room,
/// and its join code is free to be handed out again.
pub proof fn lemma_removed_room_gone(before: RoomsView, after: RoomsView, id: u64)
    requires
        before.wf(),
        before.rooms.contains_key(id),
        after == (RoomsView {
            rooms: before.rooms.remove(id),
            codes: before.codes.remove(before.rooms[id].join_code),
            used: before.used.remove(before.rooms[id].join_code),
            next_id: before.next_id,
        }),
    ensures
        !after.rooms.contains_key(id),
        after.room_by_code(before.rooms[id].join_code) is None,
        !after.used.contains(before.rooms[id].join_code),
{
}

} // verus!
