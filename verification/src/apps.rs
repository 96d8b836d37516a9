//! Applications known to the relay: each has an id, the token its clients
//! authenticate with, and its own rooms.

use std::collections::hash_map::Entry;
use std::collections::HashMap;

use vstd::hash_map::StringHashMap;
use vstd::prelude::*;
use vstd::std_specs::hash::spec_keys_iter;
use vstd::std_specs::iter::IteratorSpec;

use crate::rooms::Rooms;
use crate::rooms::RoomsView;

verus! {

broadcast use vstd::std_specs::hash::group_hash_axioms;

/// An application: its id, its token and its rooms.
pub struct App {
    pub id: u64,
    pub token: String,
    pub rooms: Rooms,
}

/// An [`App`] as mathematics.
pub struct AppView {
    pub id: u64,
    pub token: Seq<char>,
    pub rooms: RoomsView,
}

impl View for App {
    type V = AppView;

    open spec fn view(&self) -> AppView {
        AppView { id: self.id, token: self.token@, rooms: self.rooms@ }
    }
}

impl App {
    /// An application with no room yet.
    pub fn new(id: u64, token: String) -> (res: Self)
        ensures
            res.rooms.wf(),
            res@.id == id,
            res@.token == token@,
            res@.rooms.rooms == Map::<u64, crate::rooms::RoomView>::empty(),
            res@.rooms.codes == Map::<Seq<char>, u64>::empty(),
            res@.rooms.next_id == 0,
    {
        App { id, token, rooms: Rooms::new() }
    }
}

/// The applications, found by id or by token.
pub struct Apps {
    by_id: HashMap<u64, App>,
    token_to_id: StringHashMap<u64>,
    next_id: u64,
}

/// An [`Apps`] as mathematics.
pub struct AppsView {
    /// Each application, by id.
    pub apps: Map<u64, AppView>,
    /// The id of the application a token was last given to.
    pub tokens: Map<Seq<char>, u64>,
    /// The id the next application will get.
    pub next_id: u64,
}

impl AppsView {
    /// The ids in use are exactly those below the next id, since no
    /// application is ever removed; each application sits under its own id
    /// with well-formed rooms; each token leads to an application holding
    /// that token.
    pub open spec fn wf(self) -> bool {
        &&& forall|id: u64| #[trigger] self.apps.contains_key(id) <==> id < self.next_id
        &&& forall|id: u64| #[trigger]
            self.apps.contains_key(id) ==> {
                &&& self.apps[id].id == id
                &&& self.apps[id].rooms.wf()
            }
        &&& forall|t: Seq<char>| #[trigger]
            self.tokens.contains_key(t) ==> {
                &&& self.apps.contains_key(self.tokens[t])
                &&& self.apps[self.tokens[t]].token == t
            }
    }

    /// The application a token leads to.
    pub open spec fn app_by_token(self, t: Seq<char>) -> Option<AppView> {
        if self.tokens.contains_key(t) {
            Some(self.apps[self.tokens[t]])
        } else {
            None
        }
    }
}

/// The views of a map of applications.
pub open spec fn apps_view_of(m: Map<u64, App>) -> Map<u64, AppView> {
    m.map_values(|a: App| a@)
}

/// The view of a map of applications after an insertion.
proof fn lemma_view_insert(m: Map<u64, App>, id: u64)
    ensures
        forall|a: App| #[trigger] apps_view_of(m.insert(id, a)) == apps_view_of(m).insert(id, a@),
{
    assert forall|a: App| #[trigger] apps_view_of(m.insert(id, a)) == apps_view_of(m).insert(
        id,
        a@,
    ) by {
        assert(apps_view_of(m.insert(id, a)) =~= apps_view_of(m).insert(id, a@));
    }
}

/// Putting, under an id in use, an application that keeps that id and its
/// token and has well-formed rooms keeps the applications well formed.
proof fn lemma_put_app_keeps_wf(v: AppsView, id: u64)
    requires
        v.wf(),
        v.apps.contains_key(id),
    ensures
        forall|a: AppView|
            a.id == id && a.token == v.apps[id].token && a.rooms.wf() ==> (AppsView {
                apps: #[trigger] v.apps.insert(id, a),
                ..v
            }).wf(),
{
}

impl View for Apps {
    type V = AppsView;

    closed spec fn view(&self) -> AppsView {
        AppsView {
            apps: apps_view_of(self.by_id@),
            tokens: self.token_to_id@,
            next_id: self.next_id,
        }
    }
}

impl Apps {
    /// See [`AppsView::wf`].
    pub open spec fn wf(&self) -> bool {
        self@.wf()
    }

    /// Ties the view of the applications to the map that holds them.
    proof fn lemma_view_apps(&self)
        ensures
            self@.apps.dom() == self.by_id@.dom(),
            forall|id: u64| #[trigger]
                self.by_id@.contains_key(id) ==> self@.apps[id] == self.by_id@[id]@,
    {
        assert(self@.apps.dom() =~= self.by_id@.dom());
    }

    /// No application yet.
    pub fn new() -> (res: Self)
        ensures
            res.wf(),
            res@.apps == Map::<u64, AppView>::empty(),
            res@.tokens == Map::<Seq<char>, u64>::empty(),
            res@.next_id == 0,
    {
        let res = Apps { by_id: HashMap::new(), token_to_id: StringHashMap::new(), next_id: 0 };
        assert(res@.apps =~= Map::<u64, AppView>::empty());
        res
    }

    /// Registers an application with `token` under the next id, and returns
    /// that id. The token now leads to the new application.
    pub fn create(&mut self, token: String) -> (res: u64)
        requires
            old(self).wf(),
            old(self)@.next_id < u64::MAX,
        ensures
            final(self).wf(),
            res == old(self)@.next_id,
            !old(self)@.apps.contains_key(res),
            final(self)@.next_id == res + 1,
            final(self)@.tokens == old(self)@.tokens.insert(token@, res),
            final(self)@.apps.dom() == old(self)@.apps.dom().insert(res),
            final(self)@.apps[res].id == res,
            final(self)@.apps[res].token == token@,
            final(self)@.apps[res].rooms.rooms == Map::<u64, crate::rooms::RoomView>::empty(),
            final(self)@.apps[res].rooms.codes == Map::<Seq<char>, u64>::empty(),
            final(self)@.apps[res].rooms.next_id == 0,
            forall|id: u64| #[trigger]
                old(self)@.apps.contains_key(id) ==> final(self)@.apps[id] == old(self)@.apps[id],
    {
        proof {
            self.lemma_view_apps();
        }
        let app_id = self.next_id;
        self.next_id = self.next_id + 1;
        let app = App::new(app_id, token.clone());
        proof {
            lemma_view_insert(self.by_id@, app_id);
        }
        self.by_id.insert(app_id, app);
        self.token_to_id.insert(token, app_id);
        proof {
            let v = self@;
            assert forall|t: Seq<char>| #[trigger] v.tokens.contains_key(t) implies {
                &&& v.apps.contains_key(v.tokens[t])
                &&& v.apps[v.tokens[t]].token == t
            } by {
                if t != token@ {
                    assert(old(self)@.tokens.contains_key(t));
                }
            }
        }
        app_id
    }

    /// The applications, each once, in no particular order.
    pub fn iter(&self) -> (res: Vec<&App>)
        requires
            self.wf(),
        ensures
            res@.len() == self@.apps.len(),
            forall|i: int|
                0 <= i < res@.len() ==> self@.apps.contains_key(#[trigger] res@[i]@.id)
                    && self@.apps[res@[i]@.id] == res@[i]@,
            forall|id: u64|
                #[trigger] self@.apps.contains_key(id) ==> exists|i: int|
                    0 <= i < res@.len() && #[trigger] res@[i]@.id == id,
            forall|i: int, j: int|
                0 <= i < res@.len() && 0 <= j < res@.len() && i != j ==> #[trigger] res@[i]@.id
                    != #[trigger] res@[j]@.id,
    {
        proof {
            self.lemma_view_apps();
        }
        let mut res: Vec<&App> = Vec::new();
        let ghost keys = spec_keys_iter(&self.by_id).remaining().unref();
        for k in it: self.by_id.keys()
            invariant
                self.wf(),
                it.seq().unref() == keys,
                keys.to_set() == self.by_id@.dom(),
                keys.no_duplicates(),
                res@.len() == it.index(),
                forall|i: int| 0 <= i < it.index() ==> (#[trigger] res@[i])@ == self@.apps[keys[i]],
        {
            proof {
                assert(keys.contains(keys[it.index()]));
                self.lemma_view_apps();
            }
            let v = self.by_id.get(k).unwrap();
            res.push(v);
        }
        proof {
            self.lemma_view_apps();
            assert(res@.len() == keys.len());
            assert forall|i: int| 0 <= i < res@.len() implies self@.apps.contains_key(
                #[trigger] res@[i]@.id,
            ) && self@.apps[res@[i]@.id] == res@[i]@ by {
                let id = keys[i];
                assert(keys.contains(id));
                assert(self@.apps.contains_key(id));
                assert(res@[i]@ == self@.apps[id]);
                assert(self@.apps[id].id == id);
            }
            assert forall|id: u64| #[trigger] self@.apps.contains_key(id) implies exists|i: int|
                0 <= i < res@.len() && #[trigger] res@[i]@.id == id by {
                assert(keys.to_set().contains(id));
                let i = choose|i: int| 0 <= i < keys.len() && keys[i] == id;
                assert(res@[i]@.id == id);
            }
            assert forall|i: int, j: int|
                0 <= i < res@.len() && 0 <= j < res@.len() && i != j implies #[trigger] res@[i]@.id
                != #[trigger] res@[j]@.id by {
                assert(keys.contains(keys[i]));
                assert(keys.contains(keys[j]));
            }
            assert(self@.apps.dom() =~= keys.to_set());
            keys.unique_seq_to_set();
        }
        res
    }

    /// The application with id `id`, to change in place. As long as the
    /// caller keeps its id and token and its rooms well formed, the
    /// applications stay well formed.
    pub fn get_mut(&mut self, id: u64) -> (res: Option<&mut App>)
        requires
            old(self).wf(),
        ensures
            match res {
                Some(a) => {
                    &&& old(self)@.apps.contains_key(id)
                    &&& a@ == old(self)@.apps[id]
                    &&& final(self)@ == (AppsView {
                        apps: old(self)@.apps.insert(id, final(a)@),
                        ..old(self)@
                    })
                    &&& (final(a)@.id == id && final(a)@.token == a@.token
                        && final(a)@.rooms.wf()) ==> final(self).wf()
                },
                None => !old(self)@.apps.contains_key(id) && final(self)@ == old(self)@,
            },
    {
        proof {
            self.lemma_view_apps();
            if self.by_id@.contains_key(id) {
                lemma_put_app_keeps_wf(self@, id);
            } else {
                assert(self.by_id@.remove(id) =~= self.by_id@);
            }
            lemma_view_insert(self.by_id@, id);
        }
        match self.by_id.entry(id) {
            Entry::Occupied(o) => Some(o.into_mut()),
            Entry::Vacant(_) => None,
        }
    }

    /// The application that `token` leads to.
    pub fn get_by_token(&self, token: &str) -> (res: Option<&App>)
        requires
            self.wf(),
        ensures
            match res {
                Some(a) => self@.app_by_token(token@) == Some(a@),
                None => self@.app_by_token(token@) is None,
            },
    {
        proof {
            self.lemma_view_apps();
        }
        let id = match self.token_to_id.get(token) {
            Some(id) => id,
            None => return None,
        };
        self.by_id.get(id)
    }
}

/// After an application is registered with a token, the token finds that
/// application: its new id, with the token and no room.
pub proof fn lemma_token_finds_created_app(
    before: AppsView,
    after: AppsView,
    token: Seq<char>,
    id: u64,
)
    requires
        after.wf(),
        after.tokens == before.tokens.insert(token, id),
        after.apps.contains_key(id),
        after.apps[id].id == id,
        after.apps[id].token == token,
        after.apps[id].rooms.rooms == Map::<u64, crate::rooms::RoomView>::empty(),
    ensures
        after.app_by_token(token) matches Some(a) && a.id == id && a.token == token
            && a.rooms.rooms.len() == 0,
{
}

/// The ids in use are exactly those below the next id: an application
/// registered is never removed, so `get_mut` finds every id handed out.
pub proof fn lemma_app_ids_dense(v: AppsView, id: u64)
    requires
        v.wf(),
    ensures
        v.apps.contains_key(id) <==> id < v.next_id,
{
}

/// The tokens after registering applications with the tokens `ts`, in
/// order, starting with none: each token leads to the id of the last
/// registration with it, ids being handed out from 0.
pub open spec fn tokens_after(ts: Seq<Seq<char>>) -> Map<Seq<char>, u64>
    decreases ts.len(),
{
    if ts.len() == 0 {
        Map::empty()
    } else {
        tokens_after(ts.drop_last()).insert(ts.last(), (ts.len() - 1) as u64)
    }
}

/// The applications are those that registering the tokens `ts`, in order,
/// from none, gives: the next id counts them and the tokens are as
/// [`tokens_after`] says.
pub open spec fn registered(v: AppsView, ts: Seq<Seq<char>>) -> bool {
    &&& v.next_id == ts.len()
    &&& v.tokens == tokens_after(ts)
}

/// No application yet is the outcome of no registration.
pub proof fn lemma_registered_new(v: AppsView)
    requires
        v.tokens == Map::<Seq<char>, u64>::empty(),
        v.next_id == 0,
    ensures
        registered(v, Seq::empty()),
{
}

/// Registering one more token, as `Apps::create` does, extends the history
/// by that token.
pub proof fn lemma_registered_create(
    before: AppsView,
    after: AppsView,
    ts: Seq<Seq<char>>,
    token: Seq<char>,
)
    requires
        registered(before, ts),
        after.next_id == before.next_id + 1,
        after.tokens == before.tokens.insert(token, before.next_id),
    ensures
        registered(after, ts.push(token)),
{
    assert(ts.push(token).drop_last() =~= ts);
}

/// A token is in [`tokens_after`] exactly when it was registered, and then
/// leads to the index of its last registration.
proof fn lemma_tokens_after(ts: Seq<Seq<char>>, t: Seq<char>)
    requires
        ts.len() <= u64::MAX,
    ensures
        tokens_after(ts).contains_key(t) <==> ts.contains(t),
        ts.contains(t) ==> {
            let k = tokens_after(ts)[t];
            &&& k < ts.len()
            &&& ts[k as int] == t
            &&& forall|j: int| k < j < ts.len() ==> ts[j] != t
        },
    decreases ts.len(),
{
    if ts.len() > 0 {
        let init = ts.drop_last();
        lemma_tokens_after(init, t);
        if ts.last() == t {
            assert(ts[ts.len() - 1] == t);
        } else {
            if ts.contains(t) {
                let m = choose|m: int| 0 <= m < ts.len() && ts[m] == t;
                assert(init[m] == t);
            }
            if init.contains(t) {
                let m = choose|m: int| 0 <= m < init.len() && init[m] == t;
                assert(ts[m] == t);
                let k = tokens_after(init)[t];
                assert(tokens_after(ts)[t] == k);
                assert(ts[k as int] == init[k as int]);
                assert forall|j: int| k < j < ts.len() implies ts[j] != t by {
                    if j < init.len() {
                        assert(ts[j] == init[j]);
                    }
                }
            }
        }
    }
}

/// Over any history of registrations from no application: a token finds
/// no application exactly when it was never registered, and otherwise finds
/// the application of its last registration, which holds that token.
pub proof fn lemma_token_history(v: AppsView, ts: Seq<Seq<char>>, t: Seq<char>)
    requires
        v.wf(),
        registered(v, ts),
    ensures
        v.app_by_token(t) is None <==> !ts.contains(t),
        ts.contains(t) ==> (v.app_by_token(t) matches Some(a) && {
            &&& a.token == t
            &&& a.id < ts.len()
            &&& ts[a.id as int] == t
            &&& forall|j: int| a.id < j < ts.len() ==> ts[j] != t
        }),
{
    lemma_tokens_after(ts, t);
    if ts.contains(t) {
        let id = v.tokens[t];
        assert(v.apps.contains_key(id));
        assert(v.apps[id].id == id);
    }
}

} // verus!
