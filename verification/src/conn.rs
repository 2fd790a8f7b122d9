//! Room connection manager.
//!
//! Each logical connection moves through `Connecting`, `Authenticated`,
//! `InRoom` and the terminal `Disconnected`; it sits in at most one room at
//! a time, and joining another room evicts the previous one first.  Every
//! in-room event handler demands that the connection is in a room: firing
//! one without a room is a contract violation of the caller, not a
//! recoverable error.  Handlers return the broadcasts they would emit; a
//! broadcast names its room and, for the disconnect presence event alone,
//! excludes its sender.

use vstd::pervasive::VecAdditionalExecFns;
use vstd::prelude::*;
use vstd::string::*;

use crate::auth::authenticate;
use crate::auth::spec_authenticate;
use crate::auth::TokenClaims;
use crate::cache::CacheStore;
use crate::errors::AppError;
use crate::keys::lemma_key_families_disjoint;
use crate::keys::lemma_msgs_key_injective;
use crate::keys::spec_msgs_key;
use crate::keys::spec_status_key;
use crate::models::Message;
use crate::models::MessageType;
use crate::models::UserRole;
use crate::msg_store::append;
use crate::msg_store::room_cache_wf;
use crate::presence::is_online;
use crate::presence::set_offline;
use crate::presence::set_online;
use crate::presence::spec_is_online;
use crate::presence::spec_online_entry;
use crate::store::groups_has;
use crate::store::ms_has;
use crate::store::spec_role_of;
use crate::store::spec_user_by_username;
use crate::store::spec_username_of;
use crate::store::users_has;
use crate::store::DurableStore;

verus! {

/// Phase of a logical connection.
#[derive(Clone, Copy, PartialEq, Eq, Structural, Debug)]
pub enum ConnPhase {
    Connecting,
    Authenticated,
    InRoom,
    Disconnected,
}

/// One logical connection and its state.
pub struct Connection {
    pub conn_id: u64,
    pub user_id: String,
    pub username: String,
    pub phase: ConnPhase,
    pub room: Option<String>,
}

/// Phase and room agree: a connection is `InRoom` exactly when it holds a
/// room.
pub open spec fn conn_ok(c: Connection) -> bool {
    c.phase is InRoom <==> c.room is Some
}

/// A broadcast payload, one variant per event kind.
#[derive(Debug, PartialEq)]
pub enum ServerEvent {
    UOnline { username: String },
    UOffline { username: String },
    MessageEvt { id: u64, sender: String, content: String, date: u64 },
    AddUser { username: String, actor: String, is_online: bool },
    LeaveEvt { username: String },
    Kick { username: String, actor: String },
    TypeStart { username: String },
    TypeStop { username: String },
}

impl ServerEvent {
    /// The wire name of the event.
    pub fn name(&self) -> (r: &'static str)
        ensures
            *self is UOnline ==> r@ == "u_online"@,
            *self is UOffline ==> r@ == "u_offline"@,
            *self is MessageEvt ==> r@ == "message"@,
            *self is AddUser ==> r@ == "add_user"@,
            *self is LeaveEvt ==> r@ == "leave"@,
            *self is Kick ==> r@ == "kick"@,
            *self is TypeStart ==> r@ == "type_start"@,
            *self is TypeStop ==> r@ == "type_stop"@,
    {
        match self {
            ServerEvent::UOnline { .. } => "u_online",
            ServerEvent::UOffline { .. } => "u_offline",
            ServerEvent::MessageEvt { .. } => "message",
            ServerEvent::AddUser { .. } => "add_user",
            ServerEvent::LeaveEvt { .. } => "leave",
            ServerEvent::Kick { .. } => "kick",
            ServerEvent::TypeStart { .. } => "type_start",
            ServerEvent::TypeStop { .. } => "type_stop",
        }
    }
}

/// One broadcast: a room, a payload, and at most one excluded connection.
#[derive(Debug, PartialEq)]
pub struct Emit {
    pub room: String,
    pub event: ServerEvent,
    pub exclude: Option<u64>,
}

/// Whether the connection `cid` is delivered the broadcast `e`: it must be
/// in the broadcast's room and not be excluded.
pub open spec fn spec_receives(cs: Seq<Connection>, cid: u64, e: Emit) -> bool {
    exists|i: int|
        0 <= i < cs.len() && cs[i].conn_id == cid && cs[i].phase is InRoom && (
        cs[i].room matches Some(r) && r@ == e.room@) && e.exclude != Some(cid)
}

/// Whether some connection carries the id `cid`.
pub open spec fn conns_has(cs: Seq<Connection>, cid: u64) -> bool {
    exists|i: int| 0 <= i < cs.len() && cs[i].conn_id == cid
}

/// Index of the connection carrying `cid`.
pub open spec fn conns_idx(cs: Seq<Connection>, cid: u64) -> int {
    choose|i: int| 0 <= i < cs.len() && cs[i].conn_id == cid
}

/// Distinctness of connection ids.
pub open spec fn conns_uniq(cs: Seq<Connection>) -> bool {
    forall|i: int, j: int| 0 <= i < j < cs.len() ==> cs[i].conn_id != cs[j].conn_id
}

/// The connection carrying `cid`.
pub open spec fn spec_conn(cs: Seq<Connection>, cid: u64) -> Connection {
    cs[conns_idx(cs, cid)]
}

proof fn lemma_conns_idx_agrees(cs: Seq<Connection>, i: int)
    requires
        conns_uniq(cs),
        0 <= i < cs.len(),
    ensures
        conns_has(cs, cs[i].conn_id),
        conns_idx(cs, cs[i].conn_id) == i,
        spec_conn(cs, cs[i].conn_id) == cs[i],
{
    assert(conns_has(cs, cs[i].conn_id));
    let j = conns_idx(cs, cs[i].conn_id);
    if j != i {
        assert(false);
    }
}

/// Appending a connection with a fresh id adds exactly that connection.
proof fn lemma_conns_push(cs: Seq<Connection>, c: Connection)
    requires
        conns_uniq(cs),
        !conns_has(cs, c.conn_id),
    ensures
        conns_uniq(cs.push(c)),
        conns_has(cs.push(c), c.conn_id),
        spec_conn(cs.push(c), c.conn_id) == c,
        forall|id: u64| id != c.conn_id ==> (#[trigger] conns_has(cs.push(c), id) == conns_has(
            cs,
            id,
        )) && (conns_has(cs, id) ==> spec_conn(cs.push(c), id) == spec_conn(cs, id)),
{
    let post = cs.push(c);
    assert(post[cs.len() as int] == c);
    assert forall|i: int, j: int| 0 <= i < j < post.len() implies post[i].conn_id
        != post[j].conn_id by {
        if j < cs.len() {
            assert(post[i] == cs[i] && post[j] == cs[j]);
        } else {
            assert(post[j] == c && post[i] == cs[i]);
            assert(conns_has(cs, cs[i].conn_id));
        }
    }
    lemma_conns_idx_agrees(post, cs.len() as int);
    assert forall|id: u64| id != c.conn_id implies (#[trigger] conns_has(post, id) == conns_has(
        cs,
        id,
    )) && (conns_has(cs, id) ==> spec_conn(post, id) == spec_conn(cs, id)) by {
        if conns_has(post, id) {
            let i = choose|i: int| 0 <= i < post.len() && post[i].conn_id == id;
            assert(i < cs.len());
            assert(cs[i].conn_id == id);
        }
        if conns_has(cs, id) {
            let i = conns_idx(cs, id);
            assert(post[i].conn_id == id);
            lemma_conns_idx_agrees(cs, i);
            lemma_conns_idx_agrees(post, i);
        }
    }
}

/// Replacing the connection at `i` by one with the same id changes exactly
/// that connection.
proof fn lemma_conns_update(cs: Seq<Connection>, i: int, c: Connection)
    requires
        conns_uniq(cs),
        0 <= i < cs.len(),
        c.conn_id == cs[i].conn_id,
    ensures
        conns_uniq(cs.update(i, c)),
        conns_has(cs.update(i, c), c.conn_id),
        spec_conn(cs.update(i, c), c.conn_id) == c,
        forall|id: u64| id != c.conn_id ==> (#[trigger] conns_has(cs.update(i, c), id) == conns_has(
            cs,
            id,
        )) && (conns_has(cs, id) ==> spec_conn(cs.update(i, c), id) == spec_conn(cs, id)),
{
    let post = cs.update(i, c);
    assert forall|a: int, b: int| 0 <= a < b < post.len() implies post[a].conn_id
        != post[b].conn_id by {
        assert(post[a] == if a == i {
            c
        } else {
            cs[a]
        });
        assert(post[b] == if b == i {
            c
        } else {
            cs[b]
        });
    }
    lemma_conns_idx_agrees(post, i);
    assert forall|id: u64| id != c.conn_id implies (#[trigger] conns_has(post, id) == conns_has(
        cs,
        id,
    )) && (conns_has(cs, id) ==> spec_conn(post, id) == spec_conn(cs, id)) by {
        if conns_has(post, id) {
            let a = choose|a: int| 0 <= a < post.len() && post[a].conn_id == id;
            assert(a != i);
            assert(cs[a].conn_id == id);
        }
        if conns_has(cs, id) {
            let a = conns_idx(cs, id);
            assert(cs[a].conn_id == id);
            assert(a != i);
            assert(post[a].conn_id == id);
            lemma_conns_idx_agrees(cs, a);
            lemma_conns_idx_agrees(post, a);
        }
    }
}

/// The server: the durable store, the cache, and the live connections.
pub struct ChatServer {
    pub db: DurableStore,
    pub cache: CacheStore,
    pub conns: Vec<Connection>,
    pub next_conn_id: u64,
}

/// A cache change that leaves every room's message list alone preserves
/// the room cache invariant.
proof fn lemma_room_cache_wf_same_msgs(db: DurableStore, pre: CacheStore, post: CacheStore)
    requires
        forall|r: Seq<char>| room_cache_wf(db, pre, r),
        forall|r: Seq<char>| (#[trigger] post@.dom().contains(spec_msgs_key(r))) == pre@.dom().contains(
            spec_msgs_key(r),
        ) && (pre@.dom().contains(spec_msgs_key(r)) ==> post@[spec_msgs_key(r)] == pre@[
            spec_msgs_key(r)
        ]),
    ensures
        forall|r: Seq<char>| room_cache_wf(db, post, r),
{
    assert forall|r: Seq<char>| #[trigger] room_cache_wf(db, post, r) by {
        assert(room_cache_wf(db, pre, r));
    }
}

/// After an append to one room, the invariant holds again for every room.
proof fn lemma_room_cache_wf_after_append(
    db_pre: DurableStore,
    db_post: DurableStore,
    cache_pre: CacheStore,
    cache_post: CacheStore,
    room: Seq<char>,
)
    requires
        forall|r: Seq<char>| room_cache_wf(db_pre, cache_pre, r),
        cache_post@.remove(spec_msgs_key(room)) == cache_pre@.remove(spec_msgs_key(room)),
        room_cache_wf(db_post, cache_post, room),
        db_post.last_date >= db_pre.last_date,
    ensures
        forall|r: Seq<char>| room_cache_wf(db_post, cache_post, r),
{
    assert forall|r: Seq<char>| #[trigger] room_cache_wf(db_post, cache_post, r) by {
        if r != room {
            if spec_msgs_key(r) == spec_msgs_key(room) {
                lemma_msgs_key_injective(r, room);
            }
            let k = spec_msgs_key(r);
            let k0 = spec_msgs_key(room);
            assert(cache_post@.remove(k0).dom().contains(k) == cache_pre@.remove(k0).dom().contains(
                k,
            ));
            if cache_post@.dom().contains(k) {
                assert(cache_post@[k] == cache_post@.remove(k0)[k]);
                assert(cache_pre@[k] == cache_pre@.remove(k0)[k]);
                assert(room_cache_wf(db_pre, cache_pre, r));
            }
        }
    }
}

impl ChatServer {
    pub open spec fn wf(self) -> bool {
        &&& self.db.wf()
        &&& self.cache.wf()
        &&& conns_uniq(self.conns@)
        &&& forall|i: int| 0 <= i < self.conns@.len() ==> (#[trigger] self.conns@[i].conn_id
            < self.next_conn_id && conn_ok(self.conns@[i]))
        &&& forall|r: Seq<char>| room_cache_wf(self.db, self.cache, r)
    }

    /// The connection carrying `cid`, as the contracts speak of it.
    pub open spec fn conn(self, cid: u64) -> Connection {
        spec_conn(self.conns@, cid)
    }

    /// Whether `cid` is a live connection.
    pub open spec fn has_conn(self, cid: u64) -> bool {
        conns_has(self.conns@, cid)
    }

    pub fn new() -> (r: ChatServer)
        ensures
            r.wf(),
            r.conns@.len() == 0,
            r.next_conn_id == 1,
            r.db.users@.len() == 0,
            r.db.groups@.len() == 0,
            r.db.memberships@.len() == 0,
            r.db.messages@.len() == 0,
            r.db.next_msg_id == 1,
            r.db.last_date == 0,
            r.cache@ == Map::<Seq<char>, crate::cache::EntryView>::empty(),
    {
        let r = ChatServer {
            db: DurableStore::new(),
            cache: CacheStore::new(),
            conns: Vec::new(),
            next_conn_id: 1,
        };
        r
    }

    /// Index of the connection carrying `cid`.
    fn find_conn(&self, cid: u64) -> (r: Option<usize>)
        requires
            conns_uniq(self.conns@),
        ensures
            match r {
                Some(i) => i < self.conns@.len() && self.conns@[i as int].conn_id == cid
                    && conns_has(self.conns@, cid) && conns_idx(self.conns@, cid) == i,
                None => !conns_has(self.conns@, cid),
            },
    {
        let n = self.conns.len();
        let mut i: usize = 0;
        while i < n
            invariant
                n == self.conns@.len(),
                conns_uniq(self.conns@),
                i <= n,
                forall|j: int| 0 <= j < i ==> self.conns@[j].conn_id != cid,
            decreases n - i,
        {
            if self.conns[i].conn_id == cid {
                proof {
                    lemma_conns_idx_agrees(self.conns@, i as int);
                }
                return Some(i);
            }
            i = i + 1;
        }
        None
    }

    /// The room the connection is joined to.  Calling this with no room
    /// joined is a contract violation of the caller.
    pub fn current_room(&self, cid: u64) -> (r: String)
        requires
            self.wf(),
            self.has_conn(cid),
            self.conn(cid).phase is InRoom,
        ensures
            Some(r) == self.conn(cid).room,
    {
        let i = self.find_conn(cid).unwrap();
        proof {
            lemma_conns_idx_agrees(self.conns@, i as int);
        }
        match &self.conns[i].room {
            Some(room) => room.clone(),
            None => {
                proof {
                    assert(false);
                }
                String::new()
            },
        }
    }

    /// Handshake: authenticates the presented credential, attaches the
    /// user's context, registers the connection and raises its presence
    /// flag.  `decoded` is what the collaborator's verifier made of the
    /// bare token; it is consulted only when the cache misses.  An
    /// authentication failure rejects the connection before any event
    /// handler can run; a credential whose user has no row is rejected as
    /// a missing row.
    pub fn connect(&mut self, token: Option<&str>, decoded: Option<TokenClaims>, now: u64) -> (r:
        Result<u64, AppError>)
        requires
            old(self).wf(),
            old(self).next_conn_id < u64::MAX,
        ensures
            final(self).wf(),
            final(self).db == old(self).db,
            match r {
                Ok(cid) => {
                    &&& spec_authenticate(old(self).cache, match token {
                        Some(t) => Some(t@),
                        None => None,
                    }, decoded, now) matches Ok(uid)
                    &&& users_has(old(self).db.users@, uid)
                    &&& cid == old(self).next_conn_id
                    &&& final(self).next_conn_id == old(self).next_conn_id + 1
                    &&& final(self).has_conn(cid)
                    &&& final(self).conn(cid).user_id@ == uid
                    &&& Some(final(self).conn(cid).username) == spec_username_of(
                        old(self).db.users@,
                        uid,
                    )
                    &&& final(self).conn(cid).phase is Authenticated
                    &&& final(self).conn(cid).room is None
                    &&& forall|id: u64| id != cid ==> (#[trigger] final(self).has_conn(id) == old(self).has_conn(id)) && (old(self).has_conn(id) ==> final(self).conn(id) == old(self).conn(id))
                    &&& final(self).cache@ == old(self).cache@.insert(
                        spec_status_key(final(self).conn(cid).username@),
                        spec_online_entry(),
                    )
                },
                Err(e) => {
                    &&& *final(self) == *old(self)
                    &&& match spec_authenticate(old(self).cache, match token {
                        Some(t) => Some(t@),
                        None => None,
                    }, decoded, now) {
                        Err(ae) => e == ae,
                        Ok(uid) => !users_has(old(self).db.users@, uid) && e == (
                        AppError::Db(crate::errors::DbError::RowNotFound)),
                    }
                },
            },
    {
        let uid = match authenticate(&self.cache, token, decoded, now) {
            Ok(ctx) => ctx.0,
            Err(e) => {
                return Err(e);
            },
        };
        let username = match self.db.username_of(&uid) {
            Some(n) => n,
            None => {
                return Err(AppError::Db(crate::errors::DbError::RowNotFound));
            },
        };
        let ghost cache_pre = self.cache;
        let res = set_online(&mut self.cache, username.as_str());
        proof {
            assert forall|r2: Seq<char>|
                (#[trigger] self.cache@.dom().contains(spec_msgs_key(r2))) == cache_pre@.dom().contains(
                    spec_msgs_key(r2),
                ) && (cache_pre@.dom().contains(spec_msgs_key(r2)) ==> self.cache@[spec_msgs_key(
                    r2,
                )] == cache_pre@[spec_msgs_key(r2)]) by {
                lemma_key_families_disjoint(username@, r2);
            }
            lemma_room_cache_wf_same_msgs(self.db, cache_pre, self.cache);
        }
        let cid = self.next_conn_id;
        let c = Connection {
            conn_id: cid,
            user_id: uid,
            username,
            phase: ConnPhase::Authenticated,
            room: None,
        };
        proof {
            lemma_conns_push(self.conns@, c);
        }
        self.conns.push(c);
        self.next_conn_id = self.next_conn_id + 1;
        Ok(cid)
    }

    /// Joins a room, leaving any previously joined room first, and
    /// broadcasts the user's presence to the new room, the joiner
    /// included.
    pub fn join(&mut self, cid: u64, group_id: String) -> (emits: Vec<Emit>)
        requires
            old(self).wf(),
            old(self).has_conn(cid),
            old(self).conn(cid).phase is Authenticated || old(self).conn(cid).phase is InRoom,
        ensures
            final(self).wf(),
            final(self).db == old(self).db,
            final(self).cache == old(self).cache,
            final(self).next_conn_id == old(self).next_conn_id,
            final(self).has_conn(cid),
            final(self).conn(cid) == (Connection {
                phase: ConnPhase::InRoom,
                room: Some(group_id),
                ..old(self).conn(cid)
            }),
            forall|id: u64| id != cid ==> (#[trigger] final(self).has_conn(id) == old(self).has_conn(id)) && (old(self).has_conn(id) ==> final(self).conn(id) == old(self).conn(
                id,
            )),
            emits@ =~= seq![
                (Emit {
                    room: group_id,
                    event: ServerEvent::UOnline { username: old(self).conn(cid).username },
                    exclude: None,
                }),
            ],
    {
        let i = self.find_conn(cid).unwrap();
        proof {
            lemma_conns_idx_agrees(self.conns@, i as int);
        }
        let old_c = &self.conns[i];
        let c = Connection {
            conn_id: old_c.conn_id,
            user_id: old_c.user_id.clone(),
            username: old_c.username.clone(),
            phase: ConnPhase::InRoom,
            room: Some(group_id.clone()),
        };
        let username = old_c.username.clone();
        proof {
            lemma_conns_update(self.conns@, i as int, c);
        }
        self.conns.set(i, c);
        let mut emits: Vec<Emit> = Vec::new();
        emits.push(
            Emit { room: group_id, event: ServerEvent::UOnline { username }, exclude: None },
        );
        emits
    }

    /// Persists a user message to the room the connection is in, mirrors
    /// it into the room cache, and broadcasts the stored form, the sender
    /// included.
    pub fn message(&mut self, cid: u64, content: String, now: u64) -> (emits: Vec<Emit>)
        requires
            old(self).wf(),
            old(self).has_conn(cid),
            old(self).conn(cid).phase is InRoom,
            now >= old(self).db.last_date,
            old(self).db.next_msg_id < u64::MAX,
        ensures
            final(self).wf(),
            final(self).conns@ == old(self).conns@,
            final(self).next_conn_id == old(self).next_conn_id,
            ({
                let room = old(self).conn(cid).room->0;
                let m = Message {
                    id: old(self).db.next_msg_id,
                    sender: spec_username_of(old(self).db.users@, old(self).conn(cid).user_id@),
                    content: content,
                    msg_type: MessageType::Normal,
                    date: now,
                };
                &&& final(self).db.spec_history(room@) == old(self).db.spec_history(room@)
                    + seq![m]
                &&& (forall|r2: Seq<char>| r2 != room@ ==> final(self).db.spec_history(r2) == old(self).db.spec_history(r2))
                &&& final(self).db.users@ == old(self).db.users@
                &&& final(self).db.groups@ == old(self).db.groups@
                &&& final(self).db.memberships@ == old(self).db.memberships@
                &&& final(self).db.next_msg_id == old(self).db.next_msg_id + 1
                &&& final(self).db.last_date == now
                &&& final(self).cache.spec_list(spec_msgs_key(room@), now) == seq![m] + old(self).cache.spec_list(spec_msgs_key(room@), now)
                &&& final(self).cache@.remove(spec_msgs_key(room@)) == old(self).cache@.remove(
                    spec_msgs_key(room@),
                )
                &&& emits@ =~= seq![
                    (Emit {
                        room: old(self).conn(cid).room->0,
                        event: ServerEvent::MessageEvt {
                            id: m.id,
                            sender: old(self).conn(cid).username,
                            content: m.content,
                            date: now,
                        },
                        exclude: None,
                    }),
                ]
            }),
    {
        let i = self.find_conn(cid).unwrap();
        proof {
            lemma_conns_idx_agrees(self.conns@, i as int);
        }
        let room = self.current_room(cid);
        let sender_id = Some(self.conns[i].user_id.clone());
        let username = self.conns[i].username.clone();
        let ghost db_pre = self.db;
        let ghost cache_pre = self.cache;
        let m = append(
            &mut self.db,
            &mut self.cache,
            &room,
            sender_id,
            content,
            MessageType::Normal,
            now,
        );
        proof {
            lemma_room_cache_wf_after_append(db_pre, self.db, cache_pre, self.cache, room@);
        }
        let mut emits: Vec<Emit> = Vec::new();
        emits.push(
            Emit {
                room,
                event: ServerEvent::MessageEvt {
                    id: m.id,
                    sender: username,
                    content: m.content,
                    date: m.date,
                },
                exclude: None,
            },
        );
        emits
    }

    /// Adds the named user to the connection's room: resolves the username,
    /// creates the membership, persists and caches a synthetic event
    /// message, and broadcasts the addition together with the new member's
    /// presence, the actor included.  An unknown username, a target who is
    /// already a member, or a store refusal are swallowed: nothing changes
    /// and nothing is broadcast.
    pub fn add_user(&mut self, cid: u64, username: String, now: u64) -> (emits: Vec<Emit>)
        requires
            old(self).wf(),
            old(self).has_conn(cid),
            old(self).conn(cid).phase is InRoom,
            now >= old(self).db.last_date,
            old(self).db.next_msg_id < u64::MAX,
        ensures
            final(self).wf(),
            final(self).conns@ == old(self).conns@,
            final(self).next_conn_id == old(self).next_conn_id,
            spec_user_by_username(old(self).db.users@, username@) is None ==> (final(self).db
                == old(self).db && final(self).cache == old(self).cache && emits@ =~= Seq::<
                Emit,
            >::empty()),
            spec_user_by_username(old(self).db.users@, username@) matches Some(u)
                && !(groups_has(old(self).db.groups@, old(self).conn(cid).room->0@) && !ms_has(
                old(self).db.memberships@,
                u.id@,
                old(self).conn(cid).room->0@,
            )) ==> ({
                &&& final(self).db.users@ == old(self).db.users@
                &&& final(self).db.groups@ == old(self).db.groups@
                &&& final(self).db.memberships@ == old(self).db.memberships@
                &&& final(self).db.messages@ == old(self).db.messages@
                &&& final(self).db.next_msg_id == old(self).db.next_msg_id
                &&& final(self).db.last_date == old(self).db.last_date
                &&& final(self).cache@ == old(self).cache@
                &&& emits@ =~= Seq::<Emit>::empty()
            }),
            spec_user_by_username(old(self).db.users@, username@) is Some && groups_has(
                old(self).db.groups@,
                old(self).conn(cid).room->0@,
            ) && !ms_has(
                old(self).db.memberships@,
                (spec_user_by_username(old(self).db.users@, username@)->0).id@,
                old(self).conn(cid).room->0@,
            ) ==> ({
                let u = spec_user_by_username(old(self).db.users@, username@)->0;
                let room = old(self).conn(cid).room->0;
                let hist = final(self).db.spec_history(room@);
                &&& final(self).db.users@ == old(self).db.users@
                &&& final(self).db.groups@ == old(self).db.groups@
                &&& spec_role_of(final(self).db.memberships@, u.id@, room@) == Some(
                    UserRole::User,
                )
                &&& forall|u2: Seq<char>, g2: Seq<char>| !(u2 == u.id@ && g2 == room@) ==> (
                #[trigger] ms_has(final(self).db.memberships@, u2, g2) == ms_has(
                    old(self).db.memberships@,
                    u2,
                    g2,
                )) && spec_role_of(final(self).db.memberships@, u2, g2) == spec_role_of(
                    old(self).db.memberships@,
                    u2,
                    g2,
                )
                &&& hist.drop_last() == old(self).db.spec_history(room@)
                &&& hist.len() == old(self).db.spec_history(room@).len() + 1
                &&& hist.last().id == old(self).db.next_msg_id
                &&& hist.last().sender is None
                &&& hist.last().content@ == u.username@ + " joined."@
                &&& hist.last().msg_type is Event
                &&& hist.last().date == now
                &&& final(self).cache.spec_list(spec_msgs_key(room@), now) == seq![hist.last()]
                    + old(self).cache.spec_list(spec_msgs_key(room@), now)
                &&& final(self).cache@.remove(spec_msgs_key(room@)) == old(self).cache@.remove(
                    spec_msgs_key(room@),
                )
                &&& emits@ =~= seq![
                    (Emit {
                        room: old(self).conn(cid).room->0,
                        event: ServerEvent::AddUser {
                            username: u.username,
                            actor: old(self).conn(cid).username,
                            is_online: spec_is_online(old(self).cache, u.username@, now),
                        },
                        exclude: None,
                    }),
                ]
            }),
    {
        let i = self.find_conn(cid).unwrap();
        proof {
            lemma_conns_idx_agrees(self.conns@, i as int);
        }
        let room = self.current_room(cid);
        let actor = self.conns[i].username.clone();
        let target = match self.db.find_user(&username) {
            Some(u) => u,
            None => {
                return Vec::new();
            },
        };
        proof {
            assert(users_has(self.db.users@, target.id@));
        }
        match self.db.insert_membership(target.id.clone(), room.clone(), UserRole::User) {
            Ok(()) => {},
            Err(_) => {
                proof {
                    assert forall|r2: Seq<char>| #[trigger] room_cache_wf(self.db, self.cache, r2) by {
                        assert(room_cache_wf(old(self).db, old(self).cache, r2));
                    }
                }
                return Vec::new();
            },
        }
        let mut join_msg = target.username.clone();
        join_msg.append(" joined.");
        let ghost db_pre = self.db;
        let ghost cache_pre = self.cache;
        proof {
            assert forall|r2: Seq<char>| #[trigger] room_cache_wf(db_pre, cache_pre, r2) by {
                assert(room_cache_wf(old(self).db, old(self).cache, r2));
            }
        }
        let m = append(
            &mut self.db,
            &mut self.cache,
            &room,
            None,
            join_msg,
            MessageType::Event,
            now,
        );
        proof {
            lemma_room_cache_wf_after_append(db_pre, self.db, cache_pre, self.cache, room@);
            assert(self.db.spec_history(room@).drop_last() =~= db_pre.spec_history(room@));
            lemma_key_families_disjoint(target.username@, room@);
            let sk = spec_status_key(target.username@);
            let k0 = spec_msgs_key(room@);
            assert(self.cache@.remove(k0).dom().contains(sk) == cache_pre@.remove(k0).dom().contains(
                sk,
            ));
            assert(self.cache@.dom().contains(sk) == cache_pre@.dom().contains(sk));
            if self.cache@.dom().contains(sk) {
                assert(self.cache@[sk] == self.cache@.remove(k0)[sk]);
                assert(cache_pre@[sk] == cache_pre@.remove(k0)[sk]);
            }
            assert(self.cache.spec_text(sk, now) == cache_pre.spec_text(sk, now));
        }
        let target_online = is_online(&self.cache, target.username.as_str(), now);
        let mut emits: Vec<Emit> = Vec::new();
        emits.push(
            Emit {
                room,
                event: ServerEvent::AddUser {
                    username: target.username,
                    actor,
                    is_online: target_online,
                },
                exclude: None,
            },
        );
        emits
    }

    /// Broadcasts the leave notification to the room, the leaver included,
    /// removes the caller's membership for the room, persists and caches
    /// the synthetic event message, and leaves the room.
    pub fn leave(&mut self, cid: u64, now: u64) -> (emits: Vec<Emit>)
        requires
            old(self).wf(),
            old(self).has_conn(cid),
            old(self).conn(cid).phase is InRoom,
            now >= old(self).db.last_date,
            old(self).db.next_msg_id < u64::MAX,
        ensures
            final(self).wf(),
            final(self).next_conn_id == old(self).next_conn_id,
            final(self).has_conn(cid),
            final(self).conn(cid) == (Connection {
                phase: ConnPhase::Authenticated,
                room: None,
                ..old(self).conn(cid)
            }),
            forall|id: u64| id != cid ==> (#[trigger] final(self).has_conn(id) == old(self).has_conn(id)) && (old(self).has_conn(id) ==> final(self).conn(id) == old(self).conn(
                id,
            )),
            ({
                let room = old(self).conn(cid).room->0;
                let hist = final(self).db.spec_history(room@);
                &&& final(self).db.users@ == old(self).db.users@
                &&& final(self).db.groups@ == old(self).db.groups@
                &&& !ms_has(
                    final(self).db.memberships@,
                    old(self).conn(cid).user_id@,
                    room@,
                )
                &&& forall|u2: Seq<char>, g2: Seq<char>| !(u2 == old(self).conn(cid).user_id@ && g2
                    == room@) ==> (#[trigger] ms_has(final(self).db.memberships@, u2, g2) == ms_has(
                    old(self).db.memberships@,
                    u2,
                    g2,
                )) && spec_role_of(final(self).db.memberships@, u2, g2) == spec_role_of(
                    old(self).db.memberships@,
                    u2,
                    g2,
                )
                &&& hist.drop_last() == old(self).db.spec_history(room@)
                &&& hist.len() == old(self).db.spec_history(room@).len() + 1
                &&& hist.last().sender is None
                &&& hist.last().content@ == old(self).conn(cid).username@ + " left."@
                &&& hist.last().msg_type is Event
                &&& hist.last().date == now
                &&& final(self).cache.spec_list(spec_msgs_key(room@), now) == seq![hist.last()]
                    + old(self).cache.spec_list(spec_msgs_key(room@), now)
                &&& final(self).cache@.remove(spec_msgs_key(room@)) == old(self).cache@.remove(
                    spec_msgs_key(room@),
                )
                &&& emits@ =~= seq![
                    (Emit {
                        room: old(self).conn(cid).room->0,
                        event: ServerEvent::LeaveEvt { username: old(self).conn(cid).username },
                        exclude: None,
                    }),
                ]
            }),
    {
        let i = self.find_conn(cid).unwrap();
        proof {
            lemma_conns_idx_agrees(self.conns@, i as int);
        }
        let room = self.current_room(cid);
        let old_c = &self.conns[i];
        let user_id = old_c.user_id.clone();
        let username = old_c.username.clone();
        let c = Connection {
            conn_id: old_c.conn_id,
            user_id: old_c.user_id.clone(),
            username: old_c.username.clone(),
            phase: ConnPhase::Authenticated,
            room: None,
        };
        let mut emits: Vec<Emit> = Vec::new();
        emits.push(
            Emit {
                room: room.clone(),
                event: ServerEvent::LeaveEvt { username: username.clone() },
                exclude: None,
            },
        );
        proof {
            lemma_conns_update(self.conns@, i as int, c);
        }
        self.conns.set(i, c);
        let deleted = self.db.delete_membership(&user_id, &room);
        let mut left_msg = username;
        left_msg.append(" left.");
        let ghost db_pre = self.db;
        let ghost cache_pre = self.cache;
        proof {
            assert forall|r2: Seq<char>| #[trigger] room_cache_wf(db_pre, cache_pre, r2) by {
                assert(room_cache_wf(old(self).db, old(self).cache, r2));
            }
        }
        let m = append(
            &mut self.db,
            &mut self.cache,
            &room,
            None,
            left_msg,
            MessageType::Event,
            now,
        );
        proof {
            lemma_room_cache_wf_after_append(db_pre, self.db, cache_pre, self.cache, room@);
            assert(self.db.spec_history(room@).drop_last() =~= db_pre.spec_history(room@));
        }
        emits
    }

    /// Kicks the named user out of the connection's room.  When no matching
    /// membership exists — the username is unknown or the user is not a
    /// member — nothing is broadcast and no error reaches the caller.  On
    /// success the membership is deleted, the kick is broadcast, the actor
    /// included, and a synthetic event message is persisted and cached.
    pub fn kick(&mut self, cid: u64, username: String, now: u64) -> (emits: Vec<Emit>)
        requires
            old(self).wf(),
            old(self).has_conn(cid),
            old(self).conn(cid).phase is InRoom,
            now >= old(self).db.last_date,
            old(self).db.next_msg_id < u64::MAX,
        ensures
            final(self).wf(),
            final(self).conns@ == old(self).conns@,
            final(self).next_conn_id == old(self).next_conn_id,
            ({
                let room = old(self).conn(cid).room->0;
                let target = spec_user_by_username(old(self).db.users@, username@);
                let matched = target matches Some(u) && ms_has(
                    old(self).db.memberships@,
                    u.id@,
                    room@,
                );
                &&& !matched ==> ({
                    &&& final(self).db.users@ == old(self).db.users@
                    &&& final(self).db.groups@ == old(self).db.groups@
                    &&& final(self).db.memberships@ == old(self).db.memberships@
                    &&& final(self).db.messages@ == old(self).db.messages@
                    &&& final(self).db.next_msg_id == old(self).db.next_msg_id
                    &&& final(self).db.last_date == old(self).db.last_date
                    &&& final(self).cache@ == old(self).cache@
                    &&& emits@ =~= Seq::<Emit>::empty()
                })
                &&& matched ==> ({
                    let u = target->0;
                    let hist = final(self).db.spec_history(room@);
                    &&& final(self).db.users@ == old(self).db.users@
                    &&& final(self).db.groups@ == old(self).db.groups@
                    &&& !ms_has(final(self).db.memberships@, u.id@, room@)
                    &&& forall|u2: Seq<char>, g2: Seq<char>| !(u2 == u.id@ && g2 == room@) ==> (
                    #[trigger] ms_has(final(self).db.memberships@, u2, g2) == ms_has(
                        old(self).db.memberships@,
                        u2,
                        g2,
                    )) && spec_role_of(final(self).db.memberships@, u2, g2) == spec_role_of(
                        old(self).db.memberships@,
                        u2,
                        g2,
                    )
                    &&& hist.drop_last() == old(self).db.spec_history(room@)
                    &&& hist.len() == old(self).db.spec_history(room@).len() + 1
                    &&& hist.last().sender is None
                    &&& hist.last().content@ == username@ + " was kicked out by "@ + old(self).conn(cid).username@ + "."@
                    &&& hist.last().msg_type is Event
                    &&& hist.last().date == now
                    &&& final(self).cache.spec_list(spec_msgs_key(room@), now) == seq![
                        hist.last(),
                    ] + old(self).cache.spec_list(spec_msgs_key(room@), now)
                    &&& final(self).cache@.remove(spec_msgs_key(room@)) == old(self).cache@.remove(spec_msgs_key(room@))
                    &&& emits@ =~= seq![
                        (Emit {
                            room: old(self).conn(cid).room->0,
                            event: ServerEvent::Kick {
                                username: username,
                                actor: old(self).conn(cid).username,
                            },
                            exclude: None,
                        }),
                    ]
                })
            }),
    {
        let i = self.find_conn(cid).unwrap();
        proof {
            lemma_conns_idx_agrees(self.conns@, i as int);
        }
        let room = self.current_room(cid);
        let actor = self.conns[i].username.clone();
        let target = match self.db.find_user(&username) {
            Some(u) => u,
            None => {
                return Vec::new();
            },
        };
        if !self.db.delete_membership(&target.id, &room) {
            proof {
                assert forall|r2: Seq<char>| #[trigger] room_cache_wf(self.db, self.cache, r2) by {
                    assert(room_cache_wf(old(self).db, old(self).cache, r2));
                }
            }
            return Vec::new();
        }
        let mut kick_msg = username.clone();
        kick_msg.append(" was kicked out by ");
        kick_msg.append(actor.as_str());
        kick_msg.append(".");
        let ghost db_pre = self.db;
        let ghost cache_pre = self.cache;
        proof {
            assert forall|r2: Seq<char>| #[trigger] room_cache_wf(db_pre, cache_pre, r2) by {
                assert(room_cache_wf(old(self).db, old(self).cache, r2));
            }
        }
        let m = append(
            &mut self.db,
            &mut self.cache,
            &room,
            None,
            kick_msg,
            MessageType::Event,
            now,
        );
        proof {
            lemma_room_cache_wf_after_append(db_pre, self.db, cache_pre, self.cache, room@);
            assert(self.db.spec_history(room@).drop_last() =~= db_pre.spec_history(room@));
        }
        let mut emits: Vec<Emit> = Vec::new();
        emits.push(
            Emit { room, event: ServerEvent::Kick { username, actor }, exclude: None },
        );
        emits
    }

    /// Sends the typing-start notification to the room, the typist
    /// included.  Stateless.
    pub fn type_start(&self, cid: u64) -> (emits: Vec<Emit>)
        requires
            self.wf(),
            self.has_conn(cid),
            self.conn(cid).phase is InRoom,
        ensures
            emits@ =~= seq![
                (Emit {
                    room: self.conn(cid).room->0,
                    event: ServerEvent::TypeStart { username: self.conn(cid).username },
                    exclude: None,
                }),
            ],
    {
        let i = self.find_conn(cid).unwrap();
        proof {
            lemma_conns_idx_agrees(self.conns@, i as int);
        }
        let room = self.current_room(cid);
        let username = self.conns[i].username.clone();
        let mut emits: Vec<Emit> = Vec::new();
        emits.push(Emit { room, event: ServerEvent::TypeStart { username }, exclude: None });
        emits
    }

    /// Sends the typing-stop notification to the room, the typist
    /// included.  Stateless.
    pub fn type_stop(&self, cid: u64) -> (emits: Vec<Emit>)
        requires
            self.wf(),
            self.has_conn(cid),
            self.conn(cid).phase is InRoom,
        ensures
            emits@ =~= seq![
                (Emit {
                    room: self.conn(cid).room->0,
                    event: ServerEvent::TypeStop { username: self.conn(cid).username },
                    exclude: None,
                }),
            ],
    {
        let i = self.find_conn(cid).unwrap();
        proof {
            lemma_conns_idx_agrees(self.conns@, i as int);
        }
        let room = self.current_room(cid);
        let username = self.conns[i].username.clone();
        let mut emits: Vec<Emit> = Vec::new();
        emits.push(Emit { room, event: ServerEvent::TypeStop { username }, exclude: None });
        emits
    }

    /// Clears the presence flag, tells the rest of the room — and only the
    /// rest — that the user went offline, and ends the connection.
    pub fn disconnect(&mut self, cid: u64) -> (emits: Vec<Emit>)
        requires
            old(self).wf(),
            old(self).has_conn(cid),
        ensures
            final(self).wf(),
            final(self).db == old(self).db,
            final(self).next_conn_id == old(self).next_conn_id,
            final(self).cache@ == old(self).cache@.remove(
                spec_status_key(old(self).conn(cid).username@),
            ),
            final(self).has_conn(cid),
            final(self).conn(cid) == (Connection {
                phase: ConnPhase::Disconnected,
                room: None,
                ..old(self).conn(cid)
            }),
            forall|id: u64| id != cid ==> (#[trigger] final(self).has_conn(id) == old(self).has_conn(id)) && (old(self).has_conn(id) ==> final(self).conn(id) == old(self).conn(
                id,
            )),
            old(self).conn(cid).room matches Some(r) ==> emits@ =~= seq![
                (Emit {
                    room: r,
                    event: ServerEvent::UOffline { username: old(self).conn(cid).username },
                    exclude: Some(cid),
                }),
            ],
            old(self).conn(cid).room is None ==> emits@ =~= Seq::<Emit>::empty(),
            forall|t: u64| !spec_is_online(final(self).cache, old(self).conn(cid).username@, t),
    {
        let i = self.find_conn(cid).unwrap();
        proof {
            lemma_conns_idx_agrees(self.conns@, i as int);
        }
        let old_c = &self.conns[i];
        let username = old_c.username.clone();
        let c = Connection {
            conn_id: old_c.conn_id,
            user_id: old_c.user_id.clone(),
            username: old_c.username.clone(),
            phase: ConnPhase::Disconnected,
            room: None,
        };
        let mut emits: Vec<Emit> = Vec::new();
        match &self.conns[i].room {
            Some(room) => {
                emits.push(
                    Emit {
                        room: room.clone(),
                        event: ServerEvent::UOffline { username: username.clone() },
                        exclude: Some(cid),
                    },
                );
            },
            None => {},
        }
        proof {
            lemma_conns_update(self.conns@, i as int, c);
        }
        self.conns.set(i, c);
        let ghost cache_pre = self.cache;
        set_offline(&mut self.cache, username.as_str());
        proof {
            assert forall|r2: Seq<char>|
                (#[trigger] self.cache@.dom().contains(spec_msgs_key(r2))) == cache_pre@.dom().contains(
                    spec_msgs_key(r2),
                ) && (cache_pre@.dom().contains(spec_msgs_key(r2)) ==> self.cache@[spec_msgs_key(
                    r2,
                )] == cache_pre@[spec_msgs_key(r2)]) by {
                lemma_key_families_disjoint(username@, r2);
            }
            lemma_room_cache_wf_same_msgs(self.db, cache_pre, self.cache);
        }
        emits
    }
}

impl ChatServer {
    /// Whether the connection would be delivered the broadcast: it is in
    /// the broadcast's room and is not excluded.
    pub fn receives(&self, cid: u64, e: &Emit) -> (r: bool)
        requires
            self.wf(),
        ensures
            r == spec_receives(self.conns@, cid, *e),
    {
        match self.find_conn(cid) {
            Some(i) => {
                proof {
                    lemma_conns_idx_agrees(self.conns@, i as int);
                }
                let excluded = match e.exclude {
                    Some(x) => x == cid,
                    None => false,
                };
                let r = match &self.conns[i].room {
                    Some(room) => !excluded && room.eq(&e.room) && self.conns[i].phase == ConnPhase::InRoom,
                    None => false,
                };
                proof {
                    if r {
                        assert(spec_receives(self.conns@, cid, *e));
                    } else {
                        if spec_receives(self.conns@, cid, *e) {
                            let j = choose|j: int|
                                0 <= j < self.conns@.len() && self.conns@[j].conn_id == cid
                                    && self.conns@[j].phase is InRoom && (
                                self.conns@[j].room matches Some(ro) && ro@ == e.room@)
                                    && e.exclude != Some(cid);
                            lemma_conns_idx_agrees(self.conns@, j);
                            assert(false);
                        }
                    }
                }
                r
            },
            None => {
                proof {
                    if spec_receives(self.conns@, cid, *e) {
                        let j = choose|j: int|
                            0 <= j < self.conns@.len() && self.conns@[j].conn_id == cid
                                && self.conns@[j].phase is InRoom && (
                            self.conns@[j].room matches Some(ro) && ro@ == e.room@) && e.exclude
                                != Some(cid);
                        assert(conns_has(self.conns@, cid));
                    }
                }
                false
            },
        }
    }
}

/// A connection sits in at most one room: two rooms it is joined to are
/// the same room.
pub proof fn lemma_at_most_one_room(cs: Seq<Connection>, cid: u64, r1: Seq<char>, r2: Seq<char>)
    requires
        conns_uniq(cs),
        conns_has(cs, cid),
        spec_conn(cs, cid).room matches Some(a) && a@ == r1,
        spec_conn(cs, cid).room matches Some(b) && b@ == r2,
    ensures
        r1 == r2,
{
}

/// Joining room B while in room A removes the connection from A's
/// audience before the join broadcast fires: after the join, no broadcast
/// to any other room reaches it, while broadcasts to B do.
pub proof fn lemma_join_evicts_previous(cs: Seq<Connection>, cid: u64, b: Seq<char>, e: Emit)
    requires
        conns_uniq(cs),
        conns_has(cs, cid),
        spec_conn(cs, cid).phase is InRoom,
        spec_conn(cs, cid).room matches Some(r) && r@ == b,
        e.exclude != Some(cid),
    ensures
        e.room@ != b ==> !spec_receives(cs, cid, e),
        e.room@ == b ==> spec_receives(cs, cid, e),
{
    let i = conns_idx(cs, cid);
    if e.room@ != b {
        if spec_receives(cs, cid, e) {
            let j = choose|j: int|
                0 <= j < cs.len() && cs[j].conn_id == cid && cs[j].phase is InRoom && (
                cs[j].room matches Some(r) && r@ == e.room@) && e.exclude != Some(cid);
            lemma_conns_idx_agrees(cs, j);
            assert(false);
        }
    } else {
        assert(0 <= i < cs.len() && cs[i].conn_id == cid);
    }
}

} // verus!
