//! Message store: durable writes with a write-through room cache, and
//! cache-aside reads.
//!
//! The cache holds each room's messages most-recent-first, so a read
//! reverses the list; on a read miss the full durable history is loaded
//! and pushed row by row in durable order, which reproduces chronological
//! order on later reads, guarded by an existence check immediately before
//! the population and capped with a five-day expiry.

use vstd::prelude::*;

use crate::cache::CacheStore;
use crate::cache::EntryValue;
use crate::cache::EntryView;
use crate::errors::AppError;
use crate::keys::redis_msg_list_key;
use crate::keys::spec_msgs_key;
use crate::models::Message;
use crate::models::MessageModel;
use crate::models::MessageType;
use crate::models::UserModel;
use crate::store::room_filter;
use crate::store::spec_client_msg;
use crate::store::spec_username_of;
use crate::store::DurableStore;
use crate::MSGS_EXPIRE_SECS;

verus! {

/// Creation times never decrease along the sequence.
pub open spec fn asc_by_date(l: Seq<Message>) -> bool {
    forall|i: int, j: int| 0 <= i < j < l.len() ==> l[i].date <= l[j].date
}

/// Creation times never increase along the sequence.
pub open spec fn desc_by_date(l: Seq<Message>) -> bool {
    forall|i: int, j: int| 0 <= i < j < l.len() ==> l[i].date >= l[j].date
}

/// What the message store maintains of a room's cache entry: if the key is
/// present it holds a nonempty most-recent-first list whose dates are no
/// later than anything the durable store has assigned.
pub open spec fn room_cache_wf(db: DurableStore, cache: CacheStore, room: Seq<char>) -> bool {
    cache@.dom().contains(spec_msgs_key(room)) ==> match cache@[spec_msgs_key(room)].value {
        EntryValue::ListV(l) => l.len() > 0 && desc_by_date(l) && (forall|i: int|
            0 <= i < l.len() ==> #[trigger] l[i].date <= db.last_date),
        EntryValue::TextV(_) => false,
    }
}

/// Every element of a mapped filtering comes from some source element.
proof fn lemma_filter_map_elts<A, B>(s: Seq<A>, f: spec_fn(A) -> Option<B>)
    ensures
        forall|a: int| 0 <= a < s.filter_map(f).len() ==> exists|j: int| 0 <= j < s.len() && f(
            s[j],
        ) == Some(#[trigger] s.filter_map(f)[a]),
    decreases s.len(),
{
    if s.len() > 0 {
        let rest = s.drop_last();
        lemma_filter_map_elts(rest, f);
        assert forall|a: int| 0 <= a < s.filter_map(f).len() implies exists|j: int| 0 <= j
            < s.len() && f(s[j]) == Some(#[trigger] s.filter_map(f)[a]) by {
            let x = s.filter_map(f)[a];
            match f(s.last()) {
                Some(b) => {
                    assert(s.filter_map(f) == rest.filter_map(f) + seq![b]);
                    if a < rest.filter_map(f).len() {
                        assert(x == rest.filter_map(f)[a]);
                        let j = choose|j: int| 0 <= j < rest.len() && f(rest[j]) == Some(x);
                        assert(f(s[j]) == Some(x));
                    } else {
                        assert(x == b);
                        assert(f(s[s.len() - 1]) == Some(x));
                    }
                },
                None => {
                    assert(s.filter_map(f) == rest.filter_map(f));
                    assert(x == rest.filter_map(f)[a]);
                    let j = choose|j: int| 0 <= j < rest.len() && f(rest[j]) == Some(x);
                    assert(f(s[j]) == Some(x));
                },
            }
        }
    }
}

/// A room's history is in nondecreasing creation-time order, and none of
/// it is later than the store's latest assigned time.
pub proof fn lemma_history_sorted(db: DurableStore, room: Seq<char>)
    requires
        db.wf(),
    ensures
        asc_by_date(db.spec_history(room)),
        forall|a: int| 0 <= a < db.spec_history(room).len() ==> #[trigger] db.spec_history(
            room,
        )[a].date <= db.last_date,
{
    lemma_hist_sorted_rec(db.messages@, db.users@, room, db.last_date);
}

proof fn lemma_hist_sorted_rec(
    msgs: Seq<MessageModel>,
    users: Seq<UserModel>,
    room: Seq<char>,
    bound: u64,
)
    requires
        forall|i: int, j: int| 0 <= i < j < msgs.len() ==> msgs[i].created_at
            <= msgs[j].created_at,
        forall|i: int| 0 <= i < msgs.len() ==> #[trigger] msgs[i].created_at <= bound,
    ensures
        asc_by_date(msgs.filter_map(room_filter(room, users))),
        forall|a: int| 0 <= a < msgs.filter_map(room_filter(room, users)).len() ==> #[trigger] msgs.filter_map(
            room_filter(room, users),
        )[a].date <= bound,
    decreases msgs.len(),
{
    let f = room_filter(room, users);
    let out = msgs.filter_map(f);
    lemma_filter_map_elts(msgs, f);
    assert forall|a: int| 0 <= a < out.len() implies #[trigger] out[a].date <= bound by {
        let j = choose|j: int| 0 <= j < msgs.len() && f(msgs[j]) == Some(out[a]);
        assert(out[a].date == msgs[j].created_at);
    }
    if msgs.len() > 0 {
        let rest = msgs.drop_last();
        lemma_hist_sorted_rec(rest, users, room, msgs.last().created_at);
        lemma_filter_map_elts(rest, f);
        match f(msgs.last()) {
            Some(b) => {
                assert(out == rest.filter_map(f) + seq![b]);
                assert(b.date == msgs.last().created_at);
                assert forall|i: int, j: int| 0 <= i < j < out.len() implies out[i].date
                    <= out[j].date by {
                    if j < rest.filter_map(f).len() {
                        assert(out[i] == rest.filter_map(f)[i]);
                        assert(out[j] == rest.filter_map(f)[j]);
                    } else {
                        assert(out[j] == b);
                        assert(out[i] == rest.filter_map(f)[i]);
                    }
                }
            },
            None => {
                assert(out == rest.filter_map(f));
            },
        }
    }
}

/// A reversed nonincreasing list is nondecreasing.
pub proof fn lemma_reverse_desc(l: Seq<Message>)
    requires
        desc_by_date(l),
    ensures
        asc_by_date(l.reverse()),
{
    assert forall|i: int, j: int| 0 <= i < j < l.reverse().len() implies l.reverse()[i].date
        <= l.reverse()[j].date by {
        assert(l.reverse()[i] == l[l.len() - 1 - i]);
        assert(l.reverse()[j] == l[l.len() - 1 - j]);
    }
}

/// A reversed nondecreasing list is nonincreasing.
pub proof fn lemma_reverse_asc(l: Seq<Message>)
    requires
        asc_by_date(l),
    ensures
        desc_by_date(l.reverse()),
{
    assert forall|i: int, j: int| 0 <= i < j < l.reverse().len() implies l.reverse()[i].date
        >= l.reverse()[j].date by {
        assert(l.reverse()[i] == l[l.len() - 1 - i]);
        assert(l.reverse()[j] == l[l.len() - 1 - j]);
    }
}

/// Prepends one message to the room's cache list.  Always prepends,
/// whether or not the list existed before.
pub fn append_message(conn: &mut CacheStore, group_id: &str, msg: Message, now: u64) -> (r: Result<
    (),
    AppError,
>)
    requires
        old(conn).wf(),
    ensures
        final(conn).wf(),
        !old(conn).spec_live(spec_msgs_key(group_id@), now) ==> r is Ok && final(conn)@ == old(
            conn,
        )@.insert(
            spec_msgs_key(group_id@),
            (EntryView { value: EntryValue::ListV(seq![msg]), expires_at: None }),
        ),
        old(conn).spec_live(spec_msgs_key(group_id@), now) ==> match old(conn)@[spec_msgs_key(
            group_id@,
        )].value {
            EntryValue::ListV(l) => r is Ok && final(conn)@ == old(conn)@.insert(
                spec_msgs_key(group_id@),
                (EntryView {
                    value: EntryValue::ListV(seq![msg] + l),
                    expires_at: old(conn)@[spec_msgs_key(group_id@)].expires_at,
                }),
            ),
            EntryValue::TextV(_) => r matches Err(e) && e is Cache && final(conn)@ == old(conn)@,
        },
{
    let key = redis_msg_list_key(group_id);
    conn.list_push_front(key, msg, now)
}

/// Populates the room's cache from durable history, guarded by an
/// existence check immediately before: a list that raced in is left alone.
/// Rows are pushed in durable order and the key is given the five-day
/// expiry.
pub fn cache_messages(conn: &mut CacheStore, group_id: &str, msgs: &Vec<Message>, now: u64) -> (r:
    Result<(), AppError>)
    requires
        old(conn).wf(),
        now + MSGS_EXPIRE_SECS <= u64::MAX,
    ensures
        final(conn).wf(),
        r is Ok,
        old(conn).spec_live(spec_msgs_key(group_id@), now) ==> final(conn)@ == old(conn)@,
        !old(conn).spec_live(spec_msgs_key(group_id@), now) && msgs@.len() == 0 ==> final(conn)@
            == old(conn)@,
        !old(conn).spec_live(spec_msgs_key(group_id@), now) && msgs@.len() > 0 ==> final(conn)@
            == old(conn)@.insert(
            spec_msgs_key(group_id@),
            (EntryView {
                value: EntryValue::ListV(msgs@.reverse()),
                expires_at: Some((now + MSGS_EXPIRE_SECS) as u64),
            }),
        ),
{
    let key = redis_msg_list_key(group_id);
    let ghost k = key@;
    if conn.exists_key(&key, now) {
        return Ok(());
    }
    let n = msgs.len();
    let mut i: usize = 0;
    while i < n
        invariant
            conn.wf(),
            n == msgs@.len(),
            i <= n,
            k == spec_msgs_key(group_id@),
            now + MSGS_EXPIRE_SECS <= u64::MAX,
            !old(conn).spec_live(k, now),
            i == 0 ==> conn@ == old(conn)@,
            i > 0 ==> conn@ == old(conn)@.insert(
                k,
                (EntryView {
                    value: EntryValue::ListV(msgs@.take(i as int).reverse()),
                    expires_at: None,
                }),
            ),
        decreases n - i,
    {
        let key_i = redis_msg_list_key(group_id);
        let m = msgs[i].clone();
        let ghost pre = conn@;
        let res = conn.list_push_front(key_i, m, now);
        proof {
            if i == 0 {
                assert(seq![msgs@[0]] =~= msgs@.take(1int).reverse());
            } else {
                assert(conn@ == pre.insert(
                    k,
                    (EntryView {
                        value: EntryValue::ListV(
                            seq![msgs@[i as int]] + msgs@.take(i as int).reverse(),
                        ),
                        expires_at: None,
                    }),
                ));
                assert(seq![msgs@[i as int]] + msgs@.take(i as int).reverse() =~= msgs@.take(
                    i as int + 1,
                ).reverse());
                assert(conn@ =~= old(conn)@.insert(
                    k,
                    (EntryView {
                        value: EntryValue::ListV(msgs@.take(i as int + 1).reverse()),
                        expires_at: None,
                    }),
                ));
            }
        }
        i = i + 1;
    }
    if n > 0 {
        conn.expire_key(&key, MSGS_EXPIRE_SECS, now);
        proof {
            assert(msgs@.take(n as int) =~= msgs@);
            assert(conn@ =~= old(conn)@.insert(
                k,
                (EntryView {
                    value: EntryValue::ListV(msgs@.reverse()),
                    expires_at: Some((now + MSGS_EXPIRE_SECS) as u64),
                }),
            ));
        }
    }
    Ok(())
}

/// The room's cached messages in chronological order; empty on a miss.
pub fn get_messages(conn: &CacheStore, group_id: &str, now: u64) -> (r: Vec<Message>)
    requires
        conn.wf(),
    ensures
        r@ == conn.spec_list(spec_msgs_key(group_id@), now).reverse(),
{
    let key = redis_msg_list_key(group_id);
    let cached = conn.list_range_all(&key, now);
    let n = cached.len();
    let mut out: Vec<Message> = Vec::new();
    let mut i: usize = 0;
    while i < n
        invariant
            n == cached@.len(),
            i <= n,
            out@.len() == i,
            forall|j: int| 0 <= j < i ==> out@[j] == cached@[n - 1 - j],
        decreases n - i,
    {
        out.push(cached[n - 1 - i].clone());
        i = i + 1;
    }
    proof {
        assert(out@ =~= cached@.reverse());
    }
    out
}

/// Durable write plus cache mirror: inserts the message durably — which
/// assigns its identity and creation time — and prepends the stored form
/// to the room's cache list.  The returned message is authoritative for
/// what is broadcast and cached.
pub fn append(
    db: &mut DurableStore,
    cache: &mut CacheStore,
    room: &String,
    sender_id: Option<String>,
    content: String,
    msg_type: MessageType,
    now: u64,
) -> (m: Message)
    requires
        old(db).wf(),
        old(cache).wf(),
        room_cache_wf(*old(db), *old(cache), room@),
        now >= old(db).last_date,
        old(db).next_msg_id < u64::MAX,
    ensures
        final(db).wf(),
        final(cache).wf(),
        room_cache_wf(*final(db), *final(cache), room@),
        m.id == old(db).next_msg_id,
        m.date == now,
        m.content == content,
        m.msg_type == msg_type,
        m.sender == match sender_id {
            Some(uid) => spec_username_of(old(db).users@, uid@),
            None => None::<String>,
        },
        final(db).users@ == old(db).users@,
        final(db).groups@ == old(db).groups@,
        final(db).memberships@ == old(db).memberships@,
        final(db).next_msg_id == old(db).next_msg_id + 1,
        final(db).last_date == now,
        final(db).spec_history(room@) == old(db).spec_history(room@) + seq![m],
        forall|r2: Seq<char>| r2 != room@ ==> final(db).spec_history(r2) == old(db).spec_history(
            r2,
        ),
        final(cache).spec_list(spec_msgs_key(room@), now) == seq![m] + old(cache).spec_list(
            spec_msgs_key(room@),
            now,
        ),
        final(cache)@.remove(spec_msgs_key(room@)) == old(cache)@.remove(spec_msgs_key(room@)),
{
    let ghost k = spec_msgs_key(room@);
    let sender = match &sender_id {
        Some(uid) => db.username_of(uid),
        None => None,
    };
    let row = db.insert_message(room.clone(), sender_id, content, msg_type, now);
    let m = Message {
        id: row.id,
        sender,
        content: row.content.clone(),
        msg_type: row.msg_type,
        date: row.created_at,
    };
    proof {
        assert(m == spec_client_msg(row, db.users@));
        let f = room_filter(room@, db.users@);
        assert(db.messages@.drop_last() =~= old(db).messages@);
        assert(db.spec_history(room@) == old(db).spec_history(room@) + seq![m]);
        assert forall|r2: Seq<char>| r2 != room@ implies db.spec_history(r2) == old(
            db,
        ).spec_history(r2) by {
            let f2 = room_filter(r2, db.users@);
            assert(db.messages@.filter_map(f2) == old(db).messages@.filter_map(f2));
        }
    }
    let res = append_message(cache, room.as_str(), m.clone(), now);
    proof {
        assert(cache.spec_list(k, now) == seq![m] + old(cache).spec_list(k, now));
        assert(cache@.remove(k) =~= old(cache)@.remove(k));
    }
    m
}

/// Cache-aside read of a room's history, chronological order.  A warm
/// cache answers directly; a miss loads the durable history, returns it,
/// and populates the cache behind the existence guard.
pub fn list(db: &DurableStore, cache: &mut CacheStore, room: &String, now: u64) -> (r: Vec<Message>)
    requires
        db.wf(),
        old(cache).wf(),
        room_cache_wf(*db, *old(cache), room@),
        now + MSGS_EXPIRE_SECS <= u64::MAX,
    ensures
        final(cache).wf(),
        room_cache_wf(*db, *final(cache), room@),
        asc_by_date(r@),
        old(cache).spec_list(spec_msgs_key(room@), now).len() > 0 ==> (r@ == old(cache).spec_list(
            spec_msgs_key(room@),
            now,
        ).reverse() && final(cache)@ == old(cache)@),
        old(cache).spec_list(spec_msgs_key(room@), now).len() == 0 ==> (r@ == db.spec_history(
            room@,
        ) && (db.spec_history(room@).len() == 0 ==> final(cache)@ == old(cache)@) && (
        db.spec_history(room@).len() > 0 ==> final(cache)@ == old(cache)@.insert(
            spec_msgs_key(room@),
            (EntryView {
                value: EntryValue::ListV(db.spec_history(room@).reverse()),
                expires_at: Some((now + MSGS_EXPIRE_SECS) as u64),
            }),
        ))),
{
    let ghost k = spec_msgs_key(room@);
    let cached = get_messages(cache, room.as_str(), now);
    if cached.len() > 0 {
        proof {
            assert(old(cache).spec_live(k, now));
            lemma_reverse_desc(old(cache).spec_list(k, now));
        }
        cached
    } else {
        let history = db.history(room);
        proof {
            lemma_history_sorted(*db, room@);
            if old(cache).spec_live(k, now) {
                assert(old(cache).spec_list(k, now).len() > 0);
                assert(cached@.len() > 0);
            }
        }
        let res = cache_messages(cache, room.as_str(), &history, now);
        proof {
            if db.spec_history(room@).len() > 0 {
                lemma_reverse_asc(db.spec_history(room@));
            }
        }
        history
    }
}

/// Appending and then listing the same room yields the appended message
/// last, both when the list is served from the warm cache and when it is
/// rebuilt from durable history.
pub proof fn lemma_append_then_list_last(
    db_pre: DurableStore,
    db_post: DurableStore,
    cache_pre: CacheStore,
    cache_post: CacheStore,
    room: Seq<char>,
    m: Message,
    now: u64,
)
    requires
        cache_post.spec_list(spec_msgs_key(room), now) == seq![m] + cache_pre.spec_list(
            spec_msgs_key(room),
            now,
        ),
        db_post.spec_history(room) == db_pre.spec_history(room) + seq![m],
    ensures
        cache_post.spec_list(spec_msgs_key(room), now).reverse().last() == m,
        db_post.spec_history(room).last() == m,
{
    let l = cache_post.spec_list(spec_msgs_key(room), now);
    assert(l[0] == m);
    assert(l.reverse()[l.len() - 1] == l[0]);
}

} // verus!
