//! Model of the durable relational store.
//!
//! Four tables: users, groups, memberships and messages.  Message identities
//! and creation times are assigned here, from a counter and from the clock
//! the caller passes in; creation times never decrease, so the message table
//! is always in chronological order.

use vstd::prelude::*;

use crate::errors::DbError;
use crate::models::GroupModel;
use crate::models::Message;
use crate::models::MessageModel;
use crate::models::MessageType;
use crate::models::UserGroupModel;
use crate::models::UserModel;
use crate::models::UserRole;

verus! {

// ---------------------------------------------------------------- users ----
/// Whether some row carries the user id `id`.
pub open spec fn users_has(users: Seq<UserModel>, id: Seq<char>) -> bool {
    exists|i: int| 0 <= i < users.len() && users[i].id@ == id
}

/// Index of the row carrying user id `id`.
pub open spec fn users_idx(users: Seq<UserModel>, id: Seq<char>) -> int {
    choose|i: int| 0 <= i < users.len() && users[i].id@ == id
}

/// Whether some row carries the username `name`.
pub open spec fn uname_has(users: Seq<UserModel>, name: Seq<char>) -> bool {
    exists|i: int| 0 <= i < users.len() && users[i].username@ == name
}

/// Index of the row carrying username `name`.
pub open spec fn uname_idx(users: Seq<UserModel>, name: Seq<char>) -> int {
    choose|i: int| 0 <= i < users.len() && users[i].username@ == name
}

/// Distinctness of both unique columns of the user table.
pub open spec fn users_uniq(users: Seq<UserModel>) -> bool {
    forall|i: int, j: int| 0 <= i < j < users.len() ==> users[i].id@ != users[j].id@
        && users[i].username@ != users[j].username@
}

/// The user table as a map from id to row.
pub open spec fn users_map(users: Seq<UserModel>) -> Map<Seq<char>, UserModel> {
    Map::new(|k: Seq<char>| users_has(users, k), |k: Seq<char>| users[users_idx(users, k)])
}

/// The row carrying `name`, if any.
pub open spec fn spec_user_by_username(users: Seq<UserModel>, name: Seq<char>) -> Option<UserModel> {
    if uname_has(users, name) {
        Some(users[uname_idx(users, name)])
    } else {
        None
    }
}

/// The username of the user with id `id`, if any.
pub open spec fn spec_username_of(users: Seq<UserModel>, id: Seq<char>) -> Option<String> {
    if users_has(users, id) {
        Some(users[users_idx(users, id)].username)
    } else {
        None
    }
}

/// With distinct rows, any index carrying an id or username is the chosen one.
proof fn lemma_users_idx_agrees(users: Seq<UserModel>, i: int)
    requires
        users_uniq(users),
        0 <= i < users.len(),
    ensures
        users_has(users, users[i].id@),
        users_idx(users, users[i].id@) == i,
        uname_has(users, users[i].username@),
        uname_idx(users, users[i].username@) == i,
        users_map(users)[users[i].id@] == users[i],
        spec_user_by_username(users, users[i].username@) == Some(users[i]),
        spec_username_of(users, users[i].id@) == Some(users[i].username),
{
    assert(users_has(users, users[i].id@));
    assert(uname_has(users, users[i].username@));
    let j = users_idx(users, users[i].id@);
    assert(0 <= j < users.len() && users[j].id@ == users[i].id@);
    if j != i {
        assert(false);
    }
    let j2 = uname_idx(users, users[i].username@);
    assert(0 <= j2 < users.len() && users[j2].username@ == users[i].username@);
    if j2 != i {
        assert(false);
    }
}

/// Appending a row with fresh id and username extends both lookups.
proof fn lemma_users_push(users: Seq<UserModel>, u: UserModel)
    requires
        users_uniq(users),
        !users_has(users, u.id@),
        !uname_has(users, u.username@),
    ensures
        users_uniq(users.push(u)),
        forall|k: Seq<char>| k != u.id@ ==> (users_has(users.push(u), k) == users_has(users, k)),
        forall|k: Seq<char>| users_has(users, k) ==> users_map(users.push(u))[k] == users_map(
            users,
        )[k],
        users_has(users.push(u), u.id@),
        users_map(users.push(u))[u.id@] == u,
        forall|n: Seq<char>| n != u.username@ ==> #[trigger] spec_user_by_username(users.push(u), n)
            == spec_user_by_username(users, n),
        spec_user_by_username(users.push(u), u.username@) == Some(u),
        forall|k: Seq<char>| k != u.id@ ==> #[trigger] spec_username_of(users.push(u), k)
            == spec_username_of(users, k),
        spec_username_of(users.push(u), u.id@) == Some(u.username),
{
    let post = users.push(u);
    assert(post[users.len() as int] == u);
    assert forall|i: int, j: int| 0 <= i < j < post.len() implies post[i].id@ != post[j].id@
        && post[i].username@ != post[j].username@ by {
        if j < users.len() {
            assert(post[i] == users[i] && post[j] == users[j]);
        } else {
            assert(post[j] == u);
            assert(post[i] == users[i]);
            assert(users_has(users, users[i].id@));
            assert(uname_has(users, users[i].username@));
        }
    }
    assert forall|k: Seq<char>| k != u.id@ implies (users_has(post, k) == users_has(users, k)) by {
        if users_has(post, k) {
            let i = choose|i: int| 0 <= i < post.len() && post[i].id@ == k;
            assert(i < users.len());
            assert(users[i].id@ == k);
        }
        if users_has(users, k) {
            let i = users_idx(users, k);
            assert(post[i].id@ == k);
        }
    }
    assert forall|k: Seq<char>| users_has(users, k) implies users_map(post)[k] == users_map(
        users,
    )[k] by {
        let i = users_idx(users, k);
        assert(users[i].id@ == k);
        assert(post[i].id@ == k);
        lemma_users_idx_agrees(post, i);
        lemma_users_idx_agrees(users, i);
    }
    lemma_users_idx_agrees(post, users.len() as int);
    assert forall|n: Seq<char>| n != u.username@ implies #[trigger] spec_user_by_username(post, n)
        == spec_user_by_username(users, n) by {
        if uname_has(post, n) {
            let i = choose|i: int| 0 <= i < post.len() && post[i].username@ == n;
            assert(i < users.len());
            assert(users[i].username@ == n);
            lemma_users_idx_agrees(post, i);
            lemma_users_idx_agrees(users, i);
        } else {
            if uname_has(users, n) {
                let i = uname_idx(users, n);
                assert(post[i].username@ == n);
            }
        }
    }
    assert forall|k: Seq<char>| k != u.id@ implies #[trigger] spec_username_of(post, k)
        == spec_username_of(users, k) by {
        if users_has(post, k) {
            let i = choose|i: int| 0 <= i < post.len() && post[i].id@ == k;
            assert(i < users.len());
            assert(users[i].id@ == k);
            lemma_users_idx_agrees(post, i);
            lemma_users_idx_agrees(users, i);
        } else {
            if users_has(users, k) {
                let i = users_idx(users, k);
                assert(post[i].id@ == k);
            }
        }
    }
}

/// Removing the row at `i` removes exactly its user, under both lookups.
proof fn lemma_users_remove(users: Seq<UserModel>, i: int)
    requires
        users_uniq(users),
        0 <= i < users.len(),
    ensures
        users_uniq(users.remove(i)),
        !users_has(users.remove(i), users[i].id@),
        !uname_has(users.remove(i), users[i].username@),
        forall|k: Seq<char>| k != users[i].id@ ==> (#[trigger] users_has(users.remove(i), k)
            == users_has(users, k)) && spec_username_of(users.remove(i), k) == spec_username_of(
            users,
            k,
        ),
        forall|n: Seq<char>| n != users[i].username@ ==> #[trigger] spec_user_by_username(
            users.remove(i),
            n,
        ) == spec_user_by_username(users, n),
{
    let post = users.remove(i);
    users.remove_ensures(i);
    assert forall|a: int, b: int| 0 <= a < b < post.len() implies post[a].id@ != post[b].id@
        && post[a].username@ != post[b].username@ by {
        let a2 = if a < i {
            a
        } else {
            a + 1
        };
        let b2 = if b < i {
            b
        } else {
            b + 1
        };
        assert(post[a] == users[a2]);
        assert(post[b] == users[b2]);
    }
    if users_has(post, users[i].id@) {
        let j = users_idx(post, users[i].id@);
        let j2 = if j < i {
            j
        } else {
            j + 1
        };
        assert(post[j] == users[j2]);
        assert(false);
    }
    if uname_has(post, users[i].username@) {
        let j = uname_idx(post, users[i].username@);
        let j2 = if j < i {
            j
        } else {
            j + 1
        };
        assert(post[j] == users[j2]);
        assert(false);
    }
    assert forall|k: Seq<char>| k != users[i].id@ implies (#[trigger] users_has(post, k)
        == users_has(users, k)) && spec_username_of(post, k) == spec_username_of(users, k) by {
        if users_has(post, k) {
            let j = users_idx(post, k);
            assert(post[j].id@ == k);
            let j2 = if j < i {
                j
            } else {
                j + 1
            };
            assert(post[j] == users[j2]);
            lemma_users_idx_agrees(users, j2);
            lemma_users_idx_agrees(post, j);
        } else {
            if users_has(users, k) {
                let j = users_idx(users, k);
                assert(j != i);
                let j2 = if j < i {
                    j
                } else {
                    j - 1
                };
                assert(post[j2] == users[j]);
                assert(false);
            }
        }
    }
    assert forall|n: Seq<char>| n != users[i].username@ implies #[trigger] spec_user_by_username(
        post,
        n,
    ) == spec_user_by_username(users, n) by {
        if uname_has(post, n) {
            let j = uname_idx(post, n);
            assert(post[j].username@ == n);
            let j2 = if j < i {
                j
            } else {
                j + 1
            };
            assert(post[j] == users[j2]);
            lemma_users_idx_agrees(users, j2);
            lemma_users_idx_agrees(post, j);
        } else {
            if uname_has(users, n) {
                let j = uname_idx(users, n);
                assert(j != i);
                let j2 = if j < i {
                    j
                } else {
                    j - 1
                };
                assert(post[j2] == users[j]);
                assert(false);
            }
        }
    }
}

// --------------------------------------------------------------- groups ----
/// Whether some row carries the group id `id`.
pub open spec fn groups_has(groups: Seq<GroupModel>, id: Seq<char>) -> bool {
    exists|i: int| 0 <= i < groups.len() && groups[i].id@ == id
}

/// Index of the row carrying group id `id`.
pub open spec fn groups_idx(groups: Seq<GroupModel>, id: Seq<char>) -> int {
    choose|i: int| 0 <= i < groups.len() && groups[i].id@ == id
}

/// Distinctness of group ids.
pub open spec fn groups_uniq(groups: Seq<GroupModel>) -> bool {
    forall|i: int, j: int| 0 <= i < j < groups.len() ==> groups[i].id@ != groups[j].id@
}

/// The name of the group with id `id`, if any.
pub open spec fn spec_group_name_of(groups: Seq<GroupModel>, id: Seq<char>) -> Option<String> {
    if groups_has(groups, id) {
        Some(groups[groups_idx(groups, id)].name)
    } else {
        None
    }
}

proof fn lemma_groups_idx_agrees(groups: Seq<GroupModel>, i: int)
    requires
        groups_uniq(groups),
        0 <= i < groups.len(),
    ensures
        groups_has(groups, groups[i].id@),
        groups_idx(groups, groups[i].id@) == i,
        spec_group_name_of(groups, groups[i].id@) == Some(groups[i].name),
{
    assert(groups_has(groups, groups[i].id@));
    let j = groups_idx(groups, groups[i].id@);
    if j != i {
        assert(false);
    }
}

/// Appending a row with a fresh group id adds exactly that group.
proof fn lemma_groups_push(groups: Seq<GroupModel>, g: GroupModel)
    requires
        groups_uniq(groups),
        !groups_has(groups, g.id@),
    ensures
        groups_uniq(groups.push(g)),
        groups_has(groups.push(g), g.id@),
        spec_group_name_of(groups.push(g), g.id@) == Some(g.name),
        forall|k: Seq<char>| k != g.id@ ==> (#[trigger] groups_has(groups.push(g), k) == groups_has(
            groups,
            k,
        )) && spec_group_name_of(groups.push(g), k) == spec_group_name_of(groups, k),
{
    let post = groups.push(g);
    assert(post[groups.len() as int] == g);
    assert forall|i: int, j: int| 0 <= i < j < post.len() implies post[i].id@ != post[j].id@ by {
        if j < groups.len() {
            assert(post[i] == groups[i] && post[j] == groups[j]);
        } else {
            assert(post[j] == g && post[i] == groups[i]);
            assert(groups_has(groups, groups[i].id@));
        }
    }
    lemma_groups_idx_agrees(post, groups.len() as int);
    assert forall|k: Seq<char>| k != g.id@ implies (#[trigger] groups_has(post, k) == groups_has(
        groups,
        k,
    )) && spec_group_name_of(post, k) == spec_group_name_of(groups, k) by {
        if groups_has(post, k) {
            let i = choose|i: int| 0 <= i < post.len() && post[i].id@ == k;
            assert(i < groups.len());
            assert(groups[i].id@ == k);
            lemma_groups_idx_agrees(post, i);
            lemma_groups_idx_agrees(groups, i);
        } else {
            if groups_has(groups, k) {
                let i = groups_idx(groups, k);
                assert(post[i].id@ == k);
            }
        }
    }
}

// ---------------------------------------------------------- memberships ----
/// Whether a membership row for `(u, g)` exists.
pub open spec fn ms_has(ms: Seq<UserGroupModel>, u: Seq<char>, g: Seq<char>) -> bool {
    exists|i: int| 0 <= i < ms.len() && ms[i].user_id@ == u && ms[i].group_id@ == g
}

/// Index of the membership row for `(u, g)`.
pub open spec fn ms_idx(ms: Seq<UserGroupModel>, u: Seq<char>, g: Seq<char>) -> int {
    choose|i: int| 0 <= i < ms.len() && ms[i].user_id@ == u && ms[i].group_id@ == g
}

/// Uniqueness per (user, group).
pub open spec fn ms_uniq(ms: Seq<UserGroupModel>) -> bool {
    forall|i: int, j: int| 0 <= i < j < ms.len() ==> !(ms[i].user_id@ == ms[j].user_id@
        && ms[i].group_id@ == ms[j].group_id@)
}

/// The role of `(u, g)`'s membership, if one exists.
pub open spec fn spec_role_of(ms: Seq<UserGroupModel>, u: Seq<char>, g: Seq<char>) -> Option<
    UserRole,
> {
    if ms_has(ms, u, g) {
        Some(ms[ms_idx(ms, u, g)].role)
    } else {
        None
    }
}

proof fn lemma_ms_idx_agrees(ms: Seq<UserGroupModel>, i: int)
    requires
        ms_uniq(ms),
        0 <= i < ms.len(),
    ensures
        ms_has(ms, ms[i].user_id@, ms[i].group_id@),
        ms_idx(ms, ms[i].user_id@, ms[i].group_id@) == i,
        spec_role_of(ms, ms[i].user_id@, ms[i].group_id@) == Some(ms[i].role),
{
    assert(ms_has(ms, ms[i].user_id@, ms[i].group_id@));
    let j = ms_idx(ms, ms[i].user_id@, ms[i].group_id@);
    if j != i {
        assert(false);
    }
}

/// Appending a fresh membership row adds exactly that pair.
proof fn lemma_ms_push(ms: Seq<UserGroupModel>, m: UserGroupModel)
    requires
        ms_uniq(ms),
        !ms_has(ms, m.user_id@, m.group_id@),
    ensures
        ms_uniq(ms.push(m)),
        forall|u: Seq<char>, g: Seq<char>| !(u == m.user_id@ && g == m.group_id@) ==> (#[trigger] ms_has(
            ms.push(m),
            u,
            g,
        ) == ms_has(ms, u, g)) && spec_role_of(ms.push(m), u, g) == spec_role_of(ms, u, g),
        ms_has(ms.push(m), m.user_id@, m.group_id@),
        spec_role_of(ms.push(m), m.user_id@, m.group_id@) == Some(m.role),
{
    let post = ms.push(m);
    assert(post[ms.len() as int] == m);
    assert forall|i: int, j: int| 0 <= i < j < post.len() implies !(post[i].user_id@
        == post[j].user_id@ && post[i].group_id@ == post[j].group_id@) by {
        if j < ms.len() {
            assert(post[i] == ms[i] && post[j] == ms[j]);
        } else {
            assert(post[j] == m);
            assert(post[i] == ms[i]);
            assert(ms_has(ms, ms[i].user_id@, ms[i].group_id@));
        }
    }
    assert forall|u: Seq<char>, g: Seq<char>| !(u == m.user_id@ && g == m.group_id@) implies (
    #[trigger] ms_has(post, u, g) == ms_has(ms, u, g)) && spec_role_of(post, u, g) == spec_role_of(
        ms,
        u,
        g,
    ) by {
        if ms_has(post, u, g) {
            let i = choose|i: int| 0 <= i < post.len() && post[i].user_id@ == u && post[i].group_id@
                == g;
            assert(i < ms.len());
            assert(ms[i].user_id@ == u && ms[i].group_id@ == g);
            lemma_ms_idx_agrees(post, i);
            lemma_ms_idx_agrees(ms, i);
        } else {
            if ms_has(ms, u, g) {
                let i = ms_idx(ms, u, g);
                assert(post[i].user_id@ == u && post[i].group_id@ == g);
            }
        }
    }
    lemma_ms_idx_agrees(post, ms.len() as int);
}

/// Removing the row at `i` removes exactly its pair.
proof fn lemma_ms_remove(ms: Seq<UserGroupModel>, i: int)
    requires
        ms_uniq(ms),
        0 <= i < ms.len(),
    ensures
        ms_uniq(ms.remove(i)),
        !ms_has(ms.remove(i), ms[i].user_id@, ms[i].group_id@),
        forall|u: Seq<char>, g: Seq<char>| !(u == ms[i].user_id@ && g == ms[i].group_id@) ==> (
        #[trigger] ms_has(ms.remove(i), u, g) == ms_has(ms, u, g)) && spec_role_of(
            ms.remove(i),
            u,
            g,
        ) == spec_role_of(ms, u, g),
{
    let post = ms.remove(i);
    ms.remove_ensures(i);
    assert forall|a: int, b: int| 0 <= a < b < post.len() implies !(post[a].user_id@
        == post[b].user_id@ && post[a].group_id@ == post[b].group_id@) by {
        let a2 = if a < i {
            a
        } else {
            a + 1
        };
        let b2 = if b < i {
            b
        } else {
            b + 1
        };
        assert(post[a] == ms[a2]);
        assert(post[b] == ms[b2]);
    }
    if ms_has(post, ms[i].user_id@, ms[i].group_id@) {
        let j = ms_idx(post, ms[i].user_id@, ms[i].group_id@);
        let j2 = if j < i {
            j
        } else {
            j + 1
        };
        assert(post[j] == ms[j2]);
        assert(false);
    }
    assert forall|u: Seq<char>, g: Seq<char>| !(u == ms[i].user_id@ && g == ms[i].group_id@) implies
        (#[trigger] ms_has(post, u, g) == ms_has(ms, u, g)) && spec_role_of(post, u, g)
        == spec_role_of(ms, u, g) by {
        if ms_has(post, u, g) {
            let j = ms_idx(post, u, g);
            assert(post[j].user_id@ == u && post[j].group_id@ == g);
            let j2 = if j < i {
                j
            } else {
                j + 1
            };
            assert(post[j] == ms[j2]);
            assert(ms_has(ms, u, g));
            lemma_ms_idx_agrees(ms, j2);
            lemma_ms_idx_agrees(post, j);
        } else {
            if ms_has(ms, u, g) {
                let j = ms_idx(ms, u, g);
                assert(j != i);
                let j2 = if j < i {
                    j
                } else {
                    j - 1
                };
                assert(post[j2] == ms[j]);
                assert(false);
            }
        }
    }
}

// ------------------------------------------------------------- messages ----
/// Well-formedness of the message table: identities below the counter and
/// strictly increasing, creation times nondecreasing and at most `last_date`.
pub open spec fn msgs_wf(msgs: Seq<MessageModel>, next_id: u64, last_date: u64) -> bool {
    &&& forall|i: int| 0 <= i < msgs.len() ==> (#[trigger] msgs[i].id < next_id
        && msgs[i].created_at <= last_date)
    &&& forall|i: int, j: int| 0 <= i < j < msgs.len() ==> msgs[i].id < msgs[j].id
        && msgs[i].created_at <= msgs[j].created_at
}

/// The client view of one stored row: the sender id resolved to a username.
pub open spec fn spec_client_msg(m: MessageModel, users: Seq<UserModel>) -> Message {
    Message {
        id: m.id,
        sender: match m.sender_id {
            Some(uid) => spec_username_of(users, uid@),
            None => None,
        },
        content: m.content,
        msg_type: m.msg_type,
        date: m.created_at,
    }
}

/// Every element of a filtering is an element of the source.
proof fn lemma_filter_subset<A>(s: Seq<A>, p: spec_fn(A) -> bool)
    ensures
        forall|a: int| 0 <= a < s.filter(p).len() ==> s.contains(#[trigger] s.filter(p)[a]),
    decreases s.len(),
{
    reveal(Seq::filter);
    if s.len() > 0 {
        let rest = s.drop_last();
        lemma_filter_subset(rest, p);
        assert forall|a: int| 0 <= a < s.filter(p).len() implies s.contains(
            #[trigger] s.filter(p)[a],
        ) by {
            let out = s.filter(p);
            let sub = rest.filter(p);
            if a < sub.len() {
                assert(out[a] == sub[a]);
                assert(rest.contains(sub[a]));
                let j = choose|j: int| 0 <= j < rest.len() && rest[j] == sub[a];
                assert(s[j] == sub[a]);
            } else {
                assert(out[a] == s.last());
                assert(s[s.len() - 1] == s.last());
            }
        }
    }
}

/// Filtering the message table preserves its well-formedness.
proof fn lemma_msgs_filter_wf(
    msgs: Seq<MessageModel>,
    p: spec_fn(MessageModel) -> bool,
    next_id: u64,
    last_date: u64,
)
    requires
        msgs_wf(msgs, next_id, last_date),
    ensures
        msgs_wf(msgs.filter(p), next_id, last_date),
    decreases msgs.len(),
{
    reveal(Seq::filter);
    if msgs.len() > 0 {
        let rest = msgs.drop_last();
        lemma_msgs_filter_wf(rest, p, next_id, last_date);
        let sub = rest.filter(p);
        if p(msgs.last()) {
            lemma_filter_subset(rest, p);
            assert forall|a: int| 0 <= a < sub.len() implies #[trigger] sub[a].id
                < msgs.last().id && sub[a].created_at <= msgs.last().created_at by {
                assert(rest.contains(sub[a]));
                let j = choose|j: int| 0 <= j < rest.len() && rest[j] == sub[a];
                assert(msgs[j] == sub[a]);
            }
            assert(msgs.filter(p) == sub.push(msgs.last()));
        } else {
            assert(msgs.filter(p) == sub);
        }
    }
}

/// Removing the row at `i` removes exactly its group.
proof fn lemma_groups_remove(groups: Seq<GroupModel>, i: int)
    requires
        groups_uniq(groups),
        0 <= i < groups.len(),
    ensures
        groups_uniq(groups.remove(i)),
        !groups_has(groups.remove(i), groups[i].id@),
        forall|k: Seq<char>| k != groups[i].id@ ==> (#[trigger] groups_has(groups.remove(i), k)
            == groups_has(groups, k)) && spec_group_name_of(groups.remove(i), k)
            == spec_group_name_of(groups, k),
{
    let post = groups.remove(i);
    groups.remove_ensures(i);
    assert forall|a: int, b: int| 0 <= a < b < post.len() implies post[a].id@ != post[b].id@ by {
        let a2 = if a < i {
            a
        } else {
            a + 1
        };
        let b2 = if b < i {
            b
        } else {
            b + 1
        };
        assert(post[a] == groups[a2]);
        assert(post[b] == groups[b2]);
    }
    if groups_has(post, groups[i].id@) {
        let j = groups_idx(post, groups[i].id@);
        let j2 = if j < i {
            j
        } else {
            j + 1
        };
        assert(post[j] == groups[j2]);
        assert(false);
    }
    assert forall|k: Seq<char>| k != groups[i].id@ implies (#[trigger] groups_has(post, k)
        == groups_has(groups, k)) && spec_group_name_of(post, k) == spec_group_name_of(
        groups,
        k,
    ) by {
        if groups_has(post, k) {
            let j = groups_idx(post, k);
            assert(post[j].id@ == k);
            let j2 = if j < i {
                j
            } else {
                j + 1
            };
            assert(post[j] == groups[j2]);
            assert(groups_has(groups, k));
            lemma_groups_idx_agrees(groups, j2);
            lemma_groups_idx_agrees(post, j);
        } else {
            if groups_has(groups, k) {
                let j = groups_idx(groups, k);
                assert(j != i);
                let j2 = if j < i {
                    j
                } else {
                    j - 1
                };
                assert(post[j2] == groups[j]);
                assert(false);
            }
        }
    }
}

/// Selector for the groups a user belongs to.
pub open spec fn member_groups_filter(groups: Seq<GroupModel>, uid: Seq<char>) -> spec_fn(
    UserGroupModel,
) -> Option<GroupModel> {
    |m: UserGroupModel|
        if m.user_id@ == uid && groups_has(groups, m.group_id@) {
            Some(groups[groups_idx(groups, m.group_id@)])
        } else {
            None
        }
}

/// Selector for the members of a group, with their roles.
pub open spec fn group_members_filter(users: Seq<UserModel>, gid: Seq<char>) -> spec_fn(
    UserGroupModel,
) -> Option<(String, UserRole)> {
    |m: UserGroupModel|
        if m.group_id@ == gid && users_has(users, m.user_id@) {
            Some((users[users_idx(users, m.user_id@)].username, m.role))
        } else {
            None
        }
}

/// Selector for one room's rows, in the client view.
pub open spec fn room_filter(room: Seq<char>, users: Seq<UserModel>) -> spec_fn(MessageModel) -> Option<Message> {
    |m: MessageModel|
        if m.receiver_group_id@ == room {
            Some(spec_client_msg(m, users))
        } else {
            None
        }
}

/// The store itself.
pub struct DurableStore {
    pub users: Vec<UserModel>,
    pub groups: Vec<GroupModel>,
    pub memberships: Vec<UserGroupModel>,
    pub messages: Vec<MessageModel>,
    pub next_msg_id: u64,
    pub last_date: u64,
}

impl DurableStore {
    pub open spec fn wf(self) -> bool {
        &&& users_uniq(self.users@)
        &&& groups_uniq(self.groups@)
        &&& ms_uniq(self.memberships@)
        &&& msgs_wf(self.messages@, self.next_msg_id, self.last_date)
    }

    /// The room's full history in the client view, chronological order.
    pub open spec fn spec_history(self, room: Seq<char>) -> Seq<Message> {
        self.messages@.filter_map(room_filter(room, self.users@))
    }

    pub fn new() -> (r: DurableStore)
        ensures
            r.wf(),
            r.users@ == Seq::<UserModel>::empty(),
            r.groups@ == Seq::<GroupModel>::empty(),
            r.memberships@ == Seq::<UserGroupModel>::empty(),
            r.messages@ == Seq::<MessageModel>::empty(),
            r.next_msg_id == 1,
            r.last_date == 0,
    {
        DurableStore {
            users: Vec::new(),
            groups: Vec::new(),
            memberships: Vec::new(),
            messages: Vec::new(),
            next_msg_id: 1,
            last_date: 0,
        }
    }

    fn find_user_idx(&self, id: &String) -> (r: Option<usize>)
        ensures
            match r {
                Some(i) => i < self.users@.len() && self.users@[i as int].id@ == id@,
                None => !users_has(self.users@, id@),
            },
    {
        let n = self.users.len();
        let mut i: usize = 0;
        while i < n
            invariant
                n == self.users@.len(),
                i <= n,
                forall|j: int| 0 <= j < i ==> self.users@[j].id@ != id@,
            decreases n - i,
        {
            if self.users[i].id.eq(id) {
                return Some(i);
            }
            i = i + 1;
        }
        None
    }

    fn find_uname_idx(&self, name: &String) -> (r: Option<usize>)
        ensures
            match r {
                Some(i) => i < self.users@.len() && self.users@[i as int].username@ == name@,
                None => !uname_has(self.users@, name@),
            },
    {
        let n = self.users.len();
        let mut i: usize = 0;
        while i < n
            invariant
                n == self.users@.len(),
                i <= n,
                forall|j: int| 0 <= j < i ==> self.users@[j].username@ != name@,
            decreases n - i,
        {
            if self.users[i].username.eq(name) {
                return Some(i);
            }
            i = i + 1;
        }
        None
    }

    /// Whether a user with this id exists.
    pub fn user_exists(&self, user_id: &String) -> (r: bool)
        requires
            self.wf(),
        ensures
            r == users_has(self.users@, user_id@),
    {
        match self.find_user_idx(user_id) {
            Some(_) => true,
            None => false,
        }
    }

    /// The row carrying this username, if any.
    pub fn find_user(&self, username: &String) -> (r: Option<UserModel>)
        requires
            self.wf(),
        ensures
            r == spec_user_by_username(self.users@, username@),
    {
        match self.find_uname_idx(username) {
            Some(i) => {
                proof {
                    lemma_users_idx_agrees(self.users@, i as int);
                }
                Some(self.users[i].clone())
            },
            None => None,
        }
    }

    /// The username of this user id, if any.
    pub fn username_of(&self, user_id: &String) -> (r: Option<String>)
        requires
            self.wf(),
        ensures
            r == spec_username_of(self.users@, user_id@),
    {
        match self.find_user_idx(user_id) {
            Some(i) => {
                proof {
                    lemma_users_idx_agrees(self.users@, i as int);
                }
                Some(self.users[i].username.clone())
            },
            None => None,
        }
    }

    /// Inserts a user row; fails on a duplicate id or username.
    pub fn insert_user(&mut self, id: String, username: String, password_hash: String) -> (r:
        Result<(), DbError>)
        requires
            old(self).wf(),
        ensures
            final(self).wf(),
            final(self).groups@ == old(self).groups@,
            final(self).memberships@ == old(self).memberships@,
            final(self).messages@ == old(self).messages@,
            final(self).next_msg_id == old(self).next_msg_id,
            final(self).last_date == old(self).last_date,
            users_has(old(self).users@, id@) || uname_has(old(self).users@, username@) ==> (r
                matches Err(e) && e is UniqueViolation && final(self).users@ == old(self).users@),
            !(users_has(old(self).users@, id@) || uname_has(old(self).users@, username@)) ==> r
                is Ok && final(self).users@ == old(self).users@.push(
                (UserModel { id, username, password_hash }),
            ),
    {
        if self.find_user_idx(&id).is_some() || self.find_uname_idx(&username).is_some() {
            return Err(DbError::UniqueViolation);
        }
        let ghost pre = self.users@;
        let row = UserModel { id, username, password_hash };
        proof {
            lemma_users_push(pre, row);
        }
        self.users.push(row);
        Ok(())
    }

    /// Whether `(user, group)` has a membership, optionally of a given role.
    pub fn user_in_group(&self, user_id: &String, group_id: &String, role: Option<UserRole>) -> (r:
        bool)
        requires
            self.wf(),
        ensures
            match role {
                None => r == ms_has(self.memberships@, user_id@, group_id@),
                Some(ro) => r == (spec_role_of(self.memberships@, user_id@, group_id@) == Some(
                    ro,
                )),
            },
    {
        match self.find_ms_idx(user_id, group_id) {
            Some(i) => {
                proof {
                    lemma_ms_idx_agrees(self.memberships@, i as int);
                }
                match role {
                    None => true,
                    Some(ro) => self.memberships[i].role == ro,
                }
            },
            None => false,
        }
    }

    fn find_ms_idx(&self, user_id: &String, group_id: &String) -> (r: Option<usize>)
        ensures
            match r {
                Some(i) => i < self.memberships@.len() && self.memberships@[i as int].user_id@
                    == user_id@ && self.memberships@[i as int].group_id@ == group_id@,
                None => !ms_has(self.memberships@, user_id@, group_id@),
            },
    {
        let n = self.memberships.len();
        let mut i: usize = 0;
        while i < n
            invariant
                n == self.memberships@.len(),
                i <= n,
                forall|j: int| 0 <= j < i ==> !(self.memberships@[j].user_id@ == user_id@
                    && self.memberships@[j].group_id@ == group_id@),
            decreases n - i,
        {
            if self.memberships[i].user_id.eq(user_id) && self.memberships[i].group_id.eq(group_id) {
                return Some(i);
            }
            i = i + 1;
        }
        None
    }

    /// Inserts a membership row.  A missing user or group row breaks the
    /// table's references and is a plain store failure; a duplicate
    /// (user, group) pair is a uniqueness violation.
    pub fn insert_membership(&mut self, user_id: String, group_id: String, role: UserRole) -> (r:
        Result<(), DbError>)
        requires
            old(self).wf(),
        ensures
            final(self).wf(),
            final(self).users@ == old(self).users@,
            final(self).groups@ == old(self).groups@,
            final(self).messages@ == old(self).messages@,
            final(self).next_msg_id == old(self).next_msg_id,
            final(self).last_date == old(self).last_date,
            !(users_has(old(self).users@, user_id@) && groups_has(old(self).groups@, group_id@))
                ==> (r matches Err(e) && e is Other && final(self).memberships@ == old(
                self,
            ).memberships@),
            users_has(old(self).users@, user_id@) && groups_has(old(self).groups@, group_id@)
                && ms_has(old(self).memberships@, user_id@, group_id@) ==> (r matches Err(e) && e
                is UniqueViolation && final(self).memberships@ == old(self).memberships@),
            users_has(old(self).users@, user_id@) && groups_has(old(self).groups@, group_id@)
                && !ms_has(old(self).memberships@, user_id@, group_id@) ==> r is Ok && {
                &&& ms_has(final(self).memberships@, user_id@, group_id@)
                &&& spec_role_of(final(self).memberships@, user_id@, group_id@) == Some(role)
                &&& forall|u: Seq<char>, g: Seq<char>| !(u == user_id@ && g == group_id@) ==> (
                #[trigger] ms_has(final(self).memberships@, u, g) == ms_has(
                    old(self).memberships@,
                    u,
                    g,
                )) && spec_role_of(final(self).memberships@, u, g) == spec_role_of(
                    old(self).memberships@,
                    u,
                    g,
                )
            },
    {
        if self.find_user_idx(&user_id).is_none() || self.find_group_idx(&group_id).is_none() {
            return Err(DbError::Other);
        }
        if self.find_ms_idx(&user_id, &group_id).is_some() {
            return Err(DbError::UniqueViolation);
        }
        let ghost pre = self.memberships@;
        let row = UserGroupModel { user_id, group_id, role };
        proof {
            lemma_ms_push(pre, row);
        }
        self.memberships.push(row);
        Ok(())
    }

    /// Deletes the membership of `(user, group)` if it exists; says whether
    /// a row was deleted.
    pub fn delete_membership(&mut self, user_id: &String, group_id: &String) -> (r: bool)
        requires
            old(self).wf(),
        ensures
            final(self).wf(),
            final(self).users@ == old(self).users@,
            final(self).groups@ == old(self).groups@,
            final(self).messages@ == old(self).messages@,
            final(self).next_msg_id == old(self).next_msg_id,
            final(self).last_date == old(self).last_date,
            r == ms_has(old(self).memberships@, user_id@, group_id@),
            !r ==> final(self).memberships@ == old(self).memberships@,
            !ms_has(final(self).memberships@, user_id@, group_id@),
            forall|u: Seq<char>, g: Seq<char>| !(u == user_id@ && g == group_id@) ==> (#[trigger] ms_has(
                final(self).memberships@,
                u,
                g,
            ) == ms_has(old(self).memberships@, u, g)) && spec_role_of(
                final(self).memberships@,
                u,
                g,
            ) == spec_role_of(old(self).memberships@, u, g),
    {
        match self.find_ms_idx(user_id, group_id) {
            Some(i) => {
                proof {
                    lemma_ms_remove(self.memberships@, i as int);
                }
                self.memberships.remove(i);
                true
            },
            None => false,
        }
    }

    /// Inserts a message row, assigning its identity and creation time.
    /// The clock may not run backwards relative to what is already stored.
    pub fn insert_message(
        &mut self,
        room: String,
        sender_id: Option<String>,
        content: String,
        msg_type: MessageType,
        now: u64,
    ) -> (m: MessageModel)
        requires
            old(self).wf(),
            now >= old(self).last_date,
            old(self).next_msg_id < u64::MAX,
        ensures
            final(self).wf(),
            final(self).users@ == old(self).users@,
            final(self).groups@ == old(self).groups@,
            final(self).memberships@ == old(self).memberships@,
            m.id == old(self).next_msg_id,
            m.created_at == now,
            m.sender_id == sender_id,
            m.receiver_group_id == room,
            m.content == content,
            m.msg_type == msg_type,
            final(self).messages@ == old(self).messages@.push(m),
            final(self).next_msg_id == old(self).next_msg_id + 1,
            final(self).last_date == now,
    {
        let m = MessageModel {
            id: self.next_msg_id,
            sender_id,
            receiver_group_id: room,
            content,
            msg_type,
            created_at: now,
        };
        let stored = m.clone();
        proof {
            assert(stored == m);
        }
        self.messages.push(stored);
        self.next_msg_id = self.next_msg_id + 1;
        self.last_date = now;
        m
    }

    fn find_group_idx(&self, id: &String) -> (r: Option<usize>)
        ensures
            match r {
                Some(i) => i < self.groups@.len() && self.groups@[i as int].id@ == id@,
                None => !groups_has(self.groups@, id@),
            },
    {
        let n = self.groups.len();
        let mut i: usize = 0;
        while i < n
            invariant
                n == self.groups@.len(),
                i <= n,
                forall|j: int| 0 <= j < i ==> self.groups@[j].id@ != id@,
            decreases n - i,
        {
            if self.groups[i].id.eq(id) {
                return Some(i);
            }
            i = i + 1;
        }
        None
    }

    /// The name of the group with this id, if any.
    pub fn group_name_of(&self, group_id: &String) -> (r: Option<String>)
        requires
            self.wf(),
        ensures
            r == spec_group_name_of(self.groups@, group_id@),
    {
        match self.find_group_idx(group_id) {
            Some(i) => {
                proof {
                    lemma_groups_idx_agrees(self.groups@, i as int);
                }
                Some(self.groups[i].name.clone())
            },
            None => None,
        }
    }

    /// Inserts a group row; fails on a duplicate id.
    pub fn insert_group(&mut self, id: String, name: String) -> (r: Result<(), DbError>)
        requires
            old(self).wf(),
        ensures
            final(self).wf(),
            final(self).users@ == old(self).users@,
            final(self).memberships@ == old(self).memberships@,
            final(self).messages@ == old(self).messages@,
            final(self).next_msg_id == old(self).next_msg_id,
            final(self).last_date == old(self).last_date,
            groups_has(old(self).groups@, id@) ==> (r matches Err(e) && e is UniqueViolation
                && final(self).groups@ == old(self).groups@),
            !groups_has(old(self).groups@, id@) ==> (r is Ok && final(self).groups@ == old(
                self,
            ).groups@.push((GroupModel { id, name })) && groups_has(final(self).groups@, id@)
                && spec_group_name_of(final(self).groups@, id@) == Some(name) && (forall|
                k: Seq<char>,
            | k != id@ ==> (#[trigger] groups_has(final(self).groups@, k) == groups_has(
                old(self).groups@,
                k,
            )) && spec_group_name_of(final(self).groups@, k) == spec_group_name_of(
                old(self).groups@,
                k,
            ))),
    {
        if self.find_group_idx(&id).is_some() {
            return Err(DbError::UniqueViolation);
        }
        let ghost pre = self.groups@;
        let row = GroupModel { id, name };
        proof {
            lemma_groups_push(pre, row);
        }
        self.groups.push(row);
        Ok(())
    }

    /// Deletes every membership of the group.
    pub fn purge_group_memberships(&mut self, group_id: &String)
        requires
            old(self).wf(),
        ensures
            final(self).wf(),
            final(self).users@ == old(self).users@,
            final(self).groups@ == old(self).groups@,
            final(self).messages@ == old(self).messages@,
            final(self).next_msg_id == old(self).next_msg_id,
            final(self).last_date == old(self).last_date,
            forall|u: Seq<char>, g: Seq<char>| #[trigger] ms_has(final(self).memberships@, u, g)
                <==> (ms_has(old(self).memberships@, u, g) && g != group_id@),
            forall|u: Seq<char>, g: Seq<char>| g != group_id@ ==> #[trigger] spec_role_of(
                final(self).memberships@,
                u,
                g,
            ) == spec_role_of(old(self).memberships@, u, g),
    {
        let mut i: usize = 0;
        while i < self.memberships.len()
            invariant
                old(self).wf(),
                ms_uniq(self.memberships@),
                self.users@ == old(self).users@,
                self.groups@ == old(self).groups@,
                self.messages@ == old(self).messages@,
                self.next_msg_id == old(self).next_msg_id,
                self.last_date == old(self).last_date,
                i <= self.memberships@.len(),
                forall|j: int| 0 <= j < i ==> self.memberships@[j].group_id@ != group_id@,
                forall|u: Seq<char>, g: Seq<char>| #[trigger] ms_has(self.memberships@, u, g)
                    ==> ms_has(old(self).memberships@, u, g),
                forall|u: Seq<char>, g: Seq<char>| g != group_id@ ==> (#[trigger] ms_has(
                    self.memberships@,
                    u,
                    g,
                ) == ms_has(old(self).memberships@, u, g)) && spec_role_of(
                    self.memberships@,
                    u,
                    g,
                ) == spec_role_of(old(self).memberships@, u, g),
            decreases self.memberships@.len() - i,
        {
            if self.memberships[i].group_id.eq(group_id) {
                proof {
                    lemma_ms_remove(self.memberships@, i as int);
                }
                self.memberships.remove(i);
            } else {
                i = i + 1;
            }
        }
        proof {
            assert forall|u: Seq<char>, g: Seq<char>| #[trigger] ms_has(self.memberships@, u, g)
                implies g != group_id@ by {
                if g == group_id@ {
                    let j = ms_idx(self.memberships@, u, g);
                    assert(self.memberships@[j].group_id@ == g);
                }
            }
        }
    }

    /// Deletes every membership of the user.
    pub fn purge_user_memberships(&mut self, user_id: &String)
        requires
            old(self).wf(),
        ensures
            final(self).wf(),
            final(self).users@ == old(self).users@,
            final(self).groups@ == old(self).groups@,
            final(self).messages@ == old(self).messages@,
            final(self).next_msg_id == old(self).next_msg_id,
            final(self).last_date == old(self).last_date,
            forall|u: Seq<char>, g: Seq<char>| #[trigger] ms_has(final(self).memberships@, u, g)
                <==> (ms_has(old(self).memberships@, u, g) && u != user_id@),
            forall|u: Seq<char>, g: Seq<char>| u != user_id@ ==> #[trigger] spec_role_of(
                final(self).memberships@,
                u,
                g,
            ) == spec_role_of(old(self).memberships@, u, g),
    {
        let mut i: usize = 0;
        while i < self.memberships.len()
            invariant
                old(self).wf(),
                ms_uniq(self.memberships@),
                self.users@ == old(self).users@,
                self.groups@ == old(self).groups@,
                self.messages@ == old(self).messages@,
                self.next_msg_id == old(self).next_msg_id,
                self.last_date == old(self).last_date,
                i <= self.memberships@.len(),
                forall|j: int| 0 <= j < i ==> self.memberships@[j].user_id@ != user_id@,
                forall|u: Seq<char>, g: Seq<char>| #[trigger] ms_has(self.memberships@, u, g)
                    ==> ms_has(old(self).memberships@, u, g),
                forall|u: Seq<char>, g: Seq<char>| u != user_id@ ==> (#[trigger] ms_has(
                    self.memberships@,
                    u,
                    g,
                ) == ms_has(old(self).memberships@, u, g)) && spec_role_of(
                    self.memberships@,
                    u,
                    g,
                ) == spec_role_of(old(self).memberships@, u, g),
            decreases self.memberships@.len() - i,
        {
            if self.memberships[i].user_id.eq(user_id) {
                proof {
                    lemma_ms_remove(self.memberships@, i as int);
                }
                self.memberships.remove(i);
            } else {
                i = i + 1;
            }
        }
        proof {
            assert forall|u: Seq<char>, g: Seq<char>| #[trigger] ms_has(self.memberships@, u, g)
                implies u != user_id@ by {
                if u == user_id@ {
                    let j = ms_idx(self.memberships@, u, g);
                    assert(self.memberships@[j].user_id@ == u);
                }
            }
        }
    }

    /// Deletes a user row, leaving messages they sent in place; says which
    /// username went, if any.  The caller purges memberships first.
    pub fn delete_user_row(&mut self, user_id: &String) -> (r: Option<String>)
        requires
            old(self).wf(),
        ensures
            final(self).wf(),
            final(self).groups@ == old(self).groups@,
            final(self).memberships@ == old(self).memberships@,
            final(self).messages@ == old(self).messages@,
            final(self).next_msg_id == old(self).next_msg_id,
            final(self).last_date == old(self).last_date,
            r == spec_username_of(old(self).users@, user_id@),
            !users_has(final(self).users@, user_id@),
            forall|k: Seq<char>| k != user_id@ ==> (#[trigger] users_has(final(self).users@, k)
                == users_has(old(self).users@, k)) && spec_username_of(final(self).users@, k)
                == spec_username_of(old(self).users@, k),
    {
        match self.find_user_idx(user_id) {
            Some(i) => {
                proof {
                    lemma_users_idx_agrees(self.users@, i as int);
                    lemma_users_remove(self.users@, i as int);
                }
                let name = self.users[i].username.clone();
                self.users.remove(i);
                Some(name)
            },
            None => None,
        }
    }

    /// Updates a user's username and credential hash, each only where a
    /// replacement is given.  A missing row is a missing row; a username
    /// already held by someone else is a uniqueness violation.
    pub fn update_user(
        &mut self,
        user_id: &String,
        username: Option<String>,
        password_hash: Option<String>,
    ) -> (r: Result<String, DbError>)
        requires
            old(self).wf(),
        ensures
            final(self).wf(),
            final(self).groups@ == old(self).groups@,
            final(self).memberships@ == old(self).memberships@,
            final(self).messages@ == old(self).messages@,
            final(self).next_msg_id == old(self).next_msg_id,
            final(self).last_date == old(self).last_date,
            !users_has(old(self).users@, user_id@) ==> (r matches Err(e) && e is RowNotFound
                && final(self).users@ == old(self).users@),
            match r {
                Ok(name) => {
                    &&& users_has(old(self).users@, user_id@)
                    &&& Some(name) == spec_username_of(final(self).users@, user_id@)
                    &&& name@ == match username {
                        Some(n) => n@,
                        None => spec_username_of(old(self).users@, user_id@)->0@,
                    }
                    &&& forall|k: Seq<char>| k != user_id@ ==> (#[trigger] users_has(
                        final(self).users@,
                        k,
                    ) == users_has(old(self).users@, k)) && spec_username_of(
                        final(self).users@,
                        k,
                    ) == spec_username_of(old(self).users@, k)
                },
                Err(e) => !(e is RowNotFound) ==> e is UniqueViolation && final(self).users@
                    == old(self).users@,
            },
    {
        let i = match self.find_user_idx(user_id) {
            Some(i) => i,
            None => {
                return Err(DbError::RowNotFound);
            },
        };
        proof {
            lemma_users_idx_agrees(self.users@, i as int);
        }
        let new_name = match username {
            Some(n) => n,
            None => self.users[i].username.clone(),
        };
        match self.find_uname_idx(&new_name) {
            Some(j) => {
                if j != i {
                    return Err(DbError::UniqueViolation);
                }
            },
            None => {},
        }
        let new_hash = match password_hash {
            Some(h) => h,
            None => self.users[i].password_hash.clone(),
        };
        let row = UserModel { id: self.users[i].id.clone(), username: new_name, password_hash: new_hash };
        proof {
            lemma_users_remove(self.users@, i as int);
        }
        self.users.remove(i);
        let ghost pre = self.users@;
        proof {
            lemma_users_push(pre, row);
        }
        let name_out = row.username.clone();
        self.users.push(row);
        Ok(name_out)
    }

    /// Deletes a group with everything that hangs off it: its memberships,
    /// its messages, then the row itself.
    pub fn delete_group(&mut self, group_id: &String)
        requires
            old(self).wf(),
        ensures
            final(self).wf(),
            final(self).users@ == old(self).users@,
            final(self).next_msg_id == old(self).next_msg_id,
            final(self).last_date == old(self).last_date,
            !groups_has(final(self).groups@, group_id@),
            forall|k: Seq<char>| k != group_id@ ==> (#[trigger] groups_has(final(self).groups@, k)
                == groups_has(old(self).groups@, k)) && spec_group_name_of(final(self).groups@, k)
                == spec_group_name_of(old(self).groups@, k),
            forall|u: Seq<char>, g: Seq<char>| #[trigger] ms_has(final(self).memberships@, u, g)
                <==> (ms_has(old(self).memberships@, u, g) && g != group_id@),
            final(self).messages@ == old(self).messages@.filter(
                |m: MessageModel| m.receiver_group_id@ != group_id@,
            ),
    {
        self.purge_group_memberships(group_id);
        let ghost p = |m: MessageModel| m.receiver_group_id@ != group_id@;
        let n = self.messages.len();
        let mut kept: Vec<MessageModel> = Vec::new();
        let mut i: usize = 0;
        while i < n
            invariant
                n == self.messages@.len(),
                i <= n,
                p == (|m: MessageModel| m.receiver_group_id@ != group_id@),
                kept@ == self.messages@.take(i as int).filter(p),
            decreases n - i,
        {
            let ghost pre = kept@;
            if !self.messages[i].receiver_group_id.eq(group_id) {
                kept.push(self.messages[i].clone());
            }
            i = i + 1;
            proof {
                reveal(Seq::filter);
                let t = self.messages@.take(i as int);
                assert(t.drop_last() =~= self.messages@.take(i as int - 1));
                assert(t.last() == self.messages@[i as int - 1]);
                if p(t.last()) {
                    assert(kept@ =~= pre.push(t.last()));
                }
                assert(kept@ == t.filter(p));
            }
        }
        proof {
            assert(self.messages@.take(n as int) =~= self.messages@);
            lemma_msgs_filter_wf(self.messages@, p, self.next_msg_id, self.last_date);
        }
        self.messages = kept;
        match self.find_group_idx(group_id) {
            Some(g) => {
                proof {
                    lemma_groups_remove(self.groups@, g as int);
                    lemma_groups_idx_agrees(self.groups@, g as int);
                }
                self.groups.remove(g);
            },
            None => {},
        }
    }

    /// The groups the user belongs to, in membership order.
    pub fn user_groups_of(&self, user_id: &String) -> (r: Vec<GroupModel>)
        requires
            self.wf(),
        ensures
            r@ == self.memberships@.filter_map(member_groups_filter(self.groups@, user_id@)),
    {
        let ghost f = member_groups_filter(self.groups@, user_id@);
        let n = self.memberships.len();
        let mut r: Vec<GroupModel> = Vec::new();
        let mut i: usize = 0;
        while i < n
            invariant
                self.wf(),
                n == self.memberships@.len(),
                i <= n,
                f == member_groups_filter(self.groups@, user_id@),
                r@ == self.memberships@.take(i as int).filter_map(f),
            decreases n - i,
        {
            let ghost pre = r@;
            let row = &self.memberships[i];
            if row.user_id.eq(user_id) {
                match self.find_group_idx(&row.group_id) {
                    Some(g) => {
                        proof {
                            lemma_groups_idx_agrees(self.groups@, g as int);
                        }
                        r.push(self.groups[g].clone());
                    },
                    None => {},
                }
            }
            i = i + 1;
            proof {
                let t = self.memberships@.take(i as int);
                assert(t.drop_last() =~= self.memberships@.take(i as int - 1));
                assert(t.last() == self.memberships@[i as int - 1]);
                match f(t.last()) {
                    Some(v) => {
                        assert(r@ =~= pre + seq![v]);
                    },
                    None => {
                        assert(r@ =~= pre + Seq::<GroupModel>::empty());
                    },
                }
                assert(r@ == t.filter_map(f));
            }
        }
        proof {
            assert(self.memberships@.take(n as int) =~= self.memberships@);
        }
        r
    }

    /// The members of a group, each with their role, in membership order.
    pub fn members_of(&self, group_id: &String) -> (r: Vec<(String, UserRole)>)
        requires
            self.wf(),
        ensures
            r@ == self.memberships@.filter_map(group_members_filter(self.users@, group_id@)),
    {
        let ghost f = group_members_filter(self.users@, group_id@);
        let n = self.memberships.len();
        let mut r: Vec<(String, UserRole)> = Vec::new();
        let mut i: usize = 0;
        while i < n
            invariant
                self.wf(),
                n == self.memberships@.len(),
                i <= n,
                f == group_members_filter(self.users@, group_id@),
                r@ == self.memberships@.take(i as int).filter_map(f),
            decreases n - i,
        {
            let ghost pre = r@;
            let row = &self.memberships[i];
            if row.group_id.eq(group_id) {
                match self.find_user_idx(&row.user_id) {
                    Some(u) => {
                        proof {
                            lemma_users_idx_agrees(self.users@, u as int);
                        }
                        r.push((self.users[u].username.clone(), self.memberships[i].role));
                    },
                    None => {},
                }
            }
            i = i + 1;
            proof {
                let t = self.memberships@.take(i as int);
                assert(t.drop_last() =~= self.memberships@.take(i as int - 1));
                assert(t.last() == self.memberships@[i as int - 1]);
                match f(t.last()) {
                    Some(v) => {
                        assert(r@ =~= pre + seq![v]);
                    },
                    None => {
                        assert(r@ =~= pre + Seq::<(String, UserRole)>::empty());
                    },
                }
                assert(r@ == t.filter_map(f));
            }
        }
        proof {
            assert(self.memberships@.take(n as int) =~= self.memberships@);
        }
        r
    }

    /// The room's full history in the client view, chronological order.
    pub fn history(&self, room: &String) -> (r: Vec<Message>)
        requires
            self.wf(),
        ensures
            r@ == self.spec_history(room@),
    {
        let ghost f = room_filter(room@, self.users@);
        let n = self.messages.len();
        let mut r: Vec<Message> = Vec::new();
        let mut i: usize = 0;
        while i < n
            invariant
                self.wf(),
                n == self.messages@.len(),
                i <= n,
                f == room_filter(room@, self.users@),
                r@ == self.messages@.take(i as int).filter_map(f),
            decreases n - i,
        {
            let ghost pre = r@;
            let row = &self.messages[i];
            if row.receiver_group_id.eq(room) {
                let sender = match &row.sender_id {
                    Some(uid) => self.username_of(uid),
                    None => None,
                };
                r.push(
                    Message {
                        id: row.id,
                        sender,
                        content: row.content.clone(),
                        msg_type: row.msg_type,
                        date: row.created_at,
                    },
                );
                proof {
                    assert(r@.last() == spec_client_msg(self.messages@[i as int], self.users@));
                }
            }
            i = i + 1;
            proof {
                let t = self.messages@.take(i as int);
                assert(t.drop_last() =~= self.messages@.take(i as int - 1));
                assert(t.last() == self.messages@[i as int - 1]);
                assert(t.filter_map(f) == t.drop_last().filter_map(f) + match f(t.last()) {
                    Some(v) => seq![v],
                    None => Seq::empty(),
                });
                if self.messages@[i as int - 1].receiver_group_id@ == room@ {
                    assert(r@ =~= pre + seq![spec_client_msg(self.messages@[i as int - 1], self.users@)]);
                } else {
                    assert(r@ =~= pre + Seq::<Message>::empty());
                }
                assert(r@ == t.filter_map(f));
            }
        }
        proof {
            assert(self.messages@.take(n as int) =~= self.messages@);
        }
        r
    }
}

} // verus!
