//! Request-scoped operations: account login, group administration, and the
//! room history and member listings, each gated by the checks the server
//! makes before touching the stores.
//!
//! Password hashing and verification belong to an outside collaborator;
//! these functions take the verdict of the password check as a value.

use vstd::prelude::*;
use vstd::string::*;

use crate::cache::CacheStore;
use crate::errors::AppError;
use crate::errors::DbError;
use crate::errors::SqlxConstraints;
use crate::models::GroupModel;
use crate::models::Message;
use crate::models::UserRole;
use crate::msg_store::asc_by_date;
use crate::msg_store::list;
use crate::msg_store::room_cache_wf;
use crate::presence::is_online;
use crate::presence::spec_is_online;
use crate::store::group_members_filter;
use crate::store::groups_has;
use crate::store::member_groups_filter;
use crate::store::ms_has;
use crate::store::spec_group_name_of;
use crate::store::spec_role_of;
use crate::store::spec_user_by_username;
use crate::store::spec_username_of;
use crate::store::uname_has;
use crate::store::users_has;
use crate::store::DurableStore;
use crate::MSGS_EXPIRE_SECS;

verus! {

/// A member of a group as listed to clients: name, role, presence.
#[derive(Debug, PartialEq)]
pub struct Member {
    pub username: String,
    pub role: UserRole,
    pub presence: bool,
}

/// Creates an account from a username and an already-computed credential
/// hash; a taken username is reported as `AlreadyExists`.
pub fn create_user(db: &mut DurableStore, id: String, username: String, password_hash: String) -> (
    r: Result<(), AppError>)
    requires
        old(db).wf(),
    ensures
        final(db).wf(),
        !(users_has(old(db).users@, id@) || uname_has(old(db).users@, username@)) ==> r is Ok
            && final(db).users@ == old(db).users@.push(
            (crate::models::UserModel { id, username, password_hash }),
        ),
        (users_has(old(db).users@, id@) || uname_has(old(db).users@, username@)) ==> (r matches Err(
            e,
        ) && e matches AppError::AlreadyExists { target_type: t, data: d } && t@ == "Username"@
            && d@ == username@ && final(db).users@ == old(db).users@),
        final(db).groups@ == old(db).groups@,
        final(db).memberships@ == old(db).memberships@,
        final(db).messages@ == old(db).messages@,
        final(db).next_msg_id == old(db).next_msg_id,
        final(db).last_date == old(db).last_date,
{
    let uname = username.clone();
    let res = db.insert_user(id, username, password_hash);
    res.map_unique_err("Username", uname.as_str())
}

/// Logs a user in: resolves the username and takes the password verdict.
/// An unknown username is `DoesNotExist`; a failed password check is
/// `WrongCredentials`; success hands back the account's id and username,
/// for the collaborator to sign a credential that `issue` then caches.
pub fn login_user(db: &DurableStore, username: &String, password_ok: bool) -> (r: Result<
    (String, String),
    AppError,
>)
    requires
        db.wf(),
    ensures
        spec_user_by_username(db.users@, username@) is None ==> (r matches Err(e) && e matches
            AppError::DoesNotExist { target_type: t, data: d } && t@ == "User"@ && d@ == username@),
        spec_user_by_username(db.users@, username@) is Some && !password_ok ==> (r matches Err(e)
            && e is WrongCredentials),
        spec_user_by_username(db.users@, username@) is Some && password_ok ==> ({
            let u = spec_user_by_username(db.users@, username@)->0;
            r matches Ok(out) && out.0 == u.id && out.1 == u.username
        }),
{
    let user = match db.find_user(username) {
        Some(u) => u,
        None => {
            return Err(
                AppError::DoesNotExist {
                    target_type: String::from_str("User"),
                    data: username.clone(),
                },
            );
        },
    };
    if !password_ok {
        return Err(
            AppError::WrongCredentials(Some(String::from_str("Password is incorrect"))),
        );
    }
    Ok((user.id, user.username))
}

/// The caller's username; an account that has vanished under a live
/// credential is `DoesNotExist`.
pub fn curr_user(db: &DurableStore, user_id: &String) -> (r: Result<String, AppError>)
    requires
        db.wf(),
    ensures
        match r {
            Ok(name) => spec_username_of(db.users@, user_id@) == Some(name),
            Err(e) => spec_username_of(db.users@, user_id@) is None && (e matches
                AppError::DoesNotExist { target_type: t, data: d } && t@ == "User"@ && d@
                == ""@),
        },
{
    match db.username_of(user_id) {
        Some(name) => Ok(name),
        None => {
            proof {
                reveal_strlit("");
                assert(""@ =~= Seq::<char>::empty());
            }
            Err(
                AppError::DoesNotExist {
                    target_type: String::from_str("User"),
                    data: String::new(),
                },
            )
        },
    }
}

/// Creates a group under a fresh id and makes the creator its admin.
pub fn create_group(db: &mut DurableStore, user_id: &String, group_id: String, name: String) -> (r:
    Result<String, AppError>)
    requires
        old(db).wf(),
    ensures
        final(db).wf(),
        groups_has(old(db).groups@, group_id@) ==> (r matches Err(e) && e is Db && final(db).groups@
            == old(db).groups@ && final(db).memberships@ == old(db).memberships@),
        !groups_has(old(db).groups@, group_id@) && !(users_has(old(db).users@, user_id@) && !ms_has(
            old(db).memberships@,
            user_id@,
            group_id@,
        )) ==> (r matches Err(e) && e is Db && final(db).memberships@ == old(db).memberships@
            && groups_has(final(db).groups@, group_id@)),
        !groups_has(old(db).groups@, group_id@) && users_has(old(db).users@, user_id@) && !ms_has(
            old(db).memberships@,
            user_id@,
            group_id@,
        ) ==> (r matches Ok(n) && n == name && groups_has(final(db).groups@, group_id@)
            && spec_group_name_of(final(db).groups@, group_id@) == Some(name) && spec_role_of(
            final(db).memberships@,
            user_id@,
            group_id@,
        ) == Some(UserRole::Admin)),
        final(db).users@ == old(db).users@,
        final(db).messages@ == old(db).messages@,
{
    let name_out = name.clone();
    match db.insert_group(group_id.clone(), name) {
        Ok(()) => {},
        Err(e) => {
            return Err(AppError::Db(e));
        },
    }
    match db.insert_membership(user_id.clone(), group_id, UserRole::Admin) {
        Ok(()) => {},
        Err(e) => {
            return Err(AppError::Db(e));
        },
    }
    Ok(name_out)
}

/// The groups the caller belongs to; a caller whose account is gone is
/// rejected as holding an invalid credential.
pub fn user_groups(db: &DurableStore, user_id: &String) -> (r: Result<Vec<GroupModel>, AppError>)
    requires
        db.wf(),
    ensures
        !users_has(db.users@, user_id@) ==> (r matches Err(e) && e is InvalidToken),
        users_has(db.users@, user_id@) ==> (r matches Ok(gs) && gs@ == db.memberships@.filter_map(
            member_groups_filter(db.groups@, user_id@),
        )),
{
    if !db.user_exists(user_id) {
        return Err(AppError::InvalidToken);
    }
    Ok(db.user_groups_of(user_id))
}

/// Updates the caller's username and credential hash, each only where a
/// replacement is given, and hands back the new username.  The hash
/// arrives already computed, absent when unchanged — the original treated
/// an empty replacement password as no change, a rule that now sits with
/// the caller.  The fresh credential the original answered with is the
/// collaborator's to sign, and is not cached.
pub fn update_user(
    db: &mut DurableStore,
    user_id: &String,
    username: Option<String>,
    password_hash: Option<String>,
) -> (r: Result<String, AppError>)
    requires
        old(db).wf(),
    ensures
        final(db).wf(),
        final(db).memberships@ == old(db).memberships@,
        final(db).messages@ == old(db).messages@,
        !users_has(old(db).users@, user_id@) ==> (r matches Err(e) && e is Db && final(db).users@
            == old(db).users@),
        match r {
            Ok(name) => {
                &&& Some(name) == spec_username_of(final(db).users@, user_id@)
                &&& name@ == match username {
                    Some(n) => n@,
                    None => spec_username_of(old(db).users@, user_id@)->0@,
                }
            },
            Err(e) => e is Db,
        },
{
    match db.update_user(user_id, username, password_hash) {
        Ok(n) => Ok(n),
        Err(e) => Err(AppError::Db(e)),
    }
}

/// Deletes the caller's account: their memberships first, then the user
/// row; messages they sent stay.  A caller whose row is already gone is a
/// missing row.
pub fn delete_user(db: &mut DurableStore, user_id: &String) -> (r: Result<String, AppError>)
    requires
        old(db).wf(),
    ensures
        final(db).wf(),
        final(db).groups@ == old(db).groups@,
        final(db).messages@ == old(db).messages@,
        !users_has(final(db).users@, user_id@),
        forall|u: Seq<char>, g: Seq<char>| #[trigger] ms_has(final(db).memberships@, u, g) <==> (
        ms_has(old(db).memberships@, u, g) && u != user_id@),
        match r {
            Ok(name) => Some(name) == spec_username_of(old(db).users@, user_id@),
            Err(e) => spec_username_of(old(db).users@, user_id@) is None && e is Db,
        },
{
    db.purge_user_memberships(user_id);
    match db.delete_user_row(user_id) {
        Some(name) => Ok(name),
        None => Err(AppError::Db(crate::errors::DbError::RowNotFound)),
    }
}

/// Deletes a group with everything that hangs off it.  Only an admin
/// member may do so; a group that does not exist is `DoesNotExist`.
pub fn delete_group(db: &mut DurableStore, user_id: &String, group_id: &String) -> (r: Result<
    String,
    AppError,
>)
    requires
        old(db).wf(),
    ensures
        final(db).wf(),
        spec_role_of(old(db).memberships@, user_id@, group_id@) != Some(UserRole::Admin) ==> (r
            matches Err(e) && e is ForbiddenAction && *final(db) == *old(db)),
        spec_role_of(old(db).memberships@, user_id@, group_id@) == Some(UserRole::Admin)
            && !groups_has(old(db).groups@, group_id@) ==> (r matches Err(e) && e matches
            AppError::DoesNotExist { target_type: t, data: d } && t@ == "Group"@ && d@ == ""@
            && *final(db) == *old(db)),
        spec_role_of(old(db).memberships@, user_id@, group_id@) == Some(UserRole::Admin)
            && groups_has(old(db).groups@, group_id@) ==> (r matches Ok(n) && Some(n)
            == spec_group_name_of(old(db).groups@, group_id@) && !groups_has(
            final(db).groups@,
            group_id@,
        ) && (forall|u: Seq<char>, g: Seq<char>| #[trigger] ms_has(final(db).memberships@, u, g)
            <==> (ms_has(old(db).memberships@, u, g) && g != group_id@)) && final(db).messages@
            == old(db).messages@.filter(
            |m: crate::models::MessageModel| m.receiver_group_id@ != group_id@,
        )),
{
    if !db.user_in_group(user_id, group_id, Some(UserRole::Admin)) {
        return Err(AppError::ForbiddenAction);
    }
    let name = match db.group_name_of(group_id) {
        Some(n) => n,
        None => {
            proof {
                reveal_strlit("");
                assert(""@ =~= Seq::<char>::empty());
            }
            return Err(
                AppError::DoesNotExist {
                    target_type: String::from_str("Group"),
                    data: String::new(),
                },
            );
        },
    };
    db.delete_group(group_id);
    Ok(name)
}

/// The room's history for a member, chronological order, served
/// cache-aside.  A caller outside the room is `ForbiddenAction`.
pub fn list_messages(
    db: &DurableStore,
    cache: &mut CacheStore,
    user_id: &String,
    group_id: &String,
    now: u64,
) -> (r: Result<Vec<Message>, AppError>)
    requires
        db.wf(),
        old(cache).wf(),
        room_cache_wf(*db, *old(cache), group_id@),
        now + MSGS_EXPIRE_SECS <= u64::MAX,
    ensures
        final(cache).wf(),
        room_cache_wf(*db, *final(cache), group_id@),
        !ms_has(db.memberships@, user_id@, group_id@) ==> (r matches Err(e) && e
            is ForbiddenAction && final(cache)@ == old(cache)@),
        ms_has(db.memberships@, user_id@, group_id@) ==> (r matches Ok(msgs) && asc_by_date(msgs@)
            && (old(cache).spec_list(crate::keys::spec_msgs_key(group_id@), now).len() > 0
            ==> msgs@ == old(cache).spec_list(
            crate::keys::spec_msgs_key(group_id@),
            now,
        ).reverse()) && (old(cache).spec_list(crate::keys::spec_msgs_key(group_id@), now).len()
            == 0 ==> msgs@ == db.spec_history(group_id@))),
{
    if !db.user_in_group(user_id, group_id, None) {
        return Err(AppError::ForbiddenAction);
    }
    Ok(list(db, cache, group_id, now))
}

/// The members of a room for a member, each with role and presence.  A
/// caller outside the room is `ForbiddenAction`.
pub fn list_members(
    db: &DurableStore,
    cache: &CacheStore,
    user_id: &String,
    group_id: &String,
    now: u64,
) -> (r: Result<Vec<Member>, AppError>)
    requires
        db.wf(),
        cache.wf(),
    ensures
        !ms_has(db.memberships@, user_id@, group_id@) ==> (r matches Err(e) && e
            is ForbiddenAction),
        ms_has(db.memberships@, user_id@, group_id@) ==> (r matches Ok(ms) && ms@
            == db.memberships@.filter_map(group_members_filter(db.users@, group_id@)).map_values(
            |p: (String, UserRole)|
                Member { username: p.0, role: p.1, presence: spec_is_online(*cache, p.0@, now) },
        )),
{
    if !db.user_in_group(user_id, group_id, None) {
        return Err(AppError::ForbiddenAction);
    }
    let ghost f = |p: (String, UserRole)|
        Member { username: p.0, role: p.1, presence: spec_is_online(*cache, p.0@, now) };
    let rows = db.members_of(group_id);
    let n = rows.len();
    let mut out: Vec<Member> = Vec::new();
    let mut i: usize = 0;
    while i < n
        invariant
            cache.wf(),
            n == rows@.len(),
            i <= n,
            out@.len() == i,
            f == (|p: (String, UserRole)|
                Member { username: p.0, role: p.1, presence: spec_is_online(*cache, p.0@, now) }),
            forall|j: int| 0 <= j < i ==> out@[j] == f(rows@[j]),
        decreases n - i,
    {
        let username = rows[i].0.clone();
        let presence = is_online(cache, username.as_str(), now);
        out.push(Member { username, role: rows[i].1, presence });
        i = i + 1;
    }
    proof {
        assert(out@ =~= rows@.map_values(f));
    }
    Ok(out)
}

} // verus!
