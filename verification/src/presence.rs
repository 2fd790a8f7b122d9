//! Presence tracker: online is the existence of a flag keyed by username.
//!
//! The flag has no expiry and is cleared explicitly on disconnect; a
//! process that dies without running its disconnect hook leaks the flag as
//! stale "online".  Any failure to read the flag counts as offline.

use vstd::prelude::*;
use vstd::string::*;

use crate::cache::CacheStore;
use crate::cache::EntryValue;
use crate::cache::EntryView;
use crate::errors::AppError;
use crate::keys::redis_status_key;
use crate::keys::spec_status_key;

verus! {

/// Whether the user's flag is readable as a text value.
pub open spec fn spec_is_online(conn: CacheStore, username: Seq<char>, now: u64) -> bool {
    conn.spec_text(spec_status_key(username), now) is Some
}

/// The entry a presence flag maps to.
pub open spec fn spec_online_entry() -> EntryView {
    EntryView { value: EntryValue::TextV("ON"@), expires_at: None }
}

/// Raises the user's presence flag, with no expiry.
pub fn set_online(conn: &mut CacheStore, username: &str) -> (r: Result<(), AppError>)
    requires
        old(conn).wf(),
    ensures
        final(conn).wf(),
        r is Ok,
        final(conn)@ == old(conn)@.insert(spec_status_key(username@), spec_online_entry()),
{
    let key = redis_status_key(username);
    conn.set_text(key, String::from_str("ON"));
    Ok(())
}

/// Clears the user's presence flag.
pub fn set_offline(conn: &mut CacheStore, username: &str)
    requires
        old(conn).wf(),
    ensures
        final(conn).wf(),
        final(conn)@ == old(conn)@.remove(spec_status_key(username@)),
{
    let key = redis_status_key(username);
    conn.del(&key);
}

/// Whether the user's flag is up; a flag that cannot be read counts as
/// offline.
pub fn is_online(conn: &CacheStore, username: &str, now: u64) -> (r: bool)
    requires
        conn.wf(),
    ensures
        r == spec_is_online(*conn, username@, now),
{
    let key = redis_status_key(username);
    match conn.get_text(&key, now) {
        Some(_) => true,
        None => false,
    }
}

} // verus!
