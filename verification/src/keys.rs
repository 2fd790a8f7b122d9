//! Layout of the cache key namespace.
//!
//! Three families of keys share one key/value store: session-token entries,
//! presence flags, and per-room message lists.  Each family has its own
//! prefix, and the lemmas below show that the families never collide and
//! that a key determines the suffix it was built from.

use vstd::prelude::*;
use vstd::string::*;

verus! {

/// Key under which a session token's user id is cached.
pub open spec fn spec_token_key(token: Seq<char>) -> Seq<char> {
    "user-token:"@ + token
}

/// Key under which a user's presence flag is stored.
pub open spec fn spec_status_key(username: Seq<char>) -> Seq<char> {
    "user-presence:"@ + username
}

/// Key under which a room's message list is cached.
pub open spec fn spec_msgs_key(group_id: Seq<char>) -> Seq<char> {
    "msgs:"@ + group_id
}

pub fn redis_token_key(token: &str) -> (r: String)
    ensures
        r@ == spec_token_key(token@),
{
    let mut s = String::from_str("user-token:");
    s.append(token);
    s
}

pub fn redis_status_key(username: &str) -> (r: String)
    ensures
        r@ == spec_status_key(username@),
{
    let mut s = String::from_str("user-presence:");
    s.append(username);
    s
}

pub fn redis_msg_list_key(group_id: &str) -> (r: String)
    ensures
        r@ == spec_msgs_key(group_id@),
{
    let mut s = String::from_str("msgs:");
    s.append(group_id);
    s
}

/// A message-list key determines the room it was built for.
pub proof fn lemma_msgs_key_injective(a: Seq<char>, b: Seq<char>)
    requires
        spec_msgs_key(a) == spec_msgs_key(b),
    ensures
        a == b,
{
    assert(a =~= spec_msgs_key(a).skip(5)) by {
        reveal_strlit("msgs:");
    }
    assert(b =~= spec_msgs_key(b).skip(5)) by {
        reveal_strlit("msgs:");
    }
}

/// The three key families are pairwise disjoint: a token entry, a presence
/// flag and a message list can never shadow one another.
pub proof fn lemma_key_families_disjoint(a: Seq<char>, b: Seq<char>)
    ensures
        spec_token_key(a) != spec_status_key(b),
        spec_token_key(a) != spec_msgs_key(b),
        spec_status_key(a) != spec_msgs_key(b),
{
    reveal_strlit("user-token:");
    reveal_strlit("user-presence:");
    reveal_strlit("msgs:");
    assert(spec_token_key(a)[5] == 't');
    assert(spec_status_key(b)[5] == 'p');
    assert(spec_token_key(a)[0] == 'u');
    assert(spec_msgs_key(b)[0] == 'm');
    assert(spec_status_key(a)[0] == 'u');
}

} // verus!
