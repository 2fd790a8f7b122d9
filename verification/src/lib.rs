use vstd::prelude::*;

pub mod auth;
pub mod cache;
pub mod conn;
pub mod errors;
pub mod keys;
pub mod models;
pub mod msg_store;
pub mod presence;
pub mod race;
pub mod routes;
pub mod store;

verus! {

/// Lifetime of a signed credential, in seconds (seven days).
pub const TOKEN_EXPIRE_SECS: u64 = 7 * 24 * 3600;

/// Safety margin subtracted from the credential lifetime when caching a
/// session token, in seconds (one hour).
pub const TOKEN_CACHE_MARGIN_SECS: u64 = 3600;

/// Time-to-live of a room's message cache, in seconds (five days).
pub const MSGS_EXPIRE_SECS: u64 = 3600 * 24 * 5;

} // verus!
