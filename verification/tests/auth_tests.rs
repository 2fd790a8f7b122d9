use plainchat_server::auth::{
    authenticate, claims_for, format_bearer, get_token, issue, store_token, AuthContext,
    TokenClaims,
};
use plainchat_server::cache::CacheStore;
use plainchat_server::errors::AppError;
use plainchat_server::keys::{redis_msg_list_key, redis_status_key, redis_token_key};
use plainchat_server::{TOKEN_CACHE_MARGIN_SECS, TOKEN_EXPIRE_SECS};

// The collaborator that signs and checks credentials is outside the
// library; here its outcomes are concrete values.  A token string stands
// for a signed credential, and a `TokenClaims` value stands for a verdict
// of the collaborator's verifier.

fn claims(sub: &str, iat: u64) -> TokenClaims {
    TokenClaims { sub: sub.to_string(), iat, exp: iat + TOKEN_EXPIRE_SECS }
}

#[test]
fn token_key_layout() {
    assert_eq!(redis_token_key("abc"), "user-token:abc");
    assert_eq!(redis_status_key("alice"), "user-presence:alice");
    assert_eq!(redis_msg_list_key("room-1"), "msgs:room-1");
}

#[test]
fn issued_claims_cover_one_week() {
    let c = claims_for(&"user-1".to_string(), 1_000);
    assert_eq!(c.sub, "user-1");
    assert_eq!(c.iat, 1_000);
    assert_eq!(c.exp, 1_000 + TOKEN_EXPIRE_SECS);
    assert_eq!(format_bearer("xyz"), "Bearer xyz");
}

#[test]
fn authenticate_after_issue_hits_the_cache() {
    let mut cache = CacheStore::new();
    issue(&mut cache, "Bearer signed-1", &"user-1".to_string(), 1_000);
    // Still within the cached entry's lifetime: answered from the cache,
    // whatever the verifier would have said.
    let got = authenticate(&cache, Some("Bearer signed-1"), None, 2_000);
    assert_eq!(got, Ok(AuthContext("user-1".to_string())));
    assert_eq!(get_token(&cache, "Bearer signed-1", 2_000), Some("user-1".to_string()));
}

#[test]
fn authenticate_falls_back_to_verification_after_cache_expiry() {
    let mut cache = CacheStore::new();
    issue(&mut cache, "Bearer signed-2", &"user-2".to_string(), 1_000);
    // Past the cache entry's lifetime but within the signature's window.
    let later = 1_000 + TOKEN_EXPIRE_SECS - TOKEN_CACHE_MARGIN_SECS + 10;
    assert!(later < 1_000 + TOKEN_EXPIRE_SECS);
    assert_eq!(get_token(&cache, "Bearer signed-2", later), None);
    let got = authenticate(&cache, Some("Bearer signed-2"), Some(claims("user-2", 1_000)), later);
    assert_eq!(got, Ok(AuthContext("user-2".to_string())));
}

#[test]
fn authenticate_rejects_missing_and_invalid_credentials() {
    let cache = CacheStore::new();
    assert_eq!(authenticate(&cache, None, None, 0), Err(AppError::MissingToken));
    // No scheme tag: rejected before the verifier's verdict matters.
    assert_eq!(
        authenticate(&cache, Some("nonsense"), Some(claims("x", 0)), 0),
        Err(AppError::InvalidToken)
    );
    // A verdict of "no valid signature" is rejected.
    assert_eq!(
        authenticate(&cache, Some("Bearer not-signed"), None, 0),
        Err(AppError::InvalidToken)
    );
}

#[test]
fn authenticate_rejects_an_expired_credential() {
    let cache = CacheStore::new();
    let c = claims("user-3", 1_000);
    let past_expiry = 1_000 + TOKEN_EXPIRE_SECS + 1;
    let got = authenticate(&cache, Some("Bearer signed-3"), Some(c), past_expiry);
    assert_eq!(got, Err(AppError::InvalidToken));
}

#[test]
fn store_token_writes_the_formatted_key() {
    let mut cache = CacheStore::new();
    store_token(&mut cache, "Bearer xyz", "user-6".to_string(), 50).unwrap();
    assert_eq!(get_token(&cache, "Bearer xyz", 60), Some("user-6".to_string()));
    // An hour before the credential itself would lapse, the entry is gone.
    let at_margin = 50 + TOKEN_EXPIRE_SECS - TOKEN_CACHE_MARGIN_SECS;
    assert_eq!(get_token(&cache, "Bearer xyz", at_margin), None);
}

#[test]
fn a_lapsed_cache_entry_no_longer_authenticates_by_itself() {
    let mut cache = CacheStore::new();
    store_token(&mut cache, "Bearer session-2", "user-2".to_string(), 1_000).unwrap();
    let later = 1_000 + TOKEN_EXPIRE_SECS - TOKEN_CACHE_MARGIN_SECS + 10;
    assert_eq!(get_token(&cache, "Bearer session-2", later), None);
    // Without a signature verdict the fallback rejects it.
    let got = authenticate(&cache, Some("Bearer session-2"), None, later);
    assert_eq!(got, Err(AppError::InvalidToken));
}
