//! Session authenticator.
//!
//! A credential is a signed token embedding subject, issue time and an
//! expiry one week later, prefixed with a scheme tag.  Issuing a credential
//! caches a mapping from the formatted token string to the user id, with a
//! safety margin taken off its lifetime.  Authentication first consults
//! that cache; on a hit the cached user id is trusted without looking at
//! the signature.  Only on a miss does the signature matter, and a
//! successful verification does not repopulate the cache.
//!
//! Signing and signature checking belong to an outside collaborator, the
//! token crate driven by the shell: no build of it servable here can run
//! its signer, so its outcomes reach this module as values.  What a
//! credential embeds, how it is formatted, how it is cached and the whole
//! authentication decision are this module's own and are verified.

use vstd::prelude::*;
use vstd::string::*;

use crate::cache::CacheStore;
use crate::cache::EntryValue;
use crate::cache::EntryView;
use crate::errors::AppError;
use crate::keys::redis_token_key;
use crate::keys::spec_token_key;
use crate::TOKEN_CACHE_MARGIN_SECS;
use crate::TOKEN_EXPIRE_SECS;

verus! {

/// Claims embedded in a signed credential.
#[derive(Debug, PartialEq)]
pub struct TokenClaims {
    pub sub: String,
    pub iat: u64,
    pub exp: u64,
}

/// Authentication context: the id of the authenticated user.
#[derive(Debug, PartialEq)]
pub struct AuthContext(pub String);

/// The claims a credential issued to `user_id` at `now` embeds: the subject,
/// the issue time, and an expiry one week later.
pub fn claims_for(user_id: &String, now: u64) -> (r: TokenClaims)
    requires
        now + TOKEN_EXPIRE_SECS <= u64::MAX,
    ensures
        r.sub == *user_id,
        r.iat == now,
        r.exp == now + TOKEN_EXPIRE_SECS,
{
    TokenClaims { sub: user_id.clone(), iat: now, exp: now + TOKEN_EXPIRE_SECS }
}

/// Puts the scheme tag in front of a signed token.
pub fn format_bearer(jwt: &str) -> (r: String)
    ensures
        r@ == "Bearer "@ + jwt@,
{
    let mut s = String::from_str("Bearer ");
    s.append(jwt);
    s
}

/// The cache entry an issued token maps to: the subject, kept for the
/// credential lifetime minus the safety margin.
pub open spec fn spec_token_entry(uid: Seq<char>, now: u64) -> EntryView {
    EntryView {
        value: EntryValue::TextV(uid),
        expires_at: Some((now + (TOKEN_EXPIRE_SECS - TOKEN_CACHE_MARGIN_SECS)) as u64),
    }
}

/// Caches the mapping from a formatted token string to its user id, for
/// the credential lifetime minus the safety margin.
pub fn store_token(conn: &mut CacheStore, token: &str, user_id: String, now: u64) -> (r: Result<
    (),
    AppError,
>)
    requires
        old(conn).wf(),
        now + (TOKEN_EXPIRE_SECS - TOKEN_CACHE_MARGIN_SECS) <= u64::MAX,
    ensures
        final(conn).wf(),
        r is Ok,
        final(conn)@ == old(conn)@.insert(spec_token_key(token@), spec_token_entry(user_id@, now)),
{
    let key = redis_token_key(token);
    conn.set_text_ex(key, user_id, TOKEN_EXPIRE_SECS - TOKEN_CACHE_MARGIN_SECS, now);
    Ok(())
}

/// The cached user id for a token, if its entry is still live.
pub fn get_token(conn: &CacheStore, token: &str, now: u64) -> (r: Option<String>)
    requires
        conn.wf(),
    ensures
        match r {
            Some(uid) => conn.spec_text(spec_token_key(token@), now) == Some(uid@),
            None => conn.spec_text(spec_token_key(token@), now) is None,
        },
{
    let key = redis_token_key(token);
    conn.get_text(&key, now)
}

/// Caches the token-to-user mapping for a credential the collaborator has
/// signed.  The issuing path writes the same entry twice, once inline and
/// once through `store_token`; both writes land on the same key.
pub fn issue(conn: &mut CacheStore, token: &str, user_id: &String, now: u64)
    requires
        old(conn).wf(),
        now + TOKEN_EXPIRE_SECS <= u64::MAX,
    ensures
        final(conn).wf(),
        final(conn)@ == old(conn)@.insert(spec_token_key(token@), spec_token_entry(user_id@, now)),
{
    let key = redis_token_key(token);
    conn.set_text_ex(key, user_id.clone(), TOKEN_EXPIRE_SECS - TOKEN_CACHE_MARGIN_SECS, now);
    match store_token(conn, token, user_id.clone(), now) {
        Ok(()) => {},
        Err(_) => {},
    }
    proof {
        assert(conn@ =~= old(conn)@.insert(
            spec_token_key(token@),
            spec_token_entry(user_id@, now),
        ));
    }
}

/// Drops the scheme tag off a presented credential, if it carries one.
fn strip_bearer(t: &str) -> (r: Option<&str>)
    ensures
        match r {
            Some(rest) => t@.len() >= 7 && t@.subrange(0, 7) == "Bearer "@ && rest@ == t@.skip(7),
            None => !(t@.len() >= 7 && t@.subrange(0, 7) == "Bearer "@),
        },
{
    proof {
        reveal_strlit("Bearer ");
    }
    let n = t.unicode_len();
    if n < 7 {
        return None;
    }
    let tag = "Bearer ";
    let mut i: usize = 0;
    while i < 7
        invariant
            7 <= n == t@.len(),
            i <= 7,
            tag@ == "Bearer "@,
            forall|j: int| 0 <= j < i ==> t@[j] == tag@[j],
        decreases 7 - i,
    {
        proof {
            reveal_strlit("Bearer ");
        }
        if t.get_char(i) != tag.get_char(i) {
            proof {
                assert(t@.subrange(0, 7)[i as int] != "Bearer "@[i as int]);
            }
            return None;
        }
        i = i + 1;
    }
    let rest = t.substring_char(7, n);
    proof {
        assert(t@.subrange(0, 7) =~= "Bearer "@);
        assert(rest@ =~= t@.skip(7));
    }
    Some(rest)
}

/// The authentication decision, over the abstract cache and the
/// collaborator's decoding outcome for the presented credential.
pub open spec fn spec_authenticate(
    conn: CacheStore,
    presented: Option<Seq<char>>,
    decoded: Option<TokenClaims>,
    now: u64,
) -> Result<Seq<char>, AppError> {
    match presented {
        None => Err(AppError::MissingToken),
        Some(t) => match conn.spec_text(spec_token_key(t), now) {
            Some(uid) => Ok(uid),
            None => if t.len() >= 7 && t.subrange(0, 7) == "Bearer "@ {
                match decoded {
                    Some(c) => if now <= c.exp {
                        Ok(c.sub@)
                    } else {
                        Err(AppError::InvalidToken)
                    },
                    None => Err(AppError::InvalidToken),
                }
            } else {
                Err(AppError::InvalidToken)
            },
        },
    }
}

/// The view of an authentication result.
pub open spec fn auth_result_view(r: Result<AuthContext, AppError>) -> Result<Seq<char>, AppError> {
    match r {
        Ok(c) => Ok(c.0@),
        Err(e) => Err(e),
    }
}

/// Authenticates a presented credential: cache fast path first, then the
/// signature.  `decoded` is what the collaborator's verifier made of the
/// bare token — the embedded claims if its signature checks out, nothing
/// otherwise — and is consulted only on a cache miss; the fallback does
/// not repopulate the cache.  Fails with `MissingToken` when nothing was
/// presented and `InvalidToken` on a malformed, badly signed or expired
/// credential.
pub fn authenticate(
    conn: &CacheStore,
    presented: Option<&str>,
    decoded: Option<TokenClaims>,
    now: u64,
) -> (r: Result<AuthContext, AppError>)
    requires
        conn.wf(),
    ensures
        auth_result_view(r) == spec_authenticate(*conn, match presented {
            Some(t) => Some(t@),
            None => None,
        }, decoded, now),
{
    match presented {
        None => Err(AppError::MissingToken),
        Some(t) => {
            match get_token(conn, t, now) {
                Some(uid) => Ok(AuthContext(uid)),
                None => {
                    match strip_bearer(t) {
                        Some(_rest) => {
                            match decoded {
                                Some(c) => {
                                    if now <= c.exp {
                                        Ok(AuthContext(c.sub))
                                    } else {
                                        Err(AppError::InvalidToken)
                                    }
                                },
                                None => Err(AppError::InvalidToken),
                            }
                        },
                        None => Err(AppError::InvalidToken),
                    }
                },
            }
        },
    }
}

/// After a credential is issued, authenticating with it while its cache
/// entry is live is answered from the cache with the issuing user id —
/// whatever the collaborator's verifier would have said.  At the instant
/// the entry's lifetime lapses it already reads as expired, as under the
/// backing store, so that instant is excluded.
pub proof fn lemma_authenticate_after_issue(
    pre: CacheStore,
    post: CacheStore,
    uid: Seq<char>,
    token: Seq<char>,
    now: u64,
    later: u64,
    decoded: Option<TokenClaims>,
)
    requires
        post@ == pre@.insert(spec_token_key(token), spec_token_entry(uid, now)),
        now + TOKEN_EXPIRE_SECS <= u64::MAX,
        later < now + (TOKEN_EXPIRE_SECS - TOKEN_CACHE_MARGIN_SECS),
    ensures
        spec_authenticate(post, Some(token), decoded, later) == Result::<Seq<char>, AppError>::Ok(
            uid,
        ),
{
    assert(post@.dom().contains(spec_token_key(token)));
    assert(post.spec_text(spec_token_key(token), later) == Some(uid));
}

/// A credential whose cache entry has lapsed but whose signature still
/// verifies, within its validity window, is authenticated by the
/// verification fallback with the subject it embeds.
pub proof fn lemma_authenticate_fallback(
    conn: CacheStore,
    token: Seq<char>,
    c: TokenClaims,
    now: u64,
)
    requires
        conn.spec_text(spec_token_key(token), now) is None,
        token.len() >= 7 && token.subrange(0, 7) == "Bearer "@,
        now <= c.exp,
    ensures
        spec_authenticate(conn, Some(token), Some(c), now) == Result::<Seq<char>, AppError>::Ok(
            c.sub@,
        ),
{
}

} // verus!
