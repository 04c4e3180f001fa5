//! Administrator authentication: password checks, session token issue, the
//! session guard in front of administrative routes, and the login sequence.
//!
//! Storage round trips are made by the caller; the functions here decide what
//! happens next from what the store answered.
use crate::crypto::{
    bcrypt_hash, bcrypt_hash_of, bcrypt_verify, bcrypt_verify_of, encode_url_safe, fill_os_random,
    is_url_safe_char, url_safe_no_pad,
};
use crate::cookies::{cookie_value, find_cookie, first_equals, pair_value, scan_cookies, separator_at};
use crate::errors::{internal_error, invalid_credentials, ApiError, ErrorKind};
use crate::models::Admin;
use vstd::prelude::*;
use vstd::string::*;

verus! {

/// Random bytes behind one session token (256 bits).
pub const TOKEN_BYTES: usize = 32;

/// Bytes of salt for one password hash.
pub const SALT_BYTES: usize = 16;

/// The bcrypt cost factor for stored password hashes.
pub const HASH_COST: u32 = 12;

/// The body of a login request.
pub struct LoginPayload {
    pub username: String,
    pub password: String,
}

pub open spec fn session_cookie_name() -> Seq<char> {
    "auth_token"@
}

/// The `Set-Cookie` value that hands a session token to the client.
pub open spec fn session_cookie_of(token: Seq<char>) -> Seq<char> {
    "auth_token="@ + token
}

fn zeroed(n: usize) -> (r: Vec<u8>)
    ensures
        r@.len() == n,
{
    let mut v: Vec<u8> = Vec::new();
    while v.len() < n
        invariant
            v@.len() <= n,
        decreases n - v@.len(),
    {
        v.push(0);
    }
    v
}

/// A fresh session token: 256 random bits from the operating system, as
/// unpadded URL-safe base64 (43 characters). `None` when the random source
/// fails.
pub fn generate_token() -> (r: Option<String>)
    ensures
        r matches Some(t) ==> exists|b: Seq<u8>| b.len() == TOKEN_BYTES && t@ == url_safe_no_pad(b),
        r matches Some(t) ==> t@.len() == 43,
        r matches Some(t) ==> forall|i: int| 0 <= i < t@.len() ==> is_url_safe_char(#[trigger] t@[i]),
{
    let mut bytes = zeroed(TOKEN_BYTES);
    if !fill_os_random(&mut bytes) {
        return None;
    }
    let t = encode_url_safe(&bytes);
    Some(t)
}

/// Whether `password` matches the stored bcrypt `hash`. An unreadable hash
/// is an internal failure, not a mismatch.
pub fn verify_password(password: &str, hash: &str) -> (r: Result<bool, ApiError>)
    ensures
        r matches Ok(b) ==> bcrypt_verify_of(password@, hash@) == Some(b),
        r matches Err(e) ==> e.kind == ErrorKind::Internal && bcrypt_verify_of(password@, hash@) is None,
{
    match bcrypt_verify(password, hash) {
        Ok(b) => Ok(b),
        Err(_) => Err(internal_error(String::from_str("password check failed"))),
    }
}

/// A salted bcrypt hash of a new administrator's password, at `HASH_COST`,
/// with a salt from the operating system's random source.
pub fn hash_admin_password(password: &str) -> (r: Result<String, ApiError>)
    ensures
        r matches Ok(h) ==> exists|salt: Seq<u8>| salt.len() == SALT_BYTES
            && bcrypt_hash_of(password@, HASH_COST, salt) == Some(h@),
        r matches Err(e) ==> e.kind == ErrorKind::Internal,
{
    let mut salt = zeroed(SALT_BYTES);
    if !fill_os_random(&mut salt) {
        return Err(internal_error(String::from_str("random source failed")));
    }
    match bcrypt_hash(password, HASH_COST, &salt) {
        Ok(h) => Ok(h),
        Err(_) => Err(internal_error(String::from_str("password hashing failed"))),
    }
}

/// What the session guard does next with a request.
pub enum AuthStep {
    /// Ask the token store whether this token was issued.
    LookUp(String),
    /// Hand the request to the protected handler.
    Forward,
    /// Answer unauthorized; the handler is never reached.
    Reject,
}

/// The session guard's first decision, from the request's `Cookie` header: a request
/// without a session cookie is rejected, else its token is looked up.
pub fn admin_auth_begin(cookie_header: Option<&str>) -> (r: AuthStep)
    ensures
        cookie_header is None ==> r is Reject,
        cookie_header matches Some(h) ==> match cookie_value(h@, session_cookie_name()) {
            Some(t) => (r matches AuthStep::LookUp(x) && x@ == t),
            None => r is Reject,
        },
{
    match cookie_header {
        None => AuthStep::Reject,
        Some(h) => match find_cookie(h, "auth_token") {
            Some(t) => AuthStep::LookUp(t),
            None => AuthStep::Reject,
        },
    }
}

/// The session guard's second decision, from the token store's answer: only a token
/// that is known lets the request through; a failed lookup rejects it.
pub fn admin_auth_finish(found: Result<bool, ApiError>) -> (r: AuthStep)
    ensures
        r is Forward <==> found matches Ok(true),
        r is Reject <==> !(found matches Ok(true)),
{
    match found {
        Ok(true) => AuthStep::Forward,
        _ => AuthStep::Reject,
    }
}

/// What the login sequence does next.
pub enum LoginStep {
    /// Check the submitted password against this stored hash.
    CheckPassword { admin_id: i64, password_hash: String },
    /// Issue and store a session token for this administrator.
    IssueToken { admin_id: i64 },
    /// Answer the client.
    Done(Result<String, ApiError>),
}

/// After the administrator lookup by username: an unknown user gets the same
/// answer as a wrong password; a store failure is internal.
pub fn login_after_lookup(found: Result<Option<Admin>, ApiError>) -> (r: LoginStep)
    ensures
        found matches Err(e) ==> (r matches LoginStep::Done(Err(x)) && x == e),
        found matches Ok(None) ==> (r matches LoginStep::Done(Err(x))
            && x.kind == ErrorKind::InvalidCredentials && x.message@ == "Invalid credentials"@),
        found matches Ok(Some(a)) ==> (r matches LoginStep::CheckPassword { admin_id, password_hash }
            && admin_id == a.id && password_hash@ == a.password@),
{
    match found {
        Err(e) => LoginStep::Done(Err(e)),
        Ok(None) => LoginStep::Done(Err(invalid_credentials())),
        Ok(Some(a)) => LoginStep::CheckPassword { admin_id: a.id, password_hash: a.password },
    }
}

/// After the password check.
pub fn login_after_check(admin_id: i64, verified: Result<bool, ApiError>) -> (r: LoginStep)
    ensures
        verified matches Err(e) ==> (r matches LoginStep::Done(Err(x)) && x == e),
        verified matches Ok(false) ==> (r matches LoginStep::Done(Err(x))
            && x.kind == ErrorKind::InvalidCredentials && x.message@ == "Invalid credentials"@),
        verified matches Ok(true) ==> (r matches LoginStep::IssueToken { admin_id: id } && id == admin_id),
{
    match verified {
        Err(e) => LoginStep::Done(Err(e)),
        Ok(false) => LoginStep::Done(Err(invalid_credentials())),
        Ok(true) => LoginStep::IssueToken { admin_id },
    }
}

/// After the new token was stored (or not): the session cookie to set, or the
/// store's failure.
pub fn login_after_store(token: &str, stored: Result<(), ApiError>) -> (r: Result<String, ApiError>)
    ensures
        stored is Ok ==> (r matches Ok(c) && c@ == session_cookie_of(token@)),
        stored matches Err(e) ==> (r matches Err(x) && x == e),
{
    match stored {
        Ok(()) => {
            let c = String::from_str("auth_token=").concat(token);
            Ok(c)
        },
        Err(e) => Err(e),
    }
}

proof fn lemma_scan_to_end(h: Seq<char>, name: Seq<char>, i: int)
    requires
        0 <= i <= h.len(),
        forall|j: int| 0 <= j < h.len() ==> h[j] != ';',
    ensures
        scan_cookies(h, name, 0, i) == pair_value(h, name),
    decreases h.len() - i,
{
    if i < h.len() {
        assert(!separator_at(h, i));
        lemma_scan_to_end(h, name, i + 1);
    } else {
        assert(h.subrange(0, h.len() as int) =~= h);
    }
}

proof fn lemma_equals_at(h: Seq<char>, i: int, e: int)
    requires
        0 <= i <= e < h.len(),
        h[e] == '=',
        forall|j: int| i <= j < e ==> h[j] != '=',
    ensures
        first_equals(h, i) == e,
    decreases e - i,
{
    if i < e {
        lemma_equals_at(h, i + 1, e);
    }
}

/// The cookie that login sets, made from a token of URL-safe characters,
/// reads back as that token.
pub proof fn lemma_session_cookie_round_trip(token: Seq<char>)
    requires
        forall|i: int| 0 <= i < token.len() ==> is_url_safe_char(#[trigger] token[i]),
    ensures
        cookie_value(session_cookie_of(token), session_cookie_name()) == Some(token),
{
    reveal_strlit("auth_token=");
    reveal_strlit("auth_token");
    let p = "auth_token="@;
    let h = session_cookie_of(token);
    assert(p.len() == 11);
    assert forall|j: int| 0 <= j < h.len() implies h[j] != ';' by {
        if j >= 11 {
            assert(h[j] == token[j - 11]);
            assert(is_url_safe_char(token[j - 11]));
        }
    }
    lemma_scan_to_end(h, session_cookie_name(), 0);
    lemma_equals_at(h, 0, 10);
    assert(h.subrange(0, 10) =~= session_cookie_name());
    assert(h.subrange(11, h.len() as int) =~= token);
}

} // verus!
