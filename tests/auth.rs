use catalogue::auth::{
    admin_auth_begin, admin_auth_finish, generate_token, hash_admin_password, login_after_check,
    login_after_lookup, login_after_store, verify_password, AuthStep, LoginPayload, LoginStep,
    HASH_COST,
};
use catalogue::cookies::find_cookie;
use catalogue::errors::{internal_error, ApiError, ErrorKind};
use catalogue::models::Admin;

const ONLINE_HASH: &str = "$2a$04$UuTkLRZZ6QofpDOlMz32MuuxEHA43WOemOYHPz6.SjsVsyO1tDU96";

/// Runs the session guard against an in-memory list of issued tokens.
fn guard(cookie_header: Option<&str>, issued: &[String]) -> bool {
    match admin_auth_begin(cookie_header) {
        AuthStep::LookUp(t) => matches!(admin_auth_finish(Ok(issued.contains(&t))), AuthStep::Forward),
        AuthStep::Forward => true,
        AuthStep::Reject => false,
    }
}

/// Runs the login sequence against one stored administrator.
fn login(payload: &LoginPayload, stored: &Admin, issued: &mut Vec<String>) -> Result<String, ApiError> {
    let found = if payload.username == stored.username { Some(stored.clone()) } else { None };
    let mut step = login_after_lookup(Ok(found));
    loop {
        step = match step {
            LoginStep::CheckPassword { admin_id, password_hash } => {
                login_after_check(admin_id, verify_password(&payload.password, &password_hash))
            }
            LoginStep::IssueToken { .. } => {
                let token = generate_token().expect("random source");
                issued.push(token.clone());
                return login_after_store(&token, Ok(()));
            }
            LoginStep::Done(r) => return r,
        }
    }
}

fn admin() -> Admin {
    Admin { id: 7, username: "root".to_string(), password: ONLINE_HASH.to_string() }
}

#[test]
fn login_then_protected_requests() {
    let mut issued = Vec::new();
    let payload = LoginPayload { username: "root".to_string(), password: "password".to_string() };
    let cookie = login(&payload, &admin(), &mut issued).unwrap();
    assert!(cookie.starts_with("auth_token="));
    let token = cookie["auth_token=".len()..].to_string();
    assert_eq!(issued, vec![token.clone()]);

    let header = format!("theme=dark; auth_token={token}");
    assert!(guard(Some(&header), &issued));

    let fake = generate_token().unwrap();
    assert_eq!(fake.len(), token.len());
    let forged = format!("auth_token={fake}");
    assert!(!guard(Some(&forged), &issued));

    assert!(!guard(None, &issued));
    assert!(!guard(Some("theme=dark"), &issued));
}

#[test]
fn wrong_password_and_unknown_user_look_alike() {
    let mut issued = Vec::new();
    let wrong = LoginPayload { username: "root".to_string(), password: "nope".to_string() };
    let unknown = LoginPayload { username: "eve".to_string(), password: "password".to_string() };
    let a = login(&wrong, &admin(), &mut issued).unwrap_err();
    let b = login(&unknown, &admin(), &mut issued).unwrap_err();
    assert_eq!(a.kind, ErrorKind::InvalidCredentials);
    assert_eq!(b.kind, ErrorKind::InvalidCredentials);
    assert_eq!(a.message, b.message);
    assert_eq!(a.message, "Invalid credentials");
    assert_eq!(a.status(), 400);
    assert!(issued.is_empty());
}

#[test]
fn password_verification() {
    assert_eq!(verify_password("password", ONLINE_HASH).unwrap(), true);
    assert_eq!(verify_password("Password", ONLINE_HASH).unwrap(), false);
}

#[test]
fn malformed_hash_is_internal() {
    let e = verify_password("password", "not a hash").unwrap_err();
    assert_eq!(e.kind, ErrorKind::Internal);
    assert_eq!(e.status(), 500);
}

#[test]
fn new_password_hash_verifies() {
    assert_eq!(HASH_COST, 12);
    let h = hash_admin_password("hunter2").unwrap();
    assert!(h.starts_with("$2y$12$"));
    assert_eq!(h.len(), 60);
    assert_ne!(h, "hunter2");
}

#[test]
fn fresh_hash_verifies_its_password() {
    let h = hash_admin_password("correct horse").unwrap();
    assert_eq!(verify_password("correct horse", &h).unwrap(), true);
}

#[test]
fn issued_cookie_reads_back_as_its_token() {
    let token = generate_token().unwrap();
    let cookie = login_after_store(&token, Ok(())).unwrap();
    assert_eq!(find_cookie(&cookie, "auth_token"), Some(token.clone()));
    assert!(matches!(admin_auth_begin(Some(&cookie)), AuthStep::LookUp(ref t) if *t == token));
}

#[test]
fn tokens_are_random_url_safe_text() {
    let a = generate_token().unwrap();
    let b = generate_token().unwrap();
    assert_eq!(a.len(), 43);
    assert_ne!(a, b);
    assert!(a.chars().all(|c| c.is_ascii_alphanumeric() || c == '-' || c == '_'));
}

#[test]
fn store_failures_are_internal() {
    let e = login_after_lookup(Err(internal_error("db down".to_string())));
    assert!(matches!(e, LoginStep::Done(Err(ref x)) if x.kind == ErrorKind::Internal && x.message == "db down"));
    let e = login_after_check(1, Err(internal_error("pool".to_string())));
    assert!(matches!(e, LoginStep::Done(Err(ref x)) if x.kind == ErrorKind::Internal));
    let e = login_after_store("abc", Err(internal_error("unique".to_string()))).unwrap_err();
    assert_eq!(e.status(), 500);
    assert_eq!(login_after_store("abc", Ok(())).unwrap(), "auth_token=abc");
}

#[test]
fn login_steps_in_order() {
    let s = login_after_lookup(Ok(Some(admin())));
    assert!(matches!(s, LoginStep::CheckPassword { admin_id: 7, ref password_hash } if password_hash == ONLINE_HASH));
    assert!(matches!(login_after_check(7, Ok(true)), LoginStep::IssueToken { admin_id: 7 }));
}

#[test]
fn failed_token_lookup_rejects() {
    assert!(matches!(admin_auth_finish(Err(internal_error("x".to_string()))), AuthStep::Reject));
    assert!(matches!(admin_auth_finish(Ok(false)), AuthStep::Reject));
    assert!(matches!(admin_auth_finish(Ok(true)), AuthStep::Forward));
}

#[test]
fn cookie_header_parsing() {
    assert_eq!(find_cookie("auth_token=abc", "auth_token").as_deref(), Some("abc"));
    assert_eq!(find_cookie("a=1; auth_token=x=y; auth_token=z", "auth_token").as_deref(), Some("x=y"));
    assert_eq!(find_cookie("a=1;auth_token=q", "auth_token"), None);
    assert_eq!(find_cookie("auth_token", "auth_token"), None);
    assert_eq!(find_cookie("auth_token=", "auth_token").as_deref(), Some(""));
    assert_eq!(find_cookie("", "auth_token"), None);
    assert_eq!(find_cookie("xauth_token=1; auth_tokens=2", "auth_token"), None);
    assert!(matches!(admin_auth_begin(Some("a=1")), AuthStep::Reject));
    assert!(matches!(admin_auth_begin(Some("a=1; auth_token=t")), AuthStep::LookUp(ref t) if t == "t"));
}

#[test]
fn error_status_codes() {
    assert_eq!(catalogue::errors::unauthorized().status(), 401);
    assert_eq!(catalogue::errors::product_not_found().status(), 404);
    assert_eq!(catalogue::errors::invalid_credentials().status(), 400);
    assert_eq!(ApiError { kind: ErrorKind::BadRequest, message: String::new() }.status(), 400);
}
