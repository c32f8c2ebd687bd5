use chennix::auth::{require_role, RoleVerdict};
use chennix::error::AdminError;
use chennix::password::{hash_password, new_request_id, new_token_key, token_key_from, verify_password};
use chennix::session::{
    cleared_cookie, decide_login, extract_session_token, log_in, new_session_store, session_cookie,
    session_user, SessionRefusal, SessionStore, SESSION_MAX_AGE_SECS, SWEEP_LIMIT,
};
use chennix::types::UserConfig;

const NOW: i64 = 1_710_504_000;

fn admin() -> UserConfig {
    UserConfig {
        id: 1,
        username: "admin".into(),
        role: 100,
        status: 1,
        quota: 999_999_999,
        used_quota: 0,
        group: "default".into(),
    }
}

/// Logs in, opens a session and returns the first pair of its cookie.
fn login(store: &mut SessionStore, hash: &str, password: &str) -> Result<String, AdminError> {
    let id = log_in(Some(&admin()), Some(hash), password)?;
    let token = new_request_id();
    store.open(token.clone(), id, NOW);
    let cookie = session_cookie(&token, false);
    Ok(cookie.split(';').next().unwrap().trim().to_string())
}

#[test]
fn test_login_success() {
    let hash = hash_password("admin123").unwrap();
    assert_eq!(log_in(Some(&admin()), Some(&hash), "admin123"), Ok(1));
}

#[test]
fn test_login_wrong_password() {
    let hash = hash_password("admin123").unwrap();
    let e = log_in(Some(&admin()), Some(&hash), "wrong").unwrap_err();
    assert_eq!(e.status(), 401);
    assert_eq!(e.message(), "invalid credentials");
}

#[test]
fn test_login_unknown_user() {
    let e = log_in(None, None, "whatever").unwrap_err();
    assert_eq!(e.status(), 401);
    assert_eq!(e.message(), "invalid credentials");
}

#[test]
fn test_me_without_session_returns_401() {
    let mut store = new_session_store();
    assert_eq!(extract_session_token(""), None);
    assert_eq!(store.authenticate("nothing", NOW), None);
}

#[test]
fn test_login_then_me() {
    let hash = hash_password("admin123").unwrap();
    let mut store = new_session_store();
    let cookie = login(&mut store, &hash, "admin123").unwrap();
    let token = extract_session_token(&cookie).unwrap();
    assert_eq!(store.authenticate(&token, NOW + 5), Some(1));
    let context = session_user(Some(admin())).unwrap();
    assert_eq!(context.user.username, "admin");
}

#[test]
fn test_logout_clears_session() {
    let hash = hash_password("admin123").unwrap();
    let mut store = new_session_store();
    let cookie = login(&mut store, &hash, "admin123").unwrap();
    let token = extract_session_token(&cookie).unwrap();
    assert_eq!(store.authenticate(&token, NOW), Some(1));
    store.close(&token);
    assert_eq!(store.authenticate(&token, NOW), None);
}

#[test]
fn test_admin_route_with_valid_session() {
    let hash = hash_password("admin123").unwrap();
    let mut store = new_session_store();
    let cookie = login(&mut store, &hash, "admin123").unwrap();
    let token = extract_session_token(&cookie).unwrap();
    assert_eq!(store.authenticate(&token, NOW), Some(1));
    let context = session_user(Some(admin())).unwrap();
    // admin role is 100 which is >= 10
    let service = require_role(10).layer(());
    assert_eq!(service.check(Some(&context), None), RoleVerdict::Pass);
}

#[test]
fn accounts_that_may_not_log_in() {
    let disabled = UserConfig { status: 2, ..admin() };
    let e = decide_login(Some(&disabled), true, true).unwrap_err();
    assert_eq!(e, AdminError::Unauthorized("account is disabled".into()));
    let e = decide_login(Some(&admin()), false, false).unwrap_err();
    assert_eq!(e, AdminError::Internal("password hash missing".into()));
    let e = decide_login(Some(&admin()), true, false).unwrap_err();
    assert_eq!(e, AdminError::Unauthorized("invalid credentials".into()));
    assert_eq!(decide_login(Some(&admin()), true, true), Ok(1));
    assert_eq!(session_user(None), Err(SessionRefusal::UserNotFound));
    assert_eq!(session_user(Some(disabled)), Err(SessionRefusal::AccountDisabled));
    assert_eq!(SessionRefusal::UserNotFound.message(), "user not found");
    assert_eq!(SessionRefusal::AccountDisabled.message(), "account is disabled");
}

#[test]
fn a_session_lasts_a_day() {
    let mut store = new_session_store();
    store.open("t".to_string(), 7, NOW);
    assert_eq!(store.authenticate("t", NOW + SESSION_MAX_AGE_SECS), Some(7));
    assert_eq!(store.authenticate("t", NOW + SESSION_MAX_AGE_SECS + 1), None);
    // it is forgotten then
    assert_eq!(store.authenticate("t", NOW), None);
}

#[test]
fn expired_sessions_are_swept_and_live_ones_stay() {
    let mut store = new_session_store();
    for i in 0..(SWEEP_LIMIT + 10) {
        store.open(format!("old-{}", i), 1, 0);
    }
    store.open("new".to_string(), 2, NOW);
    // a sweep removes no more than its limit, and never the live session
    store.sweep(NOW);
    assert_eq!(store.authenticate("new", NOW), Some(2));
    let left = (0..(SWEEP_LIMIT + 10))
        .filter(|i| store.authenticate(&format!("old-{}", i), 0).is_some())
        .count();
    assert_eq!(left, 0);
    assert_eq!(store.authenticate("new", NOW), Some(2));
}

#[test]
fn cookies_carry_the_token() {
    assert_eq!(
        session_cookie("abc", false),
        "chennix_session=abc; Path=/; HttpOnly; SameSite=Strict; Max-Age=86400"
    );
    assert_eq!(
        session_cookie("abc", true),
        "chennix_session=abc; Path=/; HttpOnly; SameSite=Strict; Max-Age=86400; Secure"
    );
    assert!(cleared_cookie().contains("Max-Age=0"));
    assert_eq!(extract_session_token("a=b; chennix_session= xyz ; c=d").as_deref(), Some("xyz"));
    assert_eq!(extract_session_token("chennix_session=; chennix_session=q").as_deref(), Some("q"));
    assert_eq!(extract_session_token("chennix_sessionx=1"), None);
    assert_eq!(extract_session_token(&session_cookie("abc", true)).as_deref(), Some("abc"));
}

#[test]
fn hashes_are_salted_and_match_their_password() {
    let a = hash_password("pass word").unwrap();
    let b = hash_password("pass word").unwrap();
    assert_ne!(a, b);
    assert_ne!(a, "pass word");
    assert!(verify_password("pass word", &a));
    assert!(verify_password("pass word", &b));
    assert!(!verify_password("password", &a));
    assert!(!verify_password("x", "not a hash"));
}

/// What stands behind the prefix of a token key.
fn key_digits(key: &str) -> Option<&str> {
    key.strip_prefix("sk-chennix-")
}

#[test]
fn token_keys_have_a_prefix_and_sixteen_digits() {
    // The first three groups of a UUID hold sixteen digits.
    let groups = ["01234567", "89ab", "cdef", "0123", "456789abcdef"];
    let made = token_key_from(&groups.join("-"));
    assert_eq!(key_digits(&made), Some(groups[..3].concat().as_str()));
    // Without hyphens, what follows the sixteenth digit is left out.
    let groups = ["fedcba98", "76543210", "ffff"];
    let made = token_key_from(&groups.concat());
    assert_eq!(key_digits(&made), Some(groups[..2].concat().as_str()));
    // A hyphen between any two digits is left out.
    let digits: Vec<String> = (0..16).map(|i: u32| format!("{:x}", i)).collect();
    let made = token_key_from(&digits.join("-"));
    assert_eq!(key_digits(&made), Some(digits.concat().as_str()));
}

#[test]
fn a_new_token_key_has_the_shape_of_a_key() {
    let key = new_token_key();
    let digits = key_digits(&key).unwrap();
    assert_eq!(digits.len(), 16, "{}", key);
    assert!(digits.chars().all(|c| c.is_ascii_hexdigit() && !c.is_ascii_uppercase()), "{}", key);
    assert_eq!(digits.chars().nth(12), Some('4'), "{}", key);
    assert_ne!(key, new_token_key());
}

#[test]
fn a_new_request_id_is_the_text_of_a_uuid() {
    let id = new_request_id();
    assert_eq!(id.len(), 36, "{}", id);
    let breaks: Vec<usize> = id.match_indices('-').map(|m| m.0).collect();
    assert_eq!(breaks, vec![8, 13, 18, 23], "{}", id);
    assert_eq!(&id[14..15], "4", "{}", id);
    assert!("89ab".contains(&id[19..20]), "{}", id);
    assert!(
        id.replace('-', "").chars().all(|c| c.is_ascii_hexdigit() && !c.is_ascii_uppercase()),
        "{}",
        id
    );
    assert_ne!(id, new_request_id());
}

#[test]
fn a_session_is_recognized_by_its_cookie() {
    let mut store = new_session_store();
    let cookie = store.begin(7, true, NOW);
    assert!(cookie.ends_with("; Secure"));
    let pair = cookie.split(';').next().unwrap().to_string();
    assert_eq!(store.identify(Some(&pair), NOW + 10), Ok(7));
    assert_eq!(store.identify(None, NOW), Err(SessionRefusal::NotAuthenticated));
    assert_eq!(store.identify(Some("other=1"), NOW), Err(SessionRefusal::NotAuthenticated));
    assert_eq!(
        store.identify(Some("chennix_session=unknown"), NOW),
        Err(SessionRefusal::InvalidSession)
    );
    let other = store.begin(8, false, NOW);
    assert_ne!(other, cookie);
    store.end(None);
    store.end(Some(&pair));
    assert_eq!(store.identify(Some(&pair), NOW), Err(SessionRefusal::InvalidSession));
    let pair = other.split(';').next().unwrap().to_string();
    assert_eq!(store.identify(Some(&pair), NOW), Ok(8));
    assert_eq!(
        store.identify(Some(&pair), NOW + SESSION_MAX_AGE_SECS + 1),
        Err(SessionRefusal::InvalidSession)
    );
    assert_eq!(SessionRefusal::NotAuthenticated.message(), "not authenticated");
    assert_eq!(SessionRefusal::InvalidSession.message(), "invalid or expired session");
}
