use chennix::auth::{
    extract_bearer, extract_client_ip, require_role, validate_token, RoleVerdict,
};
use chennix::types::{AdminAuthContext, AuthContext, TokenConfig, UserConfig};

#[test]
fn test_extract_bearer_valid() {
    assert_eq!(extract_bearer(Some("Bearer sk-test123")).as_deref(), Some("sk-test123"));
}

#[test]
fn test_extract_bearer_case_insensitive_prefix() {
    assert_eq!(extract_bearer(Some("bearer sk-lower")).as_deref(), Some("sk-lower"));
}

#[test]
fn test_extract_bearer_missing_header() {
    assert!(extract_bearer(None).is_none());
}

#[test]
fn test_extract_bearer_wrong_scheme() {
    assert!(extract_bearer(Some("Basic dXNlcjpwYXNz")).is_none());
}

#[test]
fn test_extract_bearer_empty_token() {
    assert!(extract_bearer(Some("Bearer ")).is_none());
}

#[test]
fn test_extract_bearer_trimmed() {
    assert_eq!(
        extract_bearer(Some("Bearer   sk-with-spaces  ")).as_deref(),
        Some("sk-with-spaces")
    );
}

#[test]
fn test_extract_client_ip_xff_first() {
    assert_eq!(extract_client_ip(Some("1.2.3.4, 5.6.7.8"), None).as_deref(), Some("1.2.3.4"));
}

#[test]
fn test_extract_client_ip_xri() {
    assert_eq!(extract_client_ip(None, Some("9.9.9.9")).as_deref(), Some("9.9.9.9"));
}

#[test]
fn test_extract_client_ip_none() {
    assert!(extract_client_ip(None, None).is_none());
}

#[test]
fn test_extract_client_ip_xff_takes_priority_over_xri() {
    assert_eq!(extract_client_ip(Some("1.1.1.1"), Some("2.2.2.2")).as_deref(), Some("1.1.1.1"));
}

#[test]
fn an_empty_first_address_falls_back() {
    assert_eq!(extract_client_ip(Some(" ,3.3.3.3"), Some(" 2.2.2.2 ")).as_deref(), Some("2.2.2.2"));
    assert_eq!(extract_client_ip(Some(""), Some("  ")), None);
}

#[test]
fn other_spellings_of_the_scheme_are_refused() {
    assert!(extract_bearer(Some("BEARER x")).is_none());
    assert!(extract_bearer(Some("Bearer\tx")).is_none());
    assert!(extract_bearer(Some(" Bearer x")).is_none());
    assert_eq!(extract_bearer(Some("Bearer bearer x")).as_deref(), Some("bearer x"));
}

fn user(role: i32) -> UserConfig {
    UserConfig {
        id: 1,
        username: "u".into(),
        role,
        status: 1,
        quota: 0,
        used_quota: 0,
        group: "default".into(),
    }
}

fn token_context(role: i32) -> AuthContext {
    AuthContext {
        user: user(role),
        token: TokenConfig {
            id: 1, user_id: 1, key: "k".into(), name: None,
            remain_quota: 0, used_quota: 0, unlimited_quota: false,
            expired_time: -1, model_limits_enabled: false,
            model_limits: None, status: 1, allow_ips: None,
        },
        client_ip: None,
    }
}

#[test]
fn a_guard_asks_for_a_role() {
    let service = require_role(10).layer("inner");
    assert_eq!(service.inner, "inner");
    let admin = AdminAuthContext { user: user(10) };
    let common = AdminAuthContext { user: user(9) };
    assert_eq!(service.check(Some(&admin), None), RoleVerdict::Pass);
    assert_eq!(service.check(Some(&common), None), RoleVerdict::Forbidden);
    assert_eq!(service.check(None, Some(&token_context(100))), RoleVerdict::Pass);
    assert_eq!(service.check(None, Some(&token_context(1))), RoleVerdict::Forbidden);
    assert_eq!(service.check(None, None), RoleVerdict::Unauthenticated);
    // the session counts where there is one
    assert_eq!(service.check(Some(&common), Some(&token_context(100))), RoleVerdict::Forbidden);
}

#[test]
fn a_token_admits_requests() {
    let context = token_context(1);
    let (user, token) = (context.user, context.token);
    let admitted = validate_token(user.clone(), token.clone(), Some("1.2.3.4".into()), 50);
    assert_eq!(admitted.map(|c| c.client_ip), Some(Some("1.2.3.4".to_string())));
    assert!(validate_token(user.clone(), token.clone(), None, 50).is_some());

    let mut off = token.clone();
    off.status = 2;
    assert!(validate_token(user.clone(), off, None, 50).is_none());
    let mut locked = user.clone();
    locked.status = 2;
    assert!(validate_token(locked, token.clone(), None, 50).is_none());

    let mut short = token.clone();
    short.expired_time = 50;
    assert!(validate_token(user.clone(), short.clone(), None, 49).is_some());
    assert!(validate_token(user.clone(), short, None, 50).is_none());

    let mut bound = token.clone();
    bound.allow_ips = Some(vec!["1.2.3.4".into()]);
    assert!(validate_token(user.clone(), bound.clone(), Some("1.2.3.4".into()), 0).is_some());
    assert!(validate_token(user.clone(), bound.clone(), Some("1.2.3.5".into()), 0).is_none());
    assert!(validate_token(user, bound, None, 0).is_none());
}
