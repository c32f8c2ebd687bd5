use chennix::error::{AdminError, ProxyError};

fn upstream(status: u16) -> ProxyError {
    ProxyError::Upstream { status, body: "".into() }
}

#[test]
fn test_retryable() {
    assert!(ProxyError::Upstream { status: 429, body: "".into() }.is_retryable());
    assert!(ProxyError::Upstream { status: 503, body: "".into() }.is_retryable());
    assert!(!ProxyError::Upstream { status: 400, body: "".into() }.is_retryable());
}

#[test]
fn test_fatal() {
    assert!(ProxyError::Upstream { status: 401, body: "".into() }.is_fatal());
    assert!(ProxyError::Upstream { status: 403, body: "".into() }.is_fatal());
}

#[test]
fn test_invalid_request() {
    assert!(ProxyError::Upstream { status: 400, body: "".into() }.is_invalid_request());
    assert!(ProxyError::InvalidRequest("bad".into()).is_invalid_request());
    assert!(!ProxyError::Upstream { status: 429, body: "".into() }.is_invalid_request());
}

#[test]
fn error_classes_do_not_overlap() {
    for status in 0..700 {
        let e = upstream(status);
        let classes = [e.is_retryable(), e.is_fatal(), e.is_invalid_request()];
        assert!(classes.iter().filter(|c| **c).count() <= 1, "status {}", status);
    }
    assert!(upstream(599).is_retryable());
    assert!(!upstream(600).is_retryable());
    assert!(ProxyError::UpstreamTimeout(1).is_retryable());
    assert!(upstream(422).is_invalid_request());
}

#[test]
fn every_error_has_its_text() {
    let m = || "m".to_string();
    assert_eq!(ProxyError::ClientAuthFailed.message(), "client auth failed");
    assert_eq!(ProxyError::ModelNotFound(m()).message(), "model not found: m");
    assert_eq!(
        ProxyError::AllKeysDisabled { model: m() }.message(),
        "all keys disabled for model: m"
    );
    assert_eq!(
        ProxyError::AllKeysQuotaExhausted { model: m() }.message(),
        "all keys quota exhausted for model: m"
    );
    assert_eq!(
        ProxyError::AllKeysExhausted {
            model: m(),
            attempted_keys: vec!["a \"q\"".to_string(), "b".to_string()],
            last_error: Some("e".to_string()),
        }
        .message(),
        "all keys exhausted for model: m, attempted: [\"a \\\"q\\\"\", \"b\"], last: Some(\"e\")"
    );
    assert_eq!(
        ProxyError::AllKeysExhausted { model: m(), attempted_keys: vec![], last_error: None }.message(),
        "all keys exhausted for model: m, attempted: [], last: None"
    );
    assert_eq!(
        ProxyError::Upstream { status: 503, body: "gone".to_string() }.message(),
        "upstream error: status 503, body: gone"
    );
    assert_eq!(ProxyError::InvalidRequest(m()).message(), "invalid request: m");
    assert_eq!(ProxyError::Translator(m()).message(), "translator error: m");
    assert_eq!(ProxyError::Storage(m()).message(), "storage error: m");
    assert_eq!(ProxyError::Config(m()).message(), "config error: m");
    assert_eq!(ProxyError::Io(m()).message(), "io error: m");
    assert_eq!(ProxyError::Json(m()).message(), "json error: m");
    assert_eq!(ProxyError::Http(m()).message(), "http error: m");
    assert_eq!(ProxyError::UpstreamTimeout(60).message(), "upstream timeout after 60s");
    assert_eq!(ProxyError::UpstreamTimeout(0).message(), "upstream timeout after 0ns");
}

#[test]
fn durations_are_shown_as_std_shows_them() {
    for secs in [0u64, 1, 59, 300, u64::MAX] {
        let d = std::time::Duration::from_secs(secs);
        assert_eq!(
            ProxyError::UpstreamTimeout(secs).message(),
            format!("upstream timeout after {:?}", d)
        );
    }
}

#[test]
fn a_cooldown_shows_its_end() {
    assert_eq!(
        ProxyError::AllKeysCooldown { model: "m".into(), earliest_recovery: None }.message(),
        "all keys in cooldown for model: m, earliest recovery: None"
    );
    assert_eq!(
        ProxyError::AllKeysCooldown { model: "m".into(), earliest_recovery: Some(0) }.message(),
        "all keys in cooldown for model: m, earliest recovery: Some(1970-01-01T00:00:00Z)"
    );
}

#[test]
fn test_proxy_error_response_status() {
    assert_eq!(ProxyError::ClientAuthFailed.http_status(), 401);
    assert_eq!(ProxyError::ModelNotFound("gpt-4".into()).http_status(), 404);
    assert_eq!(
        ProxyError::AllKeysExhausted { model: "x".into(), attempted_keys: vec![], last_error: None }
            .http_status(),
        503
    );
    assert_eq!(ProxyError::InvalidRequest("bad".into()).http_status(), 400);
}

#[test]
fn every_error_has_its_status_and_type() {
    let m = || "m".to_string();
    let cases: Vec<(ProxyError, u16, &str)> = vec![
        (ProxyError::ClientAuthFailed, 401, "authentication_error"),
        (ProxyError::ModelNotFound(m()), 404, "not_found_error"),
        (ProxyError::AllKeysDisabled { model: m() }, 503, "service_unavailable"),
        (
            ProxyError::AllKeysCooldown { model: m(), earliest_recovery: None },
            503,
            "service_unavailable",
        ),
        (ProxyError::AllKeysQuotaExhausted { model: m() }, 503, "service_unavailable"),
        (
            ProxyError::AllKeysExhausted { model: m(), attempted_keys: vec![], last_error: None },
            503,
            "service_unavailable",
        ),
        (upstream(418), 418, "upstream_error"),
        (ProxyError::InvalidRequest(m()), 400, "invalid_request_error"),
        (ProxyError::Translator(m()), 502, "translator_error"),
        (ProxyError::Storage(m()), 500, "internal_error"),
        (ProxyError::Config(m()), 500, "config_error"),
        (ProxyError::Io(m()), 500, "internal_error"),
        (ProxyError::Json(m()), 500, "internal_error"),
        (ProxyError::Http(m()), 500, "internal_error"),
        (ProxyError::UpstreamTimeout(3), 504, "timeout_error"),
    ];
    for (e, status, kind) in cases {
        assert_eq!(e.http_status(), status, "{:?}", e);
        assert_eq!(e.error_type_name(), kind, "{:?}", e);
    }
}

#[test]
fn admin_errors_have_status_and_text() {
    let m = || "m".to_string();
    let cases = vec![
        (AdminError::NotFound(m()), 404),
        (AdminError::BadRequest(m()), 400),
        (AdminError::Unauthorized(m()), 401),
        (AdminError::Forbidden(m()), 403),
        (AdminError::Conflict(m()), 409),
        (AdminError::BadGateway(m()), 502),
        (AdminError::Internal(m()), 500),
    ];
    for (e, status) in cases {
        assert_eq!(e.status(), status);
        assert_eq!(e.message(), "m");
    }
    assert_eq!(
        AdminError::from_proxy(ProxyError::ModelNotFound("x".into())),
        AdminError::NotFound("x".into())
    );
    assert_eq!(
        AdminError::from_proxy(ProxyError::InvalidRequest("x".into())),
        AdminError::BadRequest("x".into())
    );
    assert_eq!(
        AdminError::from_proxy(ProxyError::Storage("x".into())),
        AdminError::Internal("storage error: x".into())
    );
}
