use chennix::error::ProxyError;
use chennix::executor::{EntryFormat, ExecutionFailure, ExecutionResult};
use chennix::json::JsonItem;
use chennix::normalizer::Normalizer;
use chennix::proxy::{
    answer_status, attempted_csv, can_list, decide_admission, entry_path, list_models, proxy_request,
    stream_mode, LogEntry, RequestInfo, StreamMode, StreamUsage,
};
use chennix::types::{AuthContext, ChannelProvider, TokenConfig, Usage, UserConfig};

fn auth_ctx(model_limits_enabled: bool, limits: Option<Vec<String>>) -> AuthContext {
    AuthContext {
        user: UserConfig {
            id: 1,
            username: "alice".into(),
            role: 1,
            status: 1,
            quota: 1000,
            used_quota: 0,
            group: "default".into(),
        },
        token: TokenConfig {
            id: 1,
            user_id: 1,
            key: "sk-alice".into(),
            name: None,
            remain_quota: 500,
            used_quota: 0,
            unlimited_quota: false,
            expired_time: -1,
            model_limits_enabled,
            model_limits: limits,
            status: 1,
            allow_ips: None,
        },
        client_ip: None,
    }
}

fn names(list: &[&str]) -> Vec<String> {
    list.iter().map(|s| s.to_string()).collect()
}

#[test]
fn test_list_models_no_limits() {
    let auth = auth_ctx(false, None);
    let data = list_models(names(&["gpt-4", "sonnet-3", "deepseek-v3"]), &auth.token);
    assert_eq!(data.len(), 3);
    assert!(data.contains(&"gpt-4".to_string()));
    assert!(data.contains(&"sonnet-3".to_string()));
    assert!(data.contains(&"deepseek-v3".to_string()));
}

#[test]
fn test_list_models_with_limits() {
    let auth = auth_ctx(true, Some(vec!["gpt-4".into()]));
    let data = list_models(names(&["gpt-4", "sonnet-3", "deepseek-v3"]), &auth.token);
    assert_eq!(data.len(), 1, "only gpt-4 should be listed");
    assert_eq!(data[0], "gpt-4");
}

#[test]
fn test_list_models_empty_limits_when_enabled() {
    let auth = auth_ctx(true, Some(vec![]));
    let data = list_models(names(&["gpt-4", "sonnet-3"]), &auth.token);
    assert_eq!(data.len(), 0, "empty limits list when enabled: nothing allowed");
}

#[test]
fn test_list_models_limits_case_insensitive() {
    let auth = auth_ctx(true, Some(vec!["gpt-4".into()]));
    let data = list_models(names(&["GPT-4", "Sonnet-3"]), &auth.token);
    assert_eq!(data.len(), 1, "case-insensitive match should find GPT-4");
    assert_eq!(data[0], "GPT-4");
}

#[test]
fn allowed_models_are_listed() {
    let all = names(&["gpt-4", "GPT-4", "sonnet-3"]);
    let tokens = [
        auth_ctx(false, None).token,
        auth_ctx(true, None).token,
        auth_ctx(true, Some(vec!["gpt-4".into()])).token,
        auth_ctx(true, Some(vec![])).token,
    ];
    for token in &tokens {
        let shown = list_models(all.clone(), token);
        for name in &all {
            assert!(!token.allows_model(name) || shown.contains(name));
        }
    }
    // a model may be listed and not allowed: the limits name it in another case
    assert!(can_list(&tokens[2], "GPT-4") && !tokens[2].allows_model("GPT-4"));
}

#[test]
fn test_list_models_empty_db() {
    let auth = auth_ctx(false, None);
    assert_eq!(list_models(vec![], &auth.token).len(), 0);
}

#[test]
fn limits_that_are_not_set_allow_everything() {
    let auth = auth_ctx(true, None);
    assert!(can_list(&auth.token, "anything"));
    let auth = auth_ctx(true, Some(vec!["Ä".into()]));
    assert!(!can_list(&auth.token, "ä"));
}

fn normalizer() -> Normalizer {
    let mut n = Normalizer::new();
    n.reload(vec![("gpt-4".into(), (7, "gpt-4".into()))]);
    n
}

#[test]
fn a_request_needs_a_known_and_allowed_model() {
    let auth = auth_ctx(true, Some(vec!["gpt-4".into()]));
    let a = proxy_request(r#"{"model": "GPT-4", "stream": true}"#, &auth, &normalizer()).unwrap();
    assert_eq!(a.client_model, "GPT-4");
    assert_eq!(a.context.model_id, 7);
    assert_eq!(a.context.canonical_name, "gpt-4");
    assert_eq!(a.context.user_group, "default");
    assert!(a.is_stream);

    let r = proxy_request(r#"{"messages": []}"#, &auth, &normalizer()).unwrap_err();
    assert_eq!(r.error, ProxyError::InvalidRequest("missing 'model' field".into()));
    assert_eq!(r.logged_model, None);

    let r = proxy_request(r#"{"model": "nope"}"#, &auth, &normalizer()).unwrap_err();
    assert_eq!(r.error, ProxyError::ModelNotFound("nope".into()));

    let other = auth_ctx(true, Some(vec!["other".into()]));
    let r = proxy_request(r#"{"model": "gpt-4"}"#, &other, &normalizer()).unwrap_err();
    assert_eq!(
        r.error,
        ProxyError::InvalidRequest("model 'gpt-4' is not allowed for this token".into())
    );
    assert_eq!(r.logged_model.as_deref(), Some("gpt-4"));
}

#[test]
fn a_stream_is_asked_for_with_true() {
    let auth = auth_ctx(false, None);
    let model = || Some(JsonItem::Text("gpt-4".into()));
    let a = decide_admission(model(), None, &auth, &normalizer()).unwrap();
    assert!(!a.is_stream);
    let a = decide_admission(model(), Some(JsonItem::Text("true".into())), &auth, &normalizer()).unwrap();
    assert!(!a.is_stream);
    let a = decide_admission(model(), Some(JsonItem::Bool(true)), &auth, &normalizer()).unwrap();
    assert!(a.is_stream);
    assert!(decide_admission(Some(JsonItem::Null), None, &auth, &normalizer()).is_err());
}

#[test]
fn statuses_outside_http_become_500() {
    let e = |status: u16| ProxyError::Upstream { status, body: "".into() };
    assert_eq!(answer_status(&e(99)), 500);
    assert_eq!(answer_status(&e(100)), 100);
    assert_eq!(answer_status(&e(999)), 999);
    assert_eq!(answer_status(&e(1000)), 500);
    assert_eq!(answer_status(&ProxyError::ClientAuthFailed), 401);
}

fn info(entry: EntryFormat) -> RequestInfo {
    RequestInfo {
        request_id: "r".into(),
        entry,
        client_ip: Some("1.2.3.4".into()),
        client_model: Some("GPT-4".into()),
        normalized_model: "gpt-4".into(),
        user_id: 1,
        token_id: 2,
        stream: false,
    }
}

#[test]
fn requests_are_logged() {
    let error = ProxyError::InvalidRequest("x".into());
    let e = LogEntry::refused(&info(EntryFormat::OpenAI), 5, &error);
    assert_eq!(e.request_id, "r");
    assert_eq!(e.method, "POST");
    assert_eq!(e.path, "/v1/chat/completions");
    assert_eq!(e.normalized_model.as_deref(), Some("gpt-4"));
    assert_eq!(e.response_status, 400);
    assert_eq!(e.error_message.as_deref(), Some("invalid request: x"));
    assert_eq!(e.duration_ms, 5);
    assert_eq!((e.user_id, e.token_id), (Some(1), Some(2)));
    assert_eq!(e.channel_name, None);

    let failure = ExecutionFailure {
        channel_name: Some("ch".into()),
        key_label: None,
        attempted_keys: vec!["a".into(), "b".into()],
        upstream_status: Some(503),
        upstream_model_name: Some("up".into()),
        error: ProxyError::AllKeysExhausted { model: "m".into(), attempted_keys: vec![], last_error: None },
    };
    let e = LogEntry::failed(&info(EntryFormat::Claude), 6, &failure);
    assert_eq!(e.path, "/v1/messages");
    assert_eq!(e.channel_name.as_deref(), Some("ch"));
    assert_eq!(e.attempted_keys.as_deref(), Some("a,b"));
    assert_eq!(e.upstream_status, Some(503));
    assert_eq!(e.upstream_model.as_deref(), Some("up"));
    assert_eq!(e.response_status, 503);
    assert_eq!(e.quota_cost, 0);

    let result = ExecutionResult {
        body: vec![],
        channel_name: "ch".into(),
        key_label: Some("k".into()),
        upstream_status: Some(200),
        upstream_model_name: "up".into(),
        quota_cost: 9,
        attempted_keys: vec!["k".into()],
    };
    let e = LogEntry::succeeded(&info(EntryFormat::OpenAI), 7, &result);
    assert_eq!(e.response_status, 200);
    assert_eq!(e.key_label.as_deref(), Some("k"));
    assert_eq!(e.quota_cost, 9);
    assert_eq!(e.error_message, None);

    let e = LogEntry::streamed(
        &info(EntryFormat::OpenAI), 8, &"ch".to_string(), &Some("k".to_string()), &"up".to_string(), 3,
    );
    assert!(e.stream);
    assert_eq!(e.path, "");
    assert_eq!(e.attempted_keys.as_deref(), Some("k"));
    assert_eq!(e.upstream_status, None);
    assert_eq!(e.quota_cost, 3);
}

#[test]
fn names_are_joined_by_commas() {
    assert_eq!(attempted_csv(&vec![]), None);
    assert_eq!(attempted_csv(&names(&["a"])).as_deref(), Some("a"));
    assert_eq!(attempted_csv(&names(&["a", "", "c"])).as_deref(), Some("a,,c"));
    assert_eq!(entry_path(EntryFormat::Claude), "/v1/messages");
}

#[test]
fn streams_are_forwarded_or_translated() {
    let open = ChannelProvider::OpenaiCompatible;
    let anthropic = ChannelProvider::Anthropic;
    assert_eq!(stream_mode(EntryFormat::OpenAI, open), StreamMode::Forward);
    assert_eq!(stream_mode(EntryFormat::Claude, anthropic), StreamMode::Forward);
    assert_eq!(stream_mode(EntryFormat::OpenAI, anthropic), StreamMode::TranslateChunks);
    assert_eq!(stream_mode(EntryFormat::Claude, open), StreamMode::TranslateEvents);
}

#[test]
fn usage_of_a_stream_adds_up() {
    let mut s = StreamUsage::new();
    assert!(s.absorb(None));
    assert!(s.absorb(Some(Usage { prompt_tokens: 1, completion_tokens: 2, total_tokens: 3 })));
    assert!(s.absorb(Some(Usage { prompt_tokens: 10, completion_tokens: 20, total_tokens: 30 })));
    assert_eq!(s.total, Usage { prompt_tokens: 11, completion_tokens: 22, total_tokens: 33 });
    assert!(!s.absorb(Some(Usage { prompt_tokens: 0, completion_tokens: 0, total_tokens: u64::MAX })));
    assert_eq!(s.total.total_tokens, 33);
}
