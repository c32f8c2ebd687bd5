use chennix::adaptor::build_models_url;
use chennix::admin::{
    appended_priority, binding_probe, check_binding_target, check_old_password, check_pricing,
    check_quota_settings, check_removable, check_strategy, check_weight, clean_model_names,
    collect_texts, dashboard_access, decide_password_change, delete_token_access,
    discovered_models, discovery_answer, discovery_key, effective_user_id, find_binding,
    first_bound_model, key_status_number, model_info, model_probe, next_binding_priority, paging,
    probe_request, probe_result, probe_target, provider_of, reordered_priorities, setup_initialize, setup_status,
    target_user_id, token_usage_access, update_token_access, user_filter, ModelProbe, ProbeOutcome,
};
use chennix::cache::{Binding, CacheData};
use chennix::error::{AdminError, AdminResult, ProxyError};
use chennix::json::JsonItem;
use chennix::password::hash_password;
use chennix::snapshot::BindingRow;
use chennix::types::{
    BillingType, ChannelConfig, ChannelModelPricing, ChannelProvider, CostTier, KeyConfig, KeyStatus, UserConfig,
};

fn user(role: i32) -> UserConfig {
    UserConfig {
        id: 5,
        username: "u".into(),
        role,
        status: 1,
        quota: 0,
        used_quota: 0,
        group: "default".into(),
    }
}

fn bad<T>(text: &str) -> AdminResult<T> {
    Err(AdminError::BadRequest(text.to_string()))
}

#[test]
fn test_setup_status_needs_setup_when_empty() {
    assert!(setup_status(0).needs_setup);
}

#[test]
fn test_setup_status_no_setup_when_users_exist() {
    assert!(!setup_status(1).needs_setup);
}

#[test]
fn test_setup_initialize_creates_admin() {
    let account = setup_initialize("rootadmin", "strong-pass-123", 0).unwrap();
    assert_eq!(account.username, "rootadmin");
    assert_eq!(account.role, 100);
    assert_eq!(account.group, "default");
    assert_eq!(account.quota, 999_999_999_000_000);
}

#[test]
fn test_setup_initialize_rejects_when_users_exist() {
    let e = setup_initialize("newadmin", "strong-pass-123", 1).unwrap_err();
    assert_eq!(e.status(), 400);
    assert_eq!(e.message(), "系统已初始化，请直接登录");
}

#[test]
fn test_setup_initialize_rejects_short_password() {
    let e = setup_initialize("admin", "short", 0).unwrap_err();
    assert_eq!(e.status(), 400);
    assert_eq!(e.message(), "密码长度至少 8 位");
}

#[test]
fn the_setup_counts_bytes_and_trims_the_name() {
    // three characters of three bytes each
    assert!(setup_initialize(" root ", "密码强", 0).is_ok());
    assert_eq!(setup_initialize(" root ", "密码强", 0).unwrap().username, "root");
    assert_eq!(setup_initialize("  ", "strong-pass-123", 1), bad("用户名不能为空"));
}

#[test]
fn only_admins_see_everything() {
    assert_eq!(dashboard_access(&user(10)), Ok(()));
    assert_eq!(
        dashboard_access(&user(1)),
        Err(AdminError::Forbidden("dashboard is admin-only".into()))
    );
    assert_eq!(effective_user_id(&user(10), None), None);
    assert_eq!(effective_user_id(&user(10), Some(7)), Some(7));
    assert_eq!(effective_user_id(&user(1), Some(7)), Some(5));
    assert_eq!(user_filter(&user(10)), None);
    assert_eq!(user_filter(&user(1)), Some(5));
}

#[test]
fn tokens_are_created_for_their_owner() {
    assert_eq!(target_user_id(&user(10), Some(7), 8), 7);
    assert_eq!(target_user_id(&user(10), None, 8), 8);
    assert_eq!(target_user_id(&user(10), None, 0), 5);
    assert_eq!(target_user_id(&user(1), Some(7), 8), 5);
    assert_eq!(target_user_id(&user(1), None, 8), 5);
}

#[test]
fn tokens_belong_to_their_owner() {
    assert_eq!(update_token_access(&user(10), 3, None), Ok(()));
    assert_eq!(update_token_access(&user(1), 3, Some(5)), Ok(()));
    assert_eq!(
        update_token_access(&user(1), 3, None),
        Err(AdminError::NotFound("token 3 not found".into()))
    );
    assert_eq!(
        update_token_access(&user(1), 3, Some(6)),
        Err(AdminError::Forbidden("you can only modify your own tokens".into()))
    );
    assert_eq!(
        delete_token_access(&user(1), 3, Some(6)),
        Err(AdminError::Forbidden("you can only delete your own tokens".into()))
    );
    assert_eq!(
        delete_token_access(&user(1), -3, None),
        Err(AdminError::NotFound("token -3 not found".into()))
    );
    assert_eq!(
        token_usage_access(&user(1), None),
        Err(AdminError::NotFound("token not found".into()))
    );
    assert_eq!(
        token_usage_access(&user(1), Some(6)),
        Err(AdminError::Forbidden("you do not own this token".into()))
    );
    assert_eq!(token_usage_access(&user(1), Some(5)), Ok(()));
}

#[test]
fn pages_have_bounds() {
    assert_eq!(paging(None, None), (1, 20));
    assert_eq!(paging(Some(0), Some(0)), (1, 1));
    assert_eq!(paging(Some(3), Some(1000)), (3, 100));
    assert_eq!(paging(Some(-4), Some(50)), (1, 50));
}

#[test]
fn key_statuses_have_numbers() {
    assert_eq!(key_status_number("active"), Ok(1));
    assert_eq!(key_status_number("disabled"), Ok(2));
    assert_eq!(key_status_number("cooldown"), Ok(3));
    assert_eq!(key_status_number("quota_exhausted"), Ok(4));
    assert_eq!(
        key_status_number("Active"),
        bad("invalid status 'Active': expected one of active, disabled, cooldown, quota_exhausted")
    );
}

#[test]
fn strategies_weights_and_quota_settings_are_checked() {
    assert_eq!(check_strategy(" load_balance "), Ok("load_balance".to_string()));
    assert_eq!(check_strategy("priority"), Ok("priority".to_string()));
    assert_eq!(
        check_strategy(" x"),
        bad("invalid strategy ' x': expected 'priority' or 'load_balance'")
    );
    assert_eq!(check_weight(1), Ok(()));
    assert_eq!(check_weight(0), bad("weight must be >= 1 (got 0)"));
    assert_eq!(check_weight(-7), bad("weight must be >= 1 (got -7)"));
    assert_eq!(check_quota_settings("token", "day"), Ok(()));
    assert_eq!(check_quota_settings("call", "total"), Ok(()));
    assert_eq!(
        check_quota_settings("calls", "week"),
        bad("invalid unit 'calls': expected 'token' or 'call'")
    );
    assert_eq!(
        check_quota_settings("call", "week"),
        bad("invalid window 'week': expected 'day', 'month' or 'total'")
    );
}

#[test]
fn new_bindings_come_last() {
    assert_eq!(next_binding_priority(&vec![]), 10);
    assert_eq!(next_binding_priority(&vec![30, 10, 20]), 40);
    assert_eq!(next_binding_priority(&vec![-50]), -40);
    assert_eq!(appended_priority(0), 10);
    assert_eq!(appended_priority(3), 40);
}

#[test]
fn bindings_need_a_model_a_channel_and_a_discovered_name() {
    assert_eq!(check_binding_target(1, true, 2, true, "u", true), Ok(()));
    assert_eq!(
        check_binding_target(1, false, 2, false, "u", false),
        Err(AdminError::NotFound("model 1 not found".into()))
    );
    assert_eq!(
        check_binding_target(1, true, 2, false, "u", false),
        Err(AdminError::NotFound("channel 2 not found".into()))
    );
    assert_eq!(
        check_binding_target(1, true, 2, true, "u", false),
        bad("upstream_model_name 'u' does not match any discovered model (channel=2, raw_model_name) in discovered_models")
    );
}

#[test]
fn bound_models_are_not_removed() {
    assert_eq!(check_removable(None), Ok(()));
    assert_eq!(check_removable(Some(0)), Ok(()));
    let e = check_removable(Some(2)).unwrap_err();
    assert_eq!(e.status(), 409);
    assert_eq!(e.message(), "该模型已被 2 个大模型绑定，请先在 Models 页面解除绑定后再删除");
}

#[test]
fn pricing_by_expression_needs_a_good_one() {
    let p = |t: BillingType, e: Option<&str>| ChannelModelPricing {
        billing_type: t,
        billing_expr: e.map(|s| s.to_string()),
        ..ChannelModelPricing::default()
    };
    let wrong = Err(ProxyError::Config("billing expr is empty".into()));
    assert_eq!(check_pricing(&p(BillingType::Token, None), &wrong), Ok(()));
    assert_eq!(check_pricing(&p(BillingType::PerCall, Some("x")), &wrong), Ok(()));
    assert_eq!(check_pricing(&p(BillingType::Expression, Some("p")), &Ok(())), Ok(()));
    assert_eq!(
        check_pricing(&p(BillingType::Expression, None), &Ok(())),
        bad("billing_expr is required for Expression mode")
    );
    assert_eq!(
        check_pricing(&p(BillingType::Expression, Some("")), &wrong),
        bad("invalid billing expression: config error: billing expr is empty")
    );
}

#[test]
fn model_names_are_cleaned() {
    let names = vec![" a ".to_string(), "".to_string(), " \t".to_string(), "b".to_string()];
    assert_eq!(clean_model_names(&names), vec!["a", "b"]);
    assert!(clean_model_names(&vec![]).is_empty());
}

#[test]
fn listed_models_are_read() {
    let body = r#"{"data": [{"id": "m1"}, {"id": 5}, {"name": "x"}, {"id": "m2"}]}"#;
    assert_eq!(discovered_models(body), vec!["m1", "m2"]);
    assert!(discovered_models(r#"{"data": {}}"#).is_empty());
    assert!(discovered_models("nonsense").is_empty());
    let items = vec![Some(JsonItem::Text("t".into())), None, Some(JsonItem::Null)];
    assert_eq!(collect_texts(items), vec!["t"]);
}

fn key(id: i64, status: KeyStatus) -> KeyConfig {
    KeyConfig {
        id,
        channel_id: 1,
        api_key: format!("sk-{}", id),
        label: None,
        cost_tier: CostTier::Free,
        key_priority: 1,
        price_per_1k_tokens: None,
        free_quota: None,
        used_quota: 0,
        quota_reset_period: None,
        status,
    }
}

#[test]
fn models_are_discovered_with_an_active_key() {
    let keys = vec![key(1, KeyStatus::Disabled), key(2, KeyStatus::Active), key(3, KeyStatus::Active)];
    assert_eq!(discovery_key(&keys), Ok("sk-2".to_string()));
    assert_eq!(
        discovery_key(&vec![key(1, KeyStatus::Cooldown)]),
        bad("no active key found for this channel")
    );
    assert_eq!(provider_of("anthropic"), ChannelProvider::Anthropic);
    assert_eq!(provider_of("Anthropic"), ChannelProvider::OpenaiCompatible);
}

#[test]
fn probes_ask_for_one_token() {
    let p = probe_request(ChannelProvider::Anthropic, "https://h", Some("m \"x\""));
    assert_eq!(p.url, "https://h/v1/messages");
    let body: serde_json::Value = serde_json::from_str(&p.body.unwrap()).unwrap();
    assert_eq!(body["model"], "m \"x\"");
    assert_eq!(body["max_tokens"], 1);
    assert_eq!(body["messages"][0]["role"], "user");
    assert_eq!(body["messages"][0]["content"], "hi");
    assert!(body.get("stream").is_none());

    let p = probe_request(ChannelProvider::OpenaiCompatible, "https://h/v1", Some("m"));
    assert_eq!(p.url, "https://h/v1/chat/completions");
    let body: serde_json::Value = serde_json::from_str(&p.body.unwrap()).unwrap();
    assert_eq!(body["stream"], false);

    let p = probe_request(ChannelProvider::OpenaiCompatible, "https://h", None);
    assert_eq!(p.url, build_models_url("https://h"));
    assert!(p.body.is_none());
}

#[test]
fn probes_tell_what_came_back() {
    let ok = ProbeOutcome::Answered(204, "204 No Content".into(), "".into());
    let r = probe_result(&ok, true, 12);
    assert!(r.success && r.error.is_none() && r.latency_ms == 12);
    let r = probe_result(&ok, false, 12);
    assert_eq!(r.error.as_deref(), Some("no models bound - only basic connectivity verified"));
    let r = probe_result(&ProbeOutcome::Answered(404, "404 Not Found".into(), "gone".into()), true, 3);
    assert!(!r.success);
    assert_eq!(r.error.as_deref(), Some("HTTP 404 Not Found: gone"));
    let r = probe_result(&ProbeOutcome::Unreachable("no route".into()), false, 4);
    assert!(!r.success);
    assert_eq!(r.error.as_deref(), Some("no route"));
}

#[test]
fn bindings_are_found_by_channel_and_name() {
    let b = |channel_id: i64, name: &str| Binding {
        channel_id,
        upstream_model_name: name.into(),
        priority: 1,
        weight: 1,
    };
    let bs = vec![b(1, "a"), b(2, "a"), b(2, "b"), b(2, "b")];
    assert_eq!(find_binding(&bs, 2, "b"), Some(2));
    assert_eq!(find_binding(&bs, 1, "b"), None);
}

#[test]
fn passwords_are_changed_with_the_old_one() {
    assert_eq!(decide_password_change(true, true), Ok(()));
    assert_eq!(decide_password_change(true, false), bad("old password is incorrect"));
    assert_eq!(
        decide_password_change(false, true),
        Err(AdminError::Internal("password hash missing".into()))
    );
}

fn channel(id: i64) -> ChannelConfig {
    ChannelConfig {
        id,
        name: format!("ch-{}", id),
        provider: ChannelProvider::Anthropic,
        base_url: "https://h".into(),
        group: "default".into(),
    }
}

fn binding(channel_id: i64, name: &str) -> Binding {
    Binding { channel_id, upstream_model_name: name.into(), priority: 10, weight: 3 }
}

#[test]
fn probes_use_the_first_key_and_binding() {
    let keys = vec![key(1, KeyStatus::Disabled), key(2, KeyStatus::Active)];
    let t = probe_target(4, Some(&channel(4)), &keys, Some("m".into())).unwrap();
    assert_eq!(t.api_key.as_deref(), Some("sk-1"));
    assert_eq!(t.base_url, "https://h");
    assert_eq!(t.provider, ChannelProvider::Anthropic);
    assert_eq!(t.model.as_deref(), Some("m"));
    let t = probe_target(4, Some(&channel(4)), &vec![], None).unwrap();
    assert_eq!(t.api_key, None);
    assert_eq!(
        probe_target(4, None, &keys, None),
        Err(AdminError::NotFound("channel 4 not found".into()))
    );
    assert_eq!(first_bound_model(&vec![binding(1, "a"), binding(2, "b")]).as_deref(), Some("a"));
    assert_eq!(first_bound_model(&vec![]), None);
}

#[test]
fn models_are_probed_on_their_first_binding() {
    let bs = vec![binding(4, "a"), binding(5, "b")];
    assert_eq!(model_probe(1, true, &bs), Ok(ModelProbe::On(4, "a".into())));
    assert_eq!(
        model_probe(1, false, &bs),
        Err(AdminError::NotFound("model 1 not found".into()))
    );
    match model_probe(1, true, &vec![]).unwrap() {
        ModelProbe::Unbound(r) => {
            assert!(!r.success);
            assert_eq!(r.latency_ms, 0);
            assert_eq!(r.error.as_deref(), Some("no channels bound to this model"));
        }
        other => panic!("unexpected {:?}", other),
    }
    assert_eq!(binding_probe(1, true, &bs, 5, "b"), Ok(()));
    assert_eq!(
        binding_probe(1, true, &bs, 5, "a"),
        Err(AdminError::NotFound("binding for model 1 on channel 5 (upstream a) not found".into()))
    );
    assert_eq!(
        binding_probe(1, false, &bs, 5, "b"),
        Err(AdminError::NotFound("model 1 not found".into()))
    );
}

#[test]
fn discovery_tells_what_went_wrong() {
    let ok = ProbeOutcome::Answered(200, "200 OK".into(), r#"{"data": [{"id": "m"}]}"#.into());
    assert_eq!(discovery_answer(&ok, None), Ok(vec!["m".to_string()]));
    assert_eq!(
        discovery_answer(&ok, Some("bad")),
        Err(AdminError::BadGateway("parse upstream response: bad".into()))
    );
    let denied = ProbeOutcome::Answered(401, "401 Unauthorized".into(), "no".into());
    assert_eq!(
        discovery_answer(&denied, None),
        Err(AdminError::BadGateway("Upstream HTTP 401 Unauthorized: no".into()))
    );
    assert_eq!(
        discovery_answer(&ProbeOutcome::Unreachable("down".into()), None),
        Err(AdminError::BadGateway("request failed: down".into()))
    );
}

#[test]
fn models_are_shown_with_their_channels() {
    let m = model_info(
        3,
        "gpt".into(),
        "priority".into(),
        &vec![binding(4, "a"), binding(9, "b")],
        &vec![channel(1), channel(4)],
    );
    assert_eq!(m.id, 3);
    assert_eq!(m.bindings[0].channel_name, "ch-4");
    assert_eq!(m.bindings[0].upstream_model_name, "a");
    assert_eq!(m.bindings[0].priority, 10);
    assert_eq!(m.bindings[0].weight, 3);
    assert_eq!(m.bindings[1].channel_name, "");
}

#[test]
fn a_password_is_changed_with_the_old_one() {
    let hash = hash_password("old secret").unwrap();
    assert!(check_old_password(Some(&hash), "old secret").is_ok());
    assert_eq!(
        check_old_password(Some(&hash), "other"),
        Err(AdminError::BadRequest("old password is incorrect".into()))
    );
    assert_eq!(
        check_old_password(Some("no hash"), "old secret"),
        Err(AdminError::BadRequest("old password is incorrect".into()))
    );
    assert_eq!(
        check_old_password(None, "old secret"),
        Err(AdminError::Internal("password hash missing".into()))
    );
}

#[test]
fn bindings_are_called_in_the_order_given() {
    let priorities = reordered_priorities(3);
    assert_eq!(priorities, vec![10, 20, 30]);
    assert!(reordered_priorities(0).is_empty());
    assert_eq!(appended_priority(3), 40);
    let row = |channel_id: i64, priority: i32| BindingRow {
        binding: Binding { channel_id, upstream_model_name: "u".into(), priority, weight: 1 },
        pricing: None,
    };
    // the order given is 7, 5, 6; it is stored as 5, 6, 7
    let mut data = CacheData::with_channels(vec![]);
    data.add_model(
        1,
        "priority",
        vec![row(5, priorities[1]), row(6, priorities[2]), row(7, priorities[0])],
    );
    let called: Vec<i64> = data.bindings_for(1).unwrap().iter().map(|b| b.channel_id).collect();
    assert_eq!(called, vec![7, 5, 6]);
}
