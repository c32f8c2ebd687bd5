use chennix::cache::{Binding, CacheData, ConfigCache};
use chennix::dispatch::Next;
use chennix::error::ProxyError;
use chennix::executor::{
    body_contains_context_length_exceeded, choose_action, classify_failure, key_label, Action, EntryFormat,
    Event, Execution, ExecutionContext, ExecutionFailure, Executor, FailureAction, KeyEffect,
};
use chennix::health::HealthManager;
use chennix::normalizer::Normalizer;
use chennix::pricing::CostBasis;
use chennix::router::RoutedKey;
use chennix::types::{
    BillingType, ChannelConfig, ChannelModelPricing, ChannelProvider, CostTier, KeyConfig, KeyStatus,
    Price, Usage,
};

const NOW: i64 = 1_710_504_000_000;

fn price(v: f64) -> Price {
    Price { bits: v.to_bits() }
}

fn channel(id: i64, group: &str, provider: ChannelProvider) -> ChannelConfig {
    ChannelConfig {
        id,
        name: format!("ch-{}", id),
        provider,
        base_url: format!("http://127.0.0.1:1/ch-{}", id),
        group: group.into(),
    }
}

fn key(id: i64, channel_id: i64, tier: CostTier, kp: i32) -> KeyConfig {
    KeyConfig {
        id,
        channel_id,
        api_key: format!("sk-{}", id),
        label: Some(format!("label-{}", id)),
        cost_tier: tier,
        key_priority: kp,
        price_per_1k_tokens: Some(price(0.01)),
        free_quota: Some(100_000),
        used_quota: 0,
        quota_reset_period: None,
        status: KeyStatus::Active,
    }
}

fn ctx(model_id: i64) -> ExecutionContext {
    ExecutionContext {
        user_id: 1,
        token_id: 10,
        user_group: "default".into(),
        model_id,
        canonical_name: format!("model-{}", model_id),
    }
}

/// A snapshot with two channels bound to model 7: a Free/priority-50 channel and a
/// Paid/priority-100 channel.
fn two_keys() -> CacheData {
    let ch1 = channel(1, "default", ChannelProvider::OpenaiCompatible);
    let ch2 = channel(2, "default", ChannelProvider::OpenaiCompatible);
    let mut data = CacheData::with_channels(vec![ch1, ch2]);
    data.keys.insert(1, vec![key(10, 1, CostTier::Paid, 100)]);
    data.keys.insert(2, vec![key(11, 2, CostTier::Free, 100)]);
    data.bindings.insert(
        7,
        vec![
            Binding {
                channel_id: 1,
                upstream_model_name: "up-a".into(),
                priority: 100,
                weight: 1,
            },
            Binding {
                channel_id: 2,
                upstream_model_name: "up-b".into(),
                priority: 50,
                weight: 1,
            },
        ],
    );
    data.channel_model_pricing.insert(
        (7, 1, "up-a".to_string()),
        ChannelModelPricing {
            billing_type: BillingType::Token,
            input_price: price(0.03),
            output_price: price(0.06),
            call_price: price(0.0),
            billing_expr: None,
        },
    );
    data
}

fn make_executor() -> Executor {
    let mut cache = ConfigCache::new(Normalizer::new());
    cache.store(two_keys(), vec![]);
    Executor::new(HealthManager::new(), cache, 60, 300)
}

fn upstream(status: u16, body: &str) -> ProxyError {
    ProxyError::Upstream { status, body: body.into() }
}

#[test]
fn test_classify_return_to_client_for_invalid_request() {
    assert_eq!(classify_failure(&upstream(400, "")), FailureAction::ReturnToClient);
    assert_eq!(classify_failure(&upstream(422, "")), FailureAction::ReturnToClient);
    assert_eq!(
        classify_failure(&ProxyError::InvalidRequest("bad".into())),
        FailureAction::ReturnToClient
    );
}

#[test]
fn test_classify_disable_for_fatal() {
    assert_eq!(classify_failure(&upstream(401, "")), FailureAction::Disable);
    assert_eq!(classify_failure(&upstream(403, "")), FailureAction::Disable);
}

#[test]
fn test_classify_cooldown_for_retryable_and_network() {
    // 429 + 5xx
    assert_eq!(classify_failure(&upstream(429, "")), FailureAction::Cooldown);
    assert_eq!(classify_failure(&upstream(500, "")), FailureAction::Cooldown);
    assert_eq!(classify_failure(&upstream(503, "")), FailureAction::Cooldown);
    assert_eq!(classify_failure(&ProxyError::Http("down".into())), FailureAction::Cooldown);
    assert_eq!(classify_failure(&ProxyError::UpstreamTimeout(60)), FailureAction::Cooldown);
}

#[test]
fn test_classify_skip_binding_for_404_and_context_length() {
    // 404: SkipBinding (model not found at upstream)
    assert_eq!(classify_failure(&upstream(404, "")), FailureAction::SkipBinding);
    // 400 + context_length_exceeded: SkipBinding
    assert_eq!(
        classify_failure(&upstream(400, r#"{"error":{"code":"context_length_exceeded"}}"#)),
        FailureAction::SkipBinding
    );
    assert_eq!(
        classify_failure(&upstream(400, r#"{"error":"bad request"}"#)),
        FailureAction::ReturnToClient
    );
    assert_eq!(
        classify_failure(&upstream(400, "CONTEXT_LENGTH_EXCEEDED")),
        FailureAction::SkipBinding
    );
}

#[test]
fn a_long_context_matters_only_with_status_400() {
    assert!(body_contains_context_length_exceeded("x Context_Length_Exceeded y"));
    assert!(!body_contains_context_length_exceeded("context length exceeded"));
    assert_eq!(
        classify_failure(&upstream(422, "context_length_exceeded")),
        FailureAction::ReturnToClient
    );
    assert_eq!(choose_action(&upstream(400, ""), true), FailureAction::SkipBinding);
    assert_eq!(choose_action(&upstream(400, ""), false), FailureAction::ReturnToClient);
    assert_eq!(choose_action(&upstream(500, ""), true), FailureAction::Cooldown);
}

#[test]
fn test_select_keys_orders_by_binding_priority() {
    let exec = make_executor();
    let groups = exec.select_keys(&ctx(7), NOW);
    assert_eq!(groups.len(), 2); // 2 bindings
    assert_eq!(groups[0][0].key.id, 11);
    assert_eq!(groups[0][0].upstream_model_name, "up-b");
    assert_eq!(groups[1][0].key.id, 10);
    assert_eq!(groups[1][0].upstream_model_name, "up-a");
}

#[test]
fn test_select_keys_skips_unavailable_keys() {
    let mut exec = make_executor();
    // Mark key 11 (would be first) as cooldown.
    exec.health.mark_cooldown(11, "up-b", NOW);
    let groups = exec.select_keys(&ctx(7), NOW);
    assert_eq!(groups.len(), 1); // 1 binding
    assert_eq!(groups[0][0].key.id, 10);
}

#[test]
fn test_select_keys_unknown_model_returns_empty() {
    let exec = make_executor();
    let mut ctx = ctx(7);
    ctx.model_id = 999;
    assert!(exec.select_keys(&ctx, NOW).is_empty());
}

#[test]
fn test_select_keys_group_filter_excludes_other_groups() {
    let exec = make_executor();
    let mut ctx = ctx(7);
    ctx.user_group = "vip".into(); // channels are in "default" group only
    let keys = exec.select_keys(&ctx, NOW);
    assert!(keys.is_empty(), "vip user should not see default-group channels");
}

/// Runs a request whose upstream fails in the same way on every key.
fn run_failing(exec: &mut Executor, ctx: &ExecutionContext, error: fn() -> ProxyError) -> ExecutionFailure {
    let plan = match exec.plan(ctx, EntryFormat::OpenAI, "{}", NOW) {
        Ok(plan) => plan,
        Err(failure) => return failure,
    };
    let mut execution = Execution::start(plan.candidates);
    loop {
        match exec.next_step(&mut execution, ctx, NOW) {
            Next::GiveUp(failure) => return failure,
            Next::Try(_) => {
                match exec.observe(&mut execution, ctx, Event::Failed(error()), NOW).action {
                    Action::Proceed(_) => {}
                    Action::Refund(failure) => return failure,
                    Action::Settle => unreachable!(),
                }
            }
        }
    }
}

#[test]
fn test_execute_no_candidates_returns_all_keys_exhausted() {
    let mut exec = make_executor();
    let mut ctx = ctx(7);
    ctx.model_id = 999; // no bindings
    let fail = run_failing(&mut exec, &ctx, || ProxyError::Http("down".into()));
    assert!(matches!(fail.error, ProxyError::AllKeysExhausted { .. }), "got {:?}", fail.error);
    assert!(fail.channel_name.is_none());
    assert!(fail.upstream_model_name.is_none());
    assert!(fail.attempted_keys.is_empty());
}

#[test]
fn test_execute_stream_no_candidates_returns_all_keys_exhausted() {
    let exec = make_executor();
    let mut ctx = ctx(7);
    ctx.model_id = 999; // no bindings
    let fail = exec.plan(&ctx, EntryFormat::OpenAI, r#"{"stream":true}"#, NOW).unwrap_err();
    assert!(matches!(fail.error, ProxyError::AllKeysExhausted { .. }));
    assert!(fail.channel_name.is_none());
    assert!(fail.upstream_model_name.is_none());
}

#[test]
fn test_execute_all_keys_unreachable_marks_cooldown_and_exhausts() {
    let mut exec = make_executor();
    let fail = run_failing(&mut exec, &ctx(7), || ProxyError::Http("down".into()));
    match fail.error {
        ProxyError::AllKeysExhausted { attempted_keys, last_error, .. } => {
            // both keys were attempted
            assert_eq!(attempted_keys.len(), 2, "both keys should be tried");
            assert_eq!(last_error.as_deref(), Some("http error: down"));
            assert_eq!(fail.channel_name.as_deref(), Some("ch-1"));
            assert_eq!(fail.upstream_model_name.as_deref(), Some("up-a"));
            assert_eq!(fail.attempted_keys.len(), 2);
        }
        other => panic!("expected AllKeysExhausted, got {:?}", other),
    }
    // both keys are now in cooldown for the model that they were tried with
    assert!(!exec.health.is_available(10, "up-a", NOW));
    assert!(!exec.health.is_available(11, "up-b", NOW));
}

fn routed(channel_id: i64, key_id: i64, label: Option<&str>) -> RoutedKey {
    let mut k = key(key_id, channel_id, CostTier::Paid, 1);
    k.label = label.map(|s| s.to_string());
    RoutedKey {
        channel: channel(channel_id, "default", ChannelProvider::OpenaiCompatible),
        key: k,
        upstream_model_name: format!("up-{}", channel_id),
        binding_priority: 1,
        weight: 1,
    }
}

fn plan() -> Vec<Vec<RoutedKey>> {
    vec![
        vec![routed(1, 10, Some("a")), routed(1, 11, None)],
        vec![],
        vec![routed(3, 30, Some("c"))],
        vec![routed(4, 40, Some("d"))],
    ]
}

fn next_id(e: &Execution) -> Option<i64> {
    e.next_key().map(|rk| rk.key.id)
}

#[test]
fn keys_are_tried_in_order_on_three_bindings() {
    let mut e = Execution::start(plan());
    let mut ids = Vec::new();
    while let Some(id) = next_id(&e) {
        ids.push(id);
        assert_eq!(e.step(Event::TimedOut(60)), Action::Proceed(KeyEffect::Cooldown));
    }
    assert_eq!(ids, vec![10, 11, 30]);
    assert_eq!(e.attempted(), vec!["a", "key-11", "c"]);
    let fail = e.exhausted("m");
    assert_eq!(fail.channel_name.as_deref(), Some("ch-3"));
    assert_eq!(fail.key_label.as_deref(), Some("c"));
    assert_eq!(fail.upstream_status, None);
    assert_eq!(
        fail.error,
        ProxyError::AllKeysExhausted {
            model: "m".into(),
            attempted_keys: vec!["a".into(), "key-11".into(), "c".into()],
            last_error: Some("upstream timeout after 60s".into()),
        }
    );
}

#[test]
fn a_missing_model_rules_out_the_binding() {
    let mut e = Execution::start(plan());
    assert_eq!(e.step(Event::Failed(upstream(404, ""))), Action::Proceed(KeyEffect::Keep));
    assert_eq!(next_id(&e), Some(30));
    assert_eq!(e.step(Event::Failed(upstream(401, "no"))), Action::Proceed(KeyEffect::Disable));
    assert_eq!(next_id(&e), None);
    let fail = e.exhausted("m");
    assert_eq!(fail.upstream_status, Some(401));
    assert_eq!(fail.attempted_keys, vec!["a", "c"]);
}

#[test]
fn an_invalid_request_is_answered_at_once() {
    let mut e = Execution::start(plan());
    assert_eq!(e.step(Event::Unavailable), Action::Proceed(KeyEffect::Keep));
    assert_eq!(next_id(&e), Some(11));
    match e.step(Event::Failed(upstream(422, "bad"))) {
        Action::Refund(f) => {
            assert_eq!(f.error, upstream(422, "bad"));
            assert_eq!(f.channel_name.as_deref(), Some("ch-1"));
            assert_eq!(f.key_label, None);
            assert_eq!(f.upstream_status, Some(422));
            assert_eq!(f.upstream_model_name.as_deref(), Some("up-1"));
            assert_eq!(f.attempted_keys, vec!["key-11"]);
        }
        other => panic!("unexpected action {:?}", other),
    }
}

#[test]
fn a_request_that_cannot_be_prepared_is_answered_at_once() {
    let mut e = Execution::start(plan());
    match e.step(Event::NotPrepared(ProxyError::Translator("no".into()))) {
        Action::Refund(f) => {
            assert_eq!(f.error, ProxyError::Translator("no".into()));
            assert_eq!(f.attempted_keys, vec!["a"]);
            assert_eq!(f.upstream_status, None);
        }
        other => panic!("unexpected action {:?}", other),
    }
}

#[test]
fn a_success_is_settled() {
    let mut e = Execution::start(plan());
    assert_eq!(e.step(Event::Failed(upstream(500, ""))), Action::Proceed(KeyEffect::Cooldown));
    assert_eq!(e.step(Event::Succeeded), Action::Settle);
    let r = e.result(b"body".to_vec(), 200, 42);
    assert_eq!(r.body, b"body".to_vec());
    assert_eq!(r.channel_name, "ch-1");
    assert_eq!(r.key_label, None);
    assert_eq!(r.upstream_status, Some(200));
    assert_eq!(r.upstream_model_name, "up-1");
    assert_eq!(r.quota_cost, 42);
    assert_eq!(r.attempted_keys, vec!["a", "key-11"]);
}

#[test]
fn the_first_pricing_is_that_of_the_first_binding() {
    let e = Execution::start(plan());
    assert!(e.uses_first_pricing(&routed(1, 99, None)));
    assert!(!e.uses_first_pricing(&routed(3, 30, None)));
    let mut other = routed(1, 10, None);
    other.upstream_model_name = "else".into();
    assert!(!e.uses_first_pricing(&other));
    assert!(!Execution::start(vec![]).uses_first_pricing(&other));
}

#[test]
fn formats_and_labels() {
    assert_eq!(EntryFormat::OpenAI.provider(), ChannelProvider::OpenaiCompatible);
    assert_eq!(EntryFormat::Claude.provider(), ChannelProvider::Anthropic);
    assert_eq!(key_label(&routed(1, 7, None)), "key-7");
    assert_eq!(key_label(&routed(1, -7, None)), "key--7");
    assert_eq!(key_label(&routed(1, 7, Some("x"))), "x");
}

#[test]
fn an_execution_without_keys_has_nothing_to_try() {
    let e = Execution::start(vec![vec![], vec![]]);
    assert!(e.next_key().is_none());
    let fail = e.exhausted("m");
    assert!(fail.channel_name.is_none());
    assert!(matches!(fail.error, ProxyError::AllKeysExhausted { last_error: None, .. }));
}

#[test]
fn a_plan_is_charged_by_its_first_key() {
    let mut exec = make_executor();
    let body = r#"{"model": "m", "max_tokens": 30}"#;
    // the first key is that of channel 2, which has no pricing
    let plan = exec.plan(&ctx(7), EntryFormat::OpenAI, body, NOW).unwrap();
    assert_eq!(plan.candidates[0][0].key.id, 11);
    assert_eq!(plan.pricing, None);
    assert_eq!(plan.estimate, CostBasis::Free);
    // without it, that of channel 1
    exec.health.mark_disabled(11);
    let plan = exec.plan(&ctx(7), EntryFormat::OpenAI, body, NOW).unwrap();
    assert_eq!(plan.candidates[0][0].key.id, 10);
    assert!(plan.pricing.is_some());
    assert_eq!(plan.estimate, CostBasis::PerToken { prompt_tokens: 500, completion_tokens: 30 });
    // without both, there is nothing to try
    exec.health.mark_disabled(10);
    let fail = exec.plan(&ctx(7), EntryFormat::OpenAI, body, NOW).unwrap_err();
    assert_eq!(fail, ExecutionFailure::no_candidates("model-7"));
}

#[test]
fn keys_that_became_unavailable_are_passed_over() {
    let mut exec = make_executor();
    let mut e = Execution::start(plan());
    exec.health.mark_disabled(10);
    exec.health.mark_cooldown(11, "up-1", NOW);
    let rk = exec.next_attempt(&mut e, NOW).unwrap();
    assert_eq!(rk.key.id, 30);
    assert!(e.attempted().is_empty());
    assert_eq!(exec.next_step(&mut e, &ctx(7), NOW), Next::Try(rk));
    exec.health.mark_disabled(30);
    assert!(exec.next_attempt(&mut e, NOW).is_none());
    match exec.next_step(&mut e, &ctx(7), NOW) {
        Next::GiveUp(f) => {
            assert!(f.attempted_keys.is_empty());
            assert!(f.channel_name.is_none());
            assert!(matches!(f.error, ProxyError::AllKeysExhausted { .. }));
        }
        other => panic!("{:?}", other),
    }
    // a cooldown on another model does not matter
    let mut e = Execution::start(plan());
    exec.health.restore_disabled(&vec![10, 11, 30]);
    exec.health.mark_cooldown(10, "else", NOW);
    assert_eq!(exec.next_attempt(&mut e, NOW).unwrap().key.id, 10);
}

#[test]
fn failures_are_recorded_and_mark_the_key() {
    let mut exec = make_executor();
    let mut e = Execution::start(plan());
    let seen = exec.observe(&mut e, &ctx(7), Event::TimedOut(60), NOW);
    assert_eq!(seen.action, Action::Proceed(KeyEffect::Cooldown));
    let record = seen.record.unwrap();
    assert_eq!(record.error.as_deref(), Some("upstream timeout after 60s"));
    assert_eq!((record.user_id, record.token_id, record.model_id), (1, 10, 7));
    assert_eq!((record.channel_id, record.key_id), (1, 10));
    assert_eq!(record.status, "failed");
    assert_eq!(record.request_type, "chat");
    assert!(!exec.health.is_available(10, "up-1", NOW));

    let seen = exec.observe(&mut e, &ctx(7), Event::Failed(upstream(403, "no")), NOW);
    assert_eq!(seen.action, Action::Proceed(KeyEffect::Disable));
    assert_eq!(seen.record.unwrap().error.as_deref(), Some("upstream error: status 403, body: no"));
    assert!(!exec.health.is_available(11, "anything", NOW));

    let seen = exec.observe(&mut e, &ctx(7), Event::Failed(upstream(404, "")), NOW);
    assert_eq!(seen.action, Action::Proceed(KeyEffect::Keep));
    assert!(seen.record.is_some());
    assert!(exec.health.is_available(30, "up-3", NOW));
}

#[test]
fn what_is_no_failure_of_an_upstream_is_not_recorded() {
    let mut exec = make_executor();
    let mut e = Execution::start(plan());
    assert!(exec.observe(&mut e, &ctx(7), Event::Unavailable, NOW).record.is_none());
    let seen = exec.observe(&mut e, &ctx(7), Event::Succeeded, NOW);
    assert_eq!(seen.action, Action::Settle);
    assert!(seen.record.is_none());
    let seen = exec.observe(&mut e, &ctx(7), Event::NotPrepared(ProxyError::Translator("t".into())), NOW);
    assert!(matches!(seen.action, Action::Refund(_)));
    assert!(seen.record.is_none());
}

#[test]
fn a_request_is_charged_by_the_binding_that_served_it() {
    let exec = make_executor();
    let body = r#"{"model": "m"}"#;
    let plan = exec.plan(&ctx(7), EntryFormat::OpenAI, body, NOW).unwrap();
    let first = plan.pricing;
    let a = plan.candidates[1][0].clone();
    let b = plan.candidates[0][0].clone();
    let e = Execution::start(plan.candidates);
    assert_eq!(exec.pricing_of(&ctx(7), &e, &first, &b), None);
    assert_eq!(
        exec.pricing_of(&ctx(7), &e, &first, &a),
        exec.cache.get_channel_model_pricing(7, 1, "up-a")
    );
    let response = br#"{"usage": {"prompt_tokens": 3, "completion_tokens": 4, "total_tokens": 7}}"#;
    let (usage, basis) = exec.measure(&ctx(7), &e, &first, &a, response).unwrap();
    assert_eq!(usage.total_tokens, 7);
    assert_eq!(basis, CostBasis::PerToken { prompt_tokens: 3, completion_tokens: 4 });
    let (_, basis) = exec.measure(&ctx(7), &e, &first, &b, response).unwrap();
    assert_eq!(basis, CostBasis::Free);
}

#[test]
fn a_served_request_is_counted_for_its_key() {
    let mut exec = make_executor();
    let usage = Usage { prompt_tokens: 3, completion_tokens: 4, total_tokens: 7 };
    let stored = exec.track(&ctx(7), &routed(1, 10, None), &usage, 5);
    assert_eq!(stored.key_tokens, 7);
    assert_eq!(stored.record.quota_cost, 5);
    assert_eq!(stored.record.status, "success");
    assert_eq!((stored.record.channel_id, stored.record.key_id), (1, 10));
    assert_eq!(exec.health.get_state(10).unwrap().used_quota_this_period, 7);
}
