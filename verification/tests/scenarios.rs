//! Whole requests: admission, routing, charging, execution and tracking together.
use chennix::adaptor::OpenaiAdaptor;
use chennix::auth::extract_bearer;
use chennix::billing::{BillingManager, Ledger, TokenAccount, UserAccount};
use chennix::cache::{Binding, CacheData, ConfigCache};
use chennix::error::ProxyError;
use chennix::executor::{Action, Event, Execution, ExecutionFailure, Executor, KeyEffect};
use chennix::health::HealthManager;
use chennix::normalizer::Normalizer;
use chennix::pricing::{actual_basis, estimate_basis, CostBasis};
use chennix::proxy::{proxy_request, StreamUsage};
use chennix::request::usage_of_response;
use chennix::router::RoutedKey;
use chennix::snapshot::{alias_mapping, BindingRow};
use chennix::tracker::{TrackedRequest, Tracker, UsageRecord};
use chennix::types::{
    AuthContext, BillingType, ChannelConfig, ChannelModelPricing, ChannelProvider, CostTier, KeyConfig,
    KeyStatus, Price, TokenConfig, Usage, UserConfig, QUOTA_PER_YUAN,
};

const NOW: i64 = 1_710_504_000_000;
const USER1_ID: i64 = 1;
const USER2_ID: i64 = 2;
const TOKEN1_ID: i64 = 1;
const CHANNEL1_ID: i64 = 1;
const CHANNEL2_ID: i64 = 2;
const KEY1_ID: i64 = 1;
const KEY2_ID: i64 = 2;

struct Env {
    executor: Executor,
    ledger: Ledger,
    users: Vec<UserConfig>,
    tokens: Vec<TokenConfig>,
    usage_logs: Vec<UsageRecord>,
}

fn setup() -> Env {
    let user = |id: i64, group: &str| UserConfig {
        id,
        username: format!("user{}", id),
        role: 1,
        status: 1,
        quota: 10_000_000_000,
        used_quota: 0,
        group: group.into(),
    };
    let token = |id: i64| TokenConfig {
        id,
        user_id: id,
        key: format!("sk-token{}", id),
        name: None,
        remain_quota: 5_000_000_000,
        used_quota: 0,
        unlimited_quota: false,
        expired_time: -1,
        model_limits_enabled: false,
        model_limits: None,
        status: 1,
        allow_ips: None,
    };
    let key = |id: i64, channel_id: i64, cost_tier: CostTier| KeyConfig {
        id,
        channel_id,
        api_key: format!("sk-up-key{}", id),
        label: Some(format!("key{}", id)),
        cost_tier,
        key_priority: 100,
        price_per_1k_tokens: Some(Price { bits: 0.01f64.to_bits() }),
        free_quota: Some(1000),
        used_quota: 0,
        quota_reset_period: None,
        status: KeyStatus::Active,
    };
    let row = |channel_id: i64, name: &str| BindingRow {
        binding: Binding { channel_id, upstream_model_name: name.into(), priority: 100, weight: 1 },
        pricing: Some(ChannelModelPricing {
            billing_type: BillingType::Token,
            input_price: Price { bits: 0.01f64.to_bits() },
            output_price: Price { bits: 0.01f64.to_bits() },
            call_price: Price { bits: 0 },
            billing_expr: None,
        }),
    };

    let mut data = CacheData::with_channels(vec![
        ChannelConfig {
            id: CHANNEL1_ID,
            name: "ch-openai".into(),
            provider: ChannelProvider::OpenaiCompatible,
            base_url: "http://openai".into(),
            group: "default".into(),
        },
        ChannelConfig {
            id: CHANNEL2_ID,
            name: "ch-anthropic".into(),
            provider: ChannelProvider::Anthropic,
            base_url: "http://anthropic".into(),
            group: "premium".into(),
        },
    ]);
    data.add_keys(1, vec![key(1, 1, CostTier::Free), key(2, 1, CostTier::Paid)]);
    data.add_keys(2, vec![key(3, 2, CostTier::Free), key(4, 2, CostTier::Paid)]);
    data.add_model(1, "priority", vec![row(1, "gpt-4o"), row(2, "gpt-4o")]);
    data.add_model(2, "priority", vec![row(2, "3-5-sonnet")]);
    let mut cache = ConfigCache::new(Normalizer::new());
    cache.store(data, alias_mapping(vec![(1, "gpt-4o".into()), (2, "3-5-sonnet".into())]));

    let mut ledger = Ledger::new();
    for id in [1, 2] {
        ledger.users.insert(id, UserAccount { quota: 10_000_000_000, used_quota: 0 });
        ledger.tokens.insert(
            id,
            TokenAccount {
                remain_quota: 5_000_000_000,
                used_quota: 0,
                unlimited_quota: false,
                status: 1,
            },
        );
    }
    Env {
        executor: Executor::new(HealthManager::new(), cache, 60, 300),
        ledger,
        users: vec![user(1, "default"), user(2, "premium")],
        tokens: vec![token(1), token(2)],
        usage_logs: Vec::new(),
    }
}

fn cost(basis: CostBasis, pricing: Option<&ChannelModelPricing>) -> i64 {
    match basis {
        CostBasis::PerToken { prompt_tokens, completion_tokens } => {
            let p = pricing.unwrap();
            let yuan = prompt_tokens as f64 / 1000.0 * f64::from_bits(p.input_price.bits)
                + completion_tokens as f64 / 1000.0 * f64::from_bits(p.output_price.bits);
            (yuan * QUOTA_PER_YUAN as f64).round() as i64
        }
        _ => 0,
    }
}

fn chat_body(model: &str) -> String {
    format!("{{\"model\":\"{}\",\"messages\":[{{\"role\":\"user\",\"content\":\"Hello\"}}],\"max_tokens\":10}}", model)
}

/// Serves a request; the upstream answers with a body or an error. Gives the channel that served
/// the request and what it answered.
fn send(
    env: &mut Env,
    bearer: &str,
    body: &str,
    upstream: &dyn Fn(&RoutedKey) -> Result<String, ProxyError>,
) -> Result<(i64, String), ProxyError> {
    let header = format!("Bearer {}", bearer);
    let secret = extract_bearer(Some(&header)).ok_or(ProxyError::ClientAuthFailed)?;
    let token = env.tokens.iter().find(|t| t.key == secret).cloned();
    let token = token.ok_or(ProxyError::ClientAuthFailed)?;
    let user = env.users.iter().find(|u| u.id == token.user_id).unwrap().clone();
    let auth = AuthContext { user, token, client_ip: None };
    let admission = proxy_request(body, &auth, env.executor.cache.normalizer()).map_err(|r| r.error)?;
    let ctx = admission.context;

    let groups = env.executor.select_keys(&ctx, NOW);
    if groups.is_empty() {
        return Err(ExecutionFailure::no_candidates(&ctx.canonical_name).error);
    }
    let first = &groups[0][0];
    let pricing = env.executor.cache.get_channel_model_pricing(
        ctx.model_id,
        first.channel.id,
        &first.upstream_model_name,
    );
    let estimate = cost(estimate_basis(pricing.as_ref(), None), pricing.as_ref());
    let mut session = BillingManager::pre_charge(&mut env.ledger, ctx.user_id, ctx.token_id, estimate)?;
    let mut execution = Execution::start(groups);
    while let Some(rk) = execution.next_key() {
        let rk = rk.clone();
        match upstream(&rk) {
            Ok(answer) => {
                assert_eq!(execution.step(Event::Succeeded), Action::Settle);
                let usage = usage_of_response(answer.as_bytes(), rk.channel.provider).unwrap();
                let actual = cost(actual_basis(&usage, pricing.as_ref()), pricing.as_ref());
                BillingManager::settle(&mut env.ledger, &mut session, actual)?;
                let request = TrackedRequest {
                    user_id: ctx.user_id,
                    token_id: ctx.token_id,
                    channel_id: rk.channel.id,
                    key_id: rk.key.id,
                    model_id: ctx.model_id,
                };
                let executor = &mut env.executor;
                let stored = Tracker::track_success(
                    &mut executor.health,
                    &mut executor.cache,
                    request,
                    &rk.upstream_model_name,
                    &usage,
                    actual,
                    "chat",
                );
                env.usage_logs.push(stored.record);
                return Ok((rk.channel.id, answer));
            }
            Err(e) => match execution.step(Event::Failed(e)) {
                Action::Proceed(KeyEffect::Cooldown) => {
                    env.executor.health.mark_cooldown(rk.key.id, &rk.upstream_model_name, NOW)
                }
                Action::Proceed(KeyEffect::Disable) => env.executor.health.mark_disabled(rk.key.id),
                Action::Proceed(KeyEffect::Keep) => {}
                Action::Refund(failure) => {
                    BillingManager::refund(&mut env.ledger, session);
                    return Err(failure.error);
                }
                Action::Settle => unreachable!(),
            },
        }
    }
    BillingManager::refund(&mut env.ledger, session);
    Err(execution.exhausted(&ctx.canonical_name).error)
}

fn answer(provider: ChannelProvider, prompt: u64, completion: u64) -> String {
    match provider {
        ChannelProvider::OpenaiCompatible => format!(
            "{{\"usage\":{{\"prompt_tokens\":{},\"completion_tokens\":{},\"total_tokens\":{}}}}}",
            prompt,
            completion,
            prompt + completion
        ),
        ChannelProvider::Anthropic => format!(
            "{{\"usage\":{{\"input_tokens\":{},\"output_tokens\":{}}}}}",
            prompt, completion
        ),
    }
}

#[test]
fn test_scenario_1_multi_user() {
    let mut env = setup();
    let ok = |rk: &RoutedKey| Ok(answer(rk.channel.provider, 100, 50));
    send(&mut env, "sk-token1", &chat_body("gpt-4o"), &ok).expect("token1 request should succeed");
    send(&mut env, "sk-token2", &chat_body("gpt-4o"), &ok).expect("token2 request should succeed");

    assert_eq!(env.usage_logs.len(), 2, "two usage_log rows should exist");
    let user_ids: Vec<i64> = env.usage_logs.iter().map(|r| r.user_id).collect();
    assert!(user_ids.contains(&USER1_ID));
    assert!(user_ids.contains(&USER2_ID));
}

#[test]
fn test_scenario_2_dual_layer_billing() {
    let mut env = setup();
    let ok = |rk: &RoutedKey| Ok(answer(rk.channel.provider, 100_000, 50_000));
    send(&mut env, "sk-token1", &chat_body("gpt-4o"), &ok).expect("request should succeed");

    // net after pre-charge and settlement
    assert_eq!(env.ledger.users.get(&USER1_ID).unwrap().used_quota, 1_500_000);
    let token = env.ledger.tokens.get(&TOKEN1_ID).unwrap();
    assert_eq!(token.remain_quota, 4_998_500_000);
    assert_eq!(token.used_quota, 1_500_000);
    assert_eq!(env.usage_logs.len(), 1);
    assert_eq!(env.usage_logs[0].quota_cost, 1_500_000);
}

#[test]
fn test_scenario_3_group_routing() {
    let mut env = setup();
    let ok = |rk: &RoutedKey| Ok(answer(rk.channel.provider, 100, 50));
    // token1 (default group) goes to channel1, token2 (premium group) to channel2
    let (channel1, _) = send(&mut env, "sk-token1", &chat_body("gpt-4o"), &ok).unwrap();
    let (channel2, _) = send(&mut env, "sk-token2", &chat_body("gpt-4o"), &ok).unwrap();
    assert_eq!(channel1, CHANNEL1_ID);
    assert_eq!(channel2, CHANNEL2_ID);
    let channel_ids: Vec<i64> = env.usage_logs.iter().map(|r| r.channel_id).collect();
    assert_eq!(channel_ids, vec![CHANNEL1_ID, CHANNEL2_ID]);
}

#[test]
fn test_scenario_4_token_model_limits() {
    let mut env = setup();
    env.tokens[0].model_limits_enabled = true;
    env.tokens[0].model_limits = Some(vec!["gpt-4o".into()]);
    let ok = |rk: &RoutedKey| Ok(answer(rk.channel.provider, 100, 50));
    assert!(send(&mut env, "sk-token1", &chat_body("gpt-4o"), &ok).is_ok());
    let e = send(&mut env, "sk-token1", &chat_body("3-5-sonnet"), &ok).unwrap_err();
    assert_eq!(e.http_status(), 400);
    assert!(e.message().contains("3-5-sonnet"), "the error should mention the model");
}

#[test]
fn test_scenario_5a_user_quota_exhausted() {
    let mut env = setup();
    env.ledger.users.insert(USER1_ID, UserAccount { quota: 0, used_quota: 0 });
    let ok = |rk: &RoutedKey| Ok(answer(rk.channel.provider, 100, 50));
    let e = send(&mut env, "sk-token1", &chat_body("gpt-4o"), &ok).unwrap_err();
    assert_eq!(e.http_status(), 500);
    assert_eq!(e.error_type_name(), "config_error");
    assert_eq!(env.usage_logs.len(), 0, "no usage log on quota failure");
}

#[test]
fn test_scenario_5b_token_quota_exhausted() {
    let mut env = setup();
    env.ledger.tokens.insert(
        TOKEN1_ID,
        TokenAccount { remain_quota: 0, used_quota: 0, unlimited_quota: false, status: 1 },
    );
    let ok = |rk: &RoutedKey| Ok(answer(rk.channel.provider, 100, 50));
    let e = send(&mut env, "sk-token1", &chat_body("gpt-4o"), &ok).unwrap_err();
    assert_eq!(e.http_status(), 500);
    assert_eq!(e.error_type_name(), "config_error");
    assert_eq!(env.usage_logs.len(), 0, "no usage log on quota failure");
}

#[test]
fn test_scenario_7_streaming_sse() {
    let chunks = [
        "data: {\"id\":\"chat-1\",\"object\":\"chat.completion.chunk\",\"choices\":[{\"index\":0,\"delta\":{\"role\":\"assistant\",\"content\":\"Hello\"}}]}\n\n",
        "data: {\"id\":\"chat-1\",\"object\":\"chat.completion.chunk\",\"choices\":[{\"index\":0,\"delta\":{\"content\":\" world\"}}]}\n\n",
        "data: {\"id\":\"chat-1\",\"object\":\"chat.completion.chunk\",\"choices\":[],\"usage\":{\"prompt_tokens\":100000,\"completion_tokens\":50000,\"total_tokens\":150000}}\n\n",
        "data: [DONE]\n\n",
    ];
    let mut usage = StreamUsage::new();
    for chunk in chunks {
        assert!(usage.absorb(OpenaiAdaptor::new().extract_usage(chunk.as_bytes())));
    }
    assert_eq!(
        usage.total,
        Usage { prompt_tokens: 100_000, completion_tokens: 50_000, total_tokens: 150_000 }
    );
    let mut env = setup();
    let mut session = BillingManager::pre_charge(&mut env.ledger, USER1_ID, TOKEN1_ID, 10_000).unwrap();
    let pricing = env.executor.cache.get_channel_model_pricing(1, CHANNEL1_ID, "gpt-4o");
    let actual = cost(actual_basis(&usage.total, pricing.as_ref()), pricing.as_ref());
    BillingManager::settle(&mut env.ledger, &mut session, actual).unwrap();
    assert_eq!(env.ledger.users.get(&USER1_ID).unwrap().used_quota, 1_500_000);
}

#[test]
fn test_scenario_8_key_retry_on_429() {
    let mut env = setup();
    let upstream = |rk: &RoutedKey| {
        if rk.key.api_key == "sk-up-key1" {
            Err(ProxyError::Upstream { status: 429, body: "slow down".into() })
        } else {
            Ok(answer(rk.channel.provider, 100, 50))
        }
    };
    send(&mut env, "sk-token1", &chat_body("gpt-4o"), &upstream)
        .expect("request should succeed after retrying with key2");
    // key1 is cooling down for the model, key2 is not
    assert!(!env.executor.health.is_available(KEY1_ID, "gpt-4o", NOW));
    assert!(env.executor.health.is_available(KEY2_ID, "gpt-4o", NOW));
    assert_eq!(env.usage_logs.len(), 1);
    assert_eq!(env.usage_logs[0].key_id, KEY2_ID);
}

#[test]
fn a_failed_request_costs_nothing() {
    let mut env = setup();
    let down = |_: &RoutedKey| Err(ProxyError::Upstream { status: 500, body: "down".into() });
    let e = send(&mut env, "sk-token1", &chat_body("gpt-4o"), &down).unwrap_err();
    assert!(matches!(e, ProxyError::AllKeysExhausted { .. }));
    assert_eq!(env.ledger.users.get(&USER1_ID).unwrap().used_quota, 0);
    assert_eq!(env.ledger.tokens.get(&TOKEN1_ID).unwrap().remain_quota, 5_000_000_000);
    // both keys are cooling down: the next request finds none
    let e = send(&mut env, "sk-token1", &chat_body("gpt-4o"), &down).unwrap_err();
    assert!(matches!(e, ProxyError::AllKeysExhausted { last_error: None, .. }));
}

#[test]
fn an_unknown_bearer_is_refused() {
    let mut env = setup();
    let ok = |rk: &RoutedKey| Ok(answer(rk.channel.provider, 1, 1));
    let e = send(&mut env, "sk-else", &chat_body("gpt-4o"), &ok).unwrap_err();
    assert_eq!(e, ProxyError::ClientAuthFailed);
}
