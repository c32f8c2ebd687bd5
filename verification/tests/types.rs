use chennix::types::{
    default_binding_priority, default_binding_weight, default_group, BillingType, ChannelModelPricing,
    ChannelProvider, KeyStatus, Price, TokenConfig, Usage, UserConfig, QUOTA_PER_YUAN,
};

#[test]
fn test_status_available() {
    assert!(KeyStatus::Active.is_available());
    assert!(!KeyStatus::Cooldown.is_available());
}

#[test]
fn test_usage_add() {
    let mut a = Usage { prompt_tokens: 10, completion_tokens: 5, total_tokens: 15 };
    a.add(&Usage { prompt_tokens: 20, completion_tokens: 10, total_tokens: 30 });
    assert_eq!(a.total_tokens, 45);
}

#[test]
fn test_provider_display() {
    assert_eq!(ChannelProvider::OpenaiCompatible.as_str().to_string(), "openai-compatible");
}

#[test]
fn test_user_config_helpers() {
    let admin = UserConfig {
        id: 1, username: "a".into(), role: 100, status: 1,
        quota: 100, used_quota: 30, group: "default".into(),
    };
    assert!(admin.is_admin());
    assert!(admin.is_enabled());
    assert_eq!(admin.remaining_quota(), 70);

    let disabled = UserConfig { role: 1, status: 2, ..admin };
    assert!(!disabled.is_admin());
    assert!(!disabled.is_enabled());
}

#[test]
fn test_token_config_helpers() {
    let mut t = TokenConfig {
        id: 1, user_id: 1, key: "k".into(), name: None,
        remain_quota: 0, used_quota: 0, unlimited_quota: false,
        expired_time: -1, model_limits_enabled: false,
        model_limits: None, status: 1, allow_ips: None,
    };
    // never expires
    assert!(!t.is_expired(9_999_999_999));
    // expires in past
    t.expired_time = 1;
    assert!(t.is_expired(2));
    assert!(!t.is_expired(0));

    // model limits disabled: all allowed
    assert!(t.allows_model("anything"));

    // enable limits
    t.model_limits_enabled = true;
    t.model_limits = Some(vec!["gpt-4".into()]);
    assert!(t.allows_model("gpt-4"));
    assert!(!t.allows_model("sonnet"));

    // empty limits list when enabled: nothing allowed
    t.model_limits = Some(vec![]);
    assert!(!t.allows_model("gpt-4"));

    // ip whitelist
    t.allow_ips = Some(vec!["10.0.0.1".into(), "10.0.0.2".into()]);
    assert!(t.allows_ip("10.0.0.1"));
    assert!(!t.allows_ip("10.0.0.3"));

    // no whitelist: allow all
    t.allow_ips = None;
    assert!(t.allows_ip("anything"));
}

#[test]
fn a_token_without_a_list_may_use_any_model() {
    let t = TokenConfig {
        id: 1, user_id: 1, key: "k".into(), name: None,
        remain_quota: 0, used_quota: 0, unlimited_quota: false,
        expired_time: 5, model_limits_enabled: true,
        model_limits: None, status: 2, allow_ips: Some(vec![]),
    };
    assert!(t.allows_model("gpt-4"));
    assert!(!t.allows_ip("10.0.0.1"));
    assert!(!t.is_enabled());
    assert!(!t.is_expired(4));
    assert!(t.is_expired(5));
}

#[test]
fn an_admin_has_a_role_of_ten_or_more() {
    let u = UserConfig {
        id: 1, username: "a".into(), role: 10, status: 1,
        quota: 0, used_quota: 5, group: "default".into(),
    };
    assert!(u.is_admin());
    assert_eq!(u.remaining_quota(), -5);
    let v = UserConfig { role: 9, ..u };
    assert!(!v.is_admin());
}

#[test]
fn billing_types_and_numbers() {
    for n in 0..3 {
        assert_eq!(i32::from(BillingType::from(n)), n);
    }
    assert_eq!(BillingType::from(7), BillingType::Token);
    assert_eq!(i32::from(BillingType::PerCall), 1);
    assert_eq!(i32::from(BillingType::Expression), 2);
}

#[test]
fn prices_above_zero_are_positive() {
    let price = |v: f64| Price { bits: v.to_bits() };
    assert!(price(0.01).is_positive());
    assert!(price(f64::INFINITY).is_positive());
    assert!(price(f64::MIN_POSITIVE / 2.0).is_positive());
    assert!(!price(0.0).is_positive());
    assert!(!price(-0.0).is_positive());
    assert!(!price(-1.0).is_positive());
    assert!(!price(f64::NAN).is_positive());
    assert!(!price(-f64::NAN).is_positive());
}

#[test]
fn pricing_is_configured_by_what_its_type_reads() {
    let p = ChannelModelPricing::default();
    assert!(!p.is_configured());
    let one = Price { bits: 1.0f64.to_bits() };
    assert!(ChannelModelPricing { output_price: one, ..p.clone() }.is_configured());
    assert!(!ChannelModelPricing { call_price: one, ..p.clone() }.is_configured());
    let per_call = ChannelModelPricing {
        billing_type: BillingType::PerCall,
        call_price: one,
        ..p.clone()
    };
    assert!(per_call.is_configured());
    let expr = |e: Option<&str>| ChannelModelPricing {
        billing_type: BillingType::Expression,
        billing_expr: e.map(|s| s.to_string()),
        ..ChannelModelPricing::default()
    };
    assert!(!expr(None).is_configured());
    assert!(!expr(Some(" \t")).is_configured());
    assert!(expr(Some("p")).is_configured());
}

#[test]
fn defaults_of_channels_and_bindings() {
    assert_eq!(default_group(), "default");
    assert_eq!(default_binding_priority(), 100);
    assert_eq!(default_binding_weight(), 1);
    assert_eq!(QUOTA_PER_YUAN, 1_000_000);
    assert_eq!(ChannelProvider::Anthropic.as_str(), "anthropic");
}
