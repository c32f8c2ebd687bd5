use chennix::cache::{CacheData, ConfigCache, QuotaState, QuotaStatus, QuotaUnit, QuotaWindow};
use chennix::health::HealthManager;
use chennix::normalizer::Normalizer;
use chennix::tracker::{QuotaWrite, TrackedRequest, TrackedSuccess, Tracker};
use chennix::types::Usage;

fn make_cache_with_quota(state: QuotaState) -> ConfigCache {
    let mut data = CacheData::with_channels(vec![]);
    data.small_model_quota.insert((100, "up-x".to_string()), state);
    let mut cache = ConfigCache::new(Normalizer::new());
    cache.store(data, vec![]);
    cache
}

fn empty_cache() -> ConfigCache {
    ConfigCache::new(Normalizer::new())
}

fn usage(p: u64, c: u64) -> Usage {
    Usage { prompt_tokens: p, completion_tokens: c, total_tokens: p + c }
}

fn request() -> TrackedRequest {
    TrackedRequest { user_id: 1, token_id: 10, channel_id: 100, key_id: 1000, model_id: 7 }
}

fn track(cache: &mut ConfigCache, upstream: &str, u: &Usage, cost: i64) -> TrackedSuccess {
    let mut health = HealthManager::new();
    Tracker::track_success(&mut health, cache, request(), upstream, u, cost, "chat")
}

#[test]
fn test_track_success_logs_and_bumps_counters() {
    let mut health = HealthManager::new();
    let mut cache = empty_cache();
    let u = usage(100, 50);

    let stored =
        Tracker::track_success(&mut health, &mut cache, request(), "up-x", &u, 30, "chat");

    // an empty cache means no small-model bump
    assert!(stored.quota.is_none());
    assert_eq!(stored.record.user_id, 1);
    assert_eq!(stored.record.token_id, 10);
    assert_eq!(stored.record.channel_id, 100);
    assert_eq!(stored.record.key_id, 1000);
    assert_eq!(stored.record.model_id, 7);
    assert_eq!(stored.record.usage, u);
    assert_eq!(stored.record.quota_cost, 30);
    assert_eq!(stored.record.request_type, "chat");
    assert_eq!(stored.record.status, "success");
    assert!(stored.record.error.is_none());
    assert_eq!(stored.key_tokens, 150);

    // in-memory health counter also bumped
    let s = health.get_state(1000).unwrap();
    assert_eq!(s.used_quota_this_period, 150);
}

#[test]
fn test_track_failure_logs_without_bumping_counters() {
    let health = HealthManager::new();

    let record = Tracker::track_failure(request(), "chat", "upstream 503: gateway error");
    assert_eq!(record.status, "failed");
    assert_eq!(record.error.as_deref(), Some("upstream 503: gateway error"));
    assert_eq!(record.quota_cost, 0);
    assert_eq!(record.usage.total_tokens, 0);

    // health counter must NOT have been bumped
    assert!(health.get_state(1000).is_none());
}

#[test]
fn test_track_success_accumulates_token_quota() {
    let mut cache = make_cache_with_quota(QuotaState {
        limit: Some(1_000_000),
        unit: Some(QuotaUnit::Token),
        window: Some(QuotaWindow::Month),
        used: 400,
        last_reset_at: None,
        status: QuotaStatus::Available,
    });
    let u = usage(100, 50); // total_tokens = 150

    let stored = track(&mut cache, "up-x", &u, 30);

    // the small-model bump: delta=150, still available
    assert_eq!(stored.record.channel_id, 100);
    assert_eq!(stored.quota, Some(QuotaWrite { delta: 150, status: QuotaStatus::Available }));
    assert_eq!(stored.quota.unwrap().status.as_db_str(), "available");

    // Cache was incrementally updated (used 400 + 150 = 550).
    let q = cache.get_small_model_quota(100, "up-x").unwrap();
    assert_eq!(q.used, 550);
    assert_eq!(q.status, QuotaStatus::Available);
}

#[test]
fn test_track_success_accumulates_call_quota() {
    let mut cache = make_cache_with_quota(QuotaState {
        limit: Some(100),
        unit: Some(QuotaUnit::Call),
        window: Some(QuotaWindow::Day),
        used: 3,
        last_reset_at: None,
        status: QuotaStatus::Available,
    });
    // Even with zero tokens, call mode counts one request.
    let u = usage(0, 0);

    let stored = track(&mut cache, "up-x", &u, 0);
    assert_eq!(stored.quota, Some(QuotaWrite { delta: 1, status: QuotaStatus::Available }));
    let q = cache.get_small_model_quota(100, "up-x").unwrap();
    assert_eq!(q.used, 4);
    assert_eq!(q.status, QuotaStatus::Available);
}

#[test]
fn test_track_success_marks_exhausted_at_limit() {
    let mut cache = make_cache_with_quota(QuotaState {
        limit: Some(500),
        unit: Some(QuotaUnit::Token),
        window: Some(QuotaWindow::Total),
        used: 400,
        last_reset_at: None,
        status: QuotaStatus::Available,
    });
    let u = usage(200, 100); // total_tokens = 300: 400 + 300 = 700 >= 500

    let stored = track(&mut cache, "up-x", &u, 30);
    assert_eq!(stored.quota, Some(QuotaWrite { delta: 300, status: QuotaStatus::Exhausted }));
    assert_eq!(stored.quota.unwrap().status.as_db_str(), "exhausted");
    let q = cache.get_small_model_quota(100, "up-x").unwrap();
    assert_eq!(q.used, 700);
    assert_eq!(q.status, QuotaStatus::Exhausted);
}

#[test]
fn test_track_success_skips_when_unlimited() {
    // quota_limit = None: unlimited, skip.
    let mut cache = make_cache_with_quota(QuotaState {
        limit: None,
        unit: Some(QuotaUnit::Token),
        window: None,
        used: 0,
        last_reset_at: None,
        status: QuotaStatus::Available,
    });
    let u = usage(100, 50);

    let stored = track(&mut cache, "up-x", &u, 30);
    assert!(stored.quota.is_none());
    // Cache state untouched.
    let q = cache.get_small_model_quota(100, "up-x").unwrap();
    assert_eq!(q.used, 0);
    assert_eq!(q.status, QuotaStatus::Available);
}

#[test]
fn test_track_success_skips_token_mode_zero_usage() {
    let mut cache = make_cache_with_quota(QuotaState {
        limit: Some(1_000_000),
        unit: Some(QuotaUnit::Token),
        window: Some(QuotaWindow::Month),
        used: 100,
        last_reset_at: None,
        status: QuotaStatus::Available,
    });
    // No usage info from upstream: total_tokens == 0, skip silently.
    let u = usage(0, 0);

    let stored = track(&mut cache, "up-x", &u, 0);
    assert!(stored.quota.is_none(), "no small-model bump when total_tokens == 0");
    let q = cache.get_small_model_quota(100, "up-x").unwrap();
    assert_eq!(q.used, 100, "used unchanged");
}

#[test]
fn test_track_success_skips_unknown_upstream() {
    // Cache has an entry for "up-x", but the request used "other-up".
    let mut cache = make_cache_with_quota(QuotaState {
        limit: Some(1_000_000),
        unit: Some(QuotaUnit::Token),
        window: Some(QuotaWindow::Month),
        used: 0,
        last_reset_at: None,
        status: QuotaStatus::Available,
    });
    let u = usage(100, 50);

    let stored = track(&mut cache, "other-up", &u, 30);
    // No entry for "other-up": skip.
    assert!(stored.quota.is_none());
}

#[test]
fn test_usage_writer_log_usage() {
    let u = Usage { prompt_tokens: 10, completion_tokens: 5, total_tokens: 15 };
    let request = TrackedRequest { user_id: 1, token_id: 1, channel_id: 1, key_id: 10, model_id: 1 };
    let mut health = HealthManager::new();
    let stored =
        Tracker::track_success(&mut health, &mut empty_cache(), request, "u", &u, 30, "chat");
    assert_eq!(stored.record.key_id, 10);
    assert_eq!(stored.record.usage, u);
    assert_eq!(stored.record.quota_cost, 30);
    assert_eq!(stored.record.status, "success");
}

#[test]
fn test_usage_writer_add_key_usage() {
    let mut health = HealthManager::new();
    health.add_usage(10, 42);
    assert_eq!(health.get_state(10).unwrap().used_quota_this_period, 42);
}

#[test]
fn a_quota_saturates_and_stays_exhausted() {
    let mut cache = make_cache_with_quota(QuotaState {
        limit: Some(5),
        unit: Some(QuotaUnit::Call),
        window: Some(QuotaWindow::Total),
        used: i64::MAX,
        last_reset_at: None,
        status: QuotaStatus::Exhausted,
    });
    let stored = track(&mut cache, "up-x", &usage(1, 1), 0);
    assert_eq!(stored.quota, Some(QuotaWrite { delta: 1, status: QuotaStatus::Exhausted }));
    assert_eq!(cache.get_small_model_quota(100, "up-x").unwrap().used, i64::MAX);
}

#[test]
fn a_quota_without_a_unit_counts_nothing() {
    let mut cache = make_cache_with_quota(QuotaState {
        limit: Some(5),
        unit: None,
        window: None,
        used: 1,
        last_reset_at: None,
        status: QuotaStatus::Available,
    });
    assert!(track(&mut cache, "up-x", &usage(1, 1), 0).quota.is_none());
}
