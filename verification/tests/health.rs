use chennix::cache::{CacheData, ConfigCache, QuotaState, QuotaStatus, QuotaWindow};
use chennix::clock::{in_different_periods, parse_db_datetime, period_rolled};
use chennix::health::{HealthManager, SmallModelRow, MAX_COOLDOWN_SECS};
use chennix::normalizer::Normalizer;
use chennix::types::KeyStatus;

/// Noon of the 15th of March 2024.
const NOW: i64 = 1_710_504_000_000;

const DAY: i64 = 24 * 3600 * 1000;

fn until(h: &HealthManager, key_id: i64, model: &str) -> i64 {
    let s = h.get_state(key_id).unwrap();
    s.cooldowns.get(&model.to_string()).unwrap().cooldown_until.unwrap()
}

#[test]
fn test_mark_cooldown_sets_per_model_window() {
    let mut h = HealthManager::new();
    assert!(h.is_available(1, "model-a", NOW));

    h.mark_cooldown(1, "model-a", NOW);
    let s = h.get_state(1).unwrap();
    // the status stays Active: the cooldown is that of (key, "model-a") alone
    assert_eq!(s.status, KeyStatus::Active);
    let entry = s.cooldowns.get(&"model-a".to_string()).expect("cooldown entry for model-a");
    assert!(entry.cooldown_until.is_some());
    assert_eq!(entry.consecutive_failures, 1);
    assert!(!h.is_available(1, "model-a", NOW));
}

#[test]
fn test_cooldown_isolated_per_upstream_model() {
    let mut h = HealthManager::new();

    assert!(h.is_available(1, "deepseek-chat", NOW));
    assert!(h.is_available(1, "gemini-flash", NOW));

    h.mark_cooldown(1, "deepseek-chat", NOW);

    assert!(!h.is_available(1, "deepseek-chat", NOW), "deepseek-chat should be in cooldown");
    assert!(h.is_available(1, "gemini-flash", NOW), "gemini-flash must remain available");

    let s = h.get_state(1).unwrap();
    assert_eq!(s.status, KeyStatus::Active);
    assert_eq!(s.cooldowns.entries().len(), 1);
    assert!(s.cooldowns.get(&"deepseek-chat".to_string()).is_some());
    assert!(s.cooldowns.get(&"gemini-flash".to_string()).is_none());
}

#[test]
fn test_cooldown_expired_zero_latency_recovery() {
    let mut h = HealthManager::new();
    for _ in 0..3 {
        h.mark_cooldown(1, "model-a", NOW - 9_000);
    }
    // the cooldown of eight seconds ended a second ago
    assert_eq!(until(&h, 1, "model-a"), NOW - 1_000);
    assert!(h.is_available(1, "model-a", NOW), "expired cooldown should be available");

    // the entry is still there, but does not count
    let s = h.get_state(1).unwrap();
    let entry = s.cooldowns.get(&"model-a".to_string()).expect("entry not yet cleaned");
    assert_eq!(entry.consecutive_failures, 3);
}

#[test]
fn test_cooldown_not_yet_expired_unavailable() {
    let mut h = HealthManager::new();
    h.mark_cooldown(1, "model-a", NOW); // at least 2 seconds
    assert!(!h.is_available(1, "model-a", NOW), "active cooldown should be unavailable");
}

#[test]
fn test_exponential_backoff_grows_then_caps() {
    let mut h = HealthManager::new();
    // Track the cooldown window after each failure.
    let mut windows: Vec<i64> = Vec::new();
    for _ in 0..12 {
        h.mark_cooldown(1, "model-a", NOW);
        windows.push((until(&h, 1, "model-a") - NOW) / 1000);
    }

    // First call: n=1, 2^1 = 2s
    assert!(windows[0] >= 1 && windows[0] <= 2, "first cooldown: {}", windows[0]);
    // Growth: each subsequent window should be >= the previous one
    for w in windows.windows(2) {
        assert!(w[1] >= w[0], "expected non-decreasing windows: {} then {}", w[0], w[1]);
    }
    // Cap: clamped to 1800s
    assert!(
        windows.last().copied().unwrap() <= MAX_COOLDOWN_SECS + 5,
        "cooldown exceeded cap: {:?}",
        windows.last()
    );
    assert_eq!(windows, vec![2, 4, 8, 16, 32, 64, 128, 256, 512, 1024, 1800, 1800]);
}

#[test]
fn test_check_recoveries_clears_expired_cooldowns() {
    let mut h = HealthManager::new();
    for _ in 0..3 {
        h.mark_cooldown(1, "model-a", NOW - 68_000);
    }
    assert!(h.is_available(1, "model-a", NOW));

    h.check_recoveries(NOW);
    let s = h.get_state(1).unwrap();
    assert!(s.cooldowns.entries().is_empty(), "expired entry should be cleaned up");
    assert!(h.is_available(1, "model-a", NOW));

    // the next failure starts anew
    h.mark_cooldown(1, "model-a", NOW);
    assert_eq!(until(&h, 1, "model-a"), NOW + 2_000);
}

#[test]
fn test_check_recoveries_keeps_active_cooldowns() {
    let mut h = HealthManager::new();
    h.mark_cooldown(1, "model-a", NOW);

    h.check_recoveries(NOW);
    let s = h.get_state(1).unwrap();
    assert!(s.cooldowns.get(&"model-a".to_string()).is_some(), "active cooldown should not be cleared");
    assert!(!h.is_available(1, "model-a", NOW));
}

#[test]
fn test_is_available_active_unseen_disabled() {
    let mut h = HealthManager::new();

    // unseen key: available
    assert!(h.is_available(999, "any-model", NOW));

    // disabled key: unavailable (for any model)
    h.mark_disabled(2);
    assert!(!h.is_available(2, "model-a", NOW));
    assert!(!h.is_available(2, "model-b", NOW));
    assert_eq!(h.get_state(2).unwrap().status, KeyStatus::Disabled);

    // restore_disabled brings it back
    h.restore_disabled(&vec![2]);
    assert!(h.is_available(2, "model-a", NOW));
    let s = h.get_state(2).unwrap();
    assert_eq!(s.status, KeyStatus::Active);
    assert!(s.cooldowns.entries().is_empty());
}

#[test]
fn test_add_usage_accumulates() {
    let mut h = HealthManager::new();
    h.add_usage(1, 100);
    h.add_usage(1, 50);
    assert_eq!(h.get_state(1).unwrap().used_quota_this_period, 150);
    h.add_usage(1, u64::MAX);
    assert_eq!(h.get_state(1).unwrap().used_quota_this_period, u64::MAX);
}

#[test]
fn test_check_recoveries_leaves_active_keys_alone() {
    let mut h = HealthManager::new();
    h.add_usage(1, 100);
    h.check_recoveries(NOW);
    let s = h.get_state(1).unwrap();
    assert_eq!(s.status, KeyStatus::Active);
    assert_eq!(s.used_quota_this_period, 100);
}

#[test]
fn test_sync_key_from_db() {
    let mut h = HealthManager::new();
    h.mark_disabled(5);
    assert!(!h.is_available(5, "model-a", NOW));

    h.sync_key_from_db(5, KeyStatus::Active);
    assert!(h.is_available(5, "model-a", NOW));
}

#[test]
fn test_load_disabled_from_db_on_startup() {
    let mut h = HealthManager::default();
    // Before loading, key 1 should be "available" (unseen).
    assert!(h.is_available(1, "any-model", NOW));

    h.load_disabled(&vec![1]);

    // Now key 1 should be unavailable.
    assert!(!h.is_available(1, "any-model", NOW));
    assert_eq!(h.get_state(1).unwrap().status, KeyStatus::Disabled);
}

fn row(channel_id: i64, upstream: &str, window: &str, limit: Option<i64>, used: i64, last: Option<&str>, status: &str) -> SmallModelRow {
    SmallModelRow {
        channel_id,
        raw_model_name: upstream.to_string(),
        quota_limit: limit,
        quota_window: Some(window.to_string()),
        used_quota: used,
        last_reset_at: last.map(|s| s.to_string()),
        quota_status: status.to_string(),
    }
}

fn with_row(r: SmallModelRow) -> HealthManager {
    let mut h = HealthManager::new();
    h.load_small_model_quota(vec![r]);
    h
}

#[test]
fn test_small_model_day_reset_triggers_when_yesterday() {
    let mut h = with_row(row(1, "gpt-4o", "day", Some(1000), 1000, Some("2024-03-14 12:00:00"), "exhausted"));
    assert!(!h.is_small_model_available(1, "gpt-4o"));

    let reset = h.check_recoveries(NOW);
    assert_eq!(reset, vec![(1, "gpt-4o".to_string())]);

    let s = h.small_model_state(1, "gpt-4o").unwrap();
    assert_eq!(s.used, 0);
    assert_eq!(s.status, QuotaStatus::Available);
    assert_eq!(s.last_reset_at, Some(NOW));
    assert!(h.is_small_model_available(1, "gpt-4o"));
}

#[test]
fn test_small_model_day_reset_skips_when_today() {
    let mut h = with_row(row(1, "gpt-4o", "day", Some(1000), 500, Some("2024-03-15 12:00:00"), "available"));

    assert!(h.check_recoveries(NOW).is_empty());

    let s = h.small_model_state(1, "gpt-4o").unwrap();
    assert_eq!(s.used, 500, "used must be unchanged when last_reset_at is today");
    assert_eq!(s.status, QuotaStatus::Available);
}

#[test]
fn test_small_model_month_reset_triggers_when_last_month() {
    let mut h = with_row(row(2, "sonnet", "month", Some(1000), 1000, Some("2024-02-15 00:00:00"), "exhausted"));

    h.check_recoveries(NOW);

    let s = h.small_model_state(2, "sonnet").unwrap();
    assert_eq!(s.used, 0);
    assert_eq!(s.status, QuotaStatus::Available);
}

#[test]
fn test_small_model_month_reset_skips_when_same_month() {
    let mut h = with_row(row(2, "sonnet", "month", Some(1000), 800, Some("2024-03-15 12:00:00"), "available"));

    h.check_recoveries(NOW);

    let s = h.small_model_state(2, "sonnet").unwrap();
    assert_eq!(s.used, 800, "used must be unchanged within the same month");
}

#[test]
fn test_small_model_total_never_resets() {
    let mut h = with_row(row(3, "gemini", "total", Some(1000), 1000, Some("2023-02-09 12:00:00"), "exhausted"));

    h.check_recoveries(NOW);

    let s = h.small_model_state(3, "gemini").unwrap();
    assert_eq!(s.used, 1000, "total window must not auto-reset");
    assert_eq!(s.status, QuotaStatus::Exhausted);
}

#[test]
fn test_is_small_model_available_variants() {
    let mut h = HealthManager::new();

    // unseen (channel_id, upstream): available
    assert!(h.is_small_model_available(99, "unseen"));

    h.load_small_model_quota(vec![
        // no limit: available even if exhausted somehow
        row(1, "a", "day", None, 0, None, "exhausted"),
        row(2, "b", "day", Some(1000), 100, Some("2024-03-15 12:00:00"), "available"),
        row(3, "c", "day", Some(1000), 1000, Some("2024-03-15 12:00:00"), "exhausted"),
    ]);
    assert!(h.is_small_model_available(1, "a"));
    assert!(h.is_small_model_available(2, "b"));
    assert!(!h.is_small_model_available(3, "c"));
}

#[test]
fn test_small_model_reset_persists_to_db() {
    // what is written to the database: the reset models, with nothing used and available
    let mut h = with_row(row(1, "gpt-4o", "day", Some(1000), 1000, Some("2024-03-14 12:00:00"), "exhausted"));
    for (channel_id, upstream) in h.check_recoveries(NOW) {
        let s = h.small_model_state(channel_id, &upstream).unwrap();
        assert_eq!(s.used, 0);
        assert_eq!(s.status.as_db_str(), "available");
    }
}

#[test]
fn test_small_model_reset_updates_cache() {
    let mut data = CacheData::with_channels(vec![]);
    data.small_model_quota.insert(
        (1, "gpt-4o".to_string()),
        QuotaState {
            limit: Some(1000),
            unit: None,
            window: Some(QuotaWindow::Day),
            used: 1000,
            last_reset_at: None,
            status: QuotaStatus::Exhausted,
        },
    );
    let mut cache = ConfigCache::new(Normalizer::new());
    cache.store(data, vec![]);

    let mut h = with_row(row(1, "gpt-4o", "day", Some(1000), 1000, Some("2024-03-14 12:00:00"), "exhausted"));
    for (channel_id, upstream) in h.check_recoveries(NOW) {
        let s = h.small_model_state(channel_id, &upstream).unwrap();
        cache.update_small_model_quota(channel_id, &upstream, s.used, s.status);
    }
    let q = cache.get_small_model_quota(1, "gpt-4o").unwrap();
    assert_eq!(q.used, 0);
    assert_eq!(q.status, QuotaStatus::Available);
}

#[test]
fn a_reset_settles_until_the_next_period() {
    let mut h = with_row(row(1, "m", "day", Some(10), 10, None, "exhausted"));
    assert_eq!(h.check_recoveries(NOW).len(), 1);
    assert_eq!(h.check_recoveries(NOW + 1000).len(), 0);
    assert_eq!(h.check_recoveries(NOW + DAY).len(), 1);
}

#[test]
fn a_new_year_is_a_new_month() {
    // the 15th of March 2024 and the 1st of March 2023
    let mut h = with_row(row(1, "m", "month", Some(10), 10, Some("2023-03-01T00:00:00Z"), "exhausted"));
    assert_eq!(h.check_small_model_quota_resets(NOW).len(), 1);
}

#[test]
fn a_cooldown_ends_at_its_time() {
    let mut h = HealthManager::new();
    h.mark_cooldown(1, "m", NOW);
    assert!(!h.is_available(1, "m", NOW + 1_999));
    assert!(h.is_available(1, "m", NOW + 2_001));
}

#[test]
fn restoring_forgets_cooldowns_and_keeps_other_keys() {
    let mut h = HealthManager::new();
    h.mark_cooldown(1, "m", NOW);
    h.mark_disabled(1);
    h.mark_disabled(2);
    h.restore_disabled(&vec![1]);
    assert!(h.is_available(1, "m", NOW));
    assert!(!h.is_available(2, "m", NOW));
}

#[test]
fn stored_times_are_read_in_both_notations() {
    assert_eq!(parse_db_datetime(" 2024-03-15 12:00:00 "), Some(NOW));
    assert_eq!(parse_db_datetime("2024-03-15T13:00:00+01:00"), Some(NOW));
    assert_eq!(parse_db_datetime("2024-03-15"), None);
    assert_eq!(parse_db_datetime(""), None);
}

#[test]
fn periods_are_told_apart_by_date() {
    let a = Some((2024, 3, 14));
    let b = Some((2024, 3, 15));
    let c = Some((2024, 4, 15));
    assert!(in_different_periods(QuotaWindow::Day, a, b));
    assert!(!in_different_periods(QuotaWindow::Month, a, b));
    assert!(in_different_periods(QuotaWindow::Month, b, c));
    assert!(!in_different_periods(QuotaWindow::Total, a, c));
    assert!(!in_different_periods(QuotaWindow::Day, b, b));
    assert!(period_rolled(QuotaWindow::Day, None, NOW));
    assert!(!period_rolled(QuotaWindow::Total, None, NOW));
    // a second before and after midnight
    let midnight = 1_710_460_800_000;
    assert!(period_rolled(QuotaWindow::Day, Some(midnight - 1000), midnight + 1000));
}
