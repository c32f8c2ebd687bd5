//! What is recorded of a request once it is done.
use vstd::prelude::*;

use crate::cache::{ConfigCache, QuotaState, QuotaStatus, QuotaUnit};
use crate::health::{with_usage, HealthManager};
use crate::types::Usage;

verus! {

/// A row of the usage log.
#[derive(Debug, PartialEq, Eq)]
pub struct UsageRecord {
    pub user_id: i64,
    pub token_id: i64,
    pub channel_id: i64,
    pub key_id: i64,
    pub model_id: i64,
    pub usage: Usage,
    pub quota_cost: i64,
    pub request_type: String,
    pub status: String,
    pub error: Option<String>,
}

/// What is added to the stored quota of an upstream model, and the status it has then.
#[derive(Debug, Clone, Copy, PartialEq, Eq, Structural)]
pub struct QuotaWrite {
    pub delta: i64,
    pub status: QuotaStatus,
}

/// What is to be stored after a successful request.
#[derive(Debug, PartialEq, Eq)]
pub struct TrackedSuccess {
    pub record: UsageRecord,
    pub key_tokens: u64,
    pub quota: Option<QuotaWrite>,
}

/// Which request is tracked: who made it, and which channel, key and model served it.
#[derive(Debug, Clone, Copy, PartialEq, Eq, Structural)]
pub struct TrackedRequest {
    pub user_id: i64,
    pub token_id: i64,
    pub channel_id: i64,
    pub key_id: i64,
    pub model_id: i64,
}

/// The sum, or the nearest number that the type has.
pub open spec fn saturating_sum(a: i64, b: i64) -> i64 {
    if a + b > i64::MAX {
        i64::MAX
    } else if a + b < i64::MIN {
        i64::MIN
    } else {
        (a + b) as i64
    }
}

/// The sum, or the nearest number that the type has.
fn add_saturating(a: i64, b: i64) -> (r: i64)
    ensures
        r == saturating_sum(a, b),
{
    match a.checked_add(b) {
        Some(sum) => sum,
        None => if b > 0 {
            i64::MAX
        } else {
            i64::MIN
        },
    }
}

/// How much a request counts against a quota: its tokens, or one call. A quota without a limit
/// or a unit counts nothing, and so does a request without tokens where tokens count.
pub open spec fn quota_delta(state: QuotaState, usage: Usage) -> Option<i64> {
    match (state.limit, state.unit) {
        (Some(_), Some(QuotaUnit::Token)) => if usage.total_tokens == 0 {
            None
        } else {
            Some(usage.total_tokens as i64)
        },
        (Some(_), Some(QuotaUnit::Call)) => Some(1),
        _ => None,
    }
}

/// The status of a quota of which so much is used: it is exhausted from its limit on.
pub open spec fn status_at(state: QuotaState, used: i64) -> QuotaStatus {
    match state.limit {
        Some(limit) => if used >= limit {
            QuotaStatus::Exhausted
        } else {
            QuotaStatus::Available
        },
        None => QuotaStatus::Available,
    }
}

/// `after` is `before` with a request counted against the quota of an upstream model.
pub open spec fn quota_counted(
    before: ConfigCache,
    after: ConfigCache,
    channel_id: i64,
    upstream: Seq<char>,
    usage: Usage,
    r: Option<QuotaWrite>,
) -> bool {
    match before.spec_quota(channel_id, upstream) {
        None => r is None && after == before,
        Some(state) => match quota_delta(state, usage) {
            None => r is None && after == before,
            Some(delta) => {
                let used = saturating_sum(state.used, delta);
                &&& r == Some(QuotaWrite { delta, status: status_at(state, used) })
                &&& after.normalizer == before.normalizer
                &&& after.data is Some
                &&& after.data->0.small_model_quota@ == crate::cache::quota_updated(
                    before.data->0.small_model_quota@,
                    channel_id,
                    upstream,
                    used,
                    status_at(state, used),
                )
                &&& after.data->0.channels == before.data->0.channels
                &&& after.data->0.keys == before.data->0.keys
                &&& after.data->0.bindings == before.data->0.bindings
                &&& after.data->0.channel_model_pricing == before.data->0.channel_model_pricing
                &&& after.data->0.routing_strategy == before.data->0.routing_strategy
            },
        },
    }
}

/// Counts a request against the quota of an upstream model; gives what is to be stored.
pub fn accumulate_small_model_quota(
    cache: &mut ConfigCache,
    channel_id: i64,
    upstream_model_name: &str,
    usage: &Usage,
) -> (r: Option<QuotaWrite>)
    ensures
        quota_counted(*old(cache), *final(cache), channel_id, upstream_model_name@, *usage, r),
{
    let state = match cache.get_small_model_quota(channel_id, upstream_model_name) {
        Some(s) => s,
        None => {
            return None;
        },
    };
    let limit: i64 = match state.limit {
        Some(l) => l,
        None => {
            return None;
        },
    };
    let delta: i64 = match state.unit {
        Some(QuotaUnit::Token) => {
            if usage.total_tokens == 0 {
                return None;
            }
            #[verifier::truncate]
            (usage.total_tokens as i64)
        },
        Some(QuotaUnit::Call) => 1,
        None => {
            return None;
        },
    };
    let used: i64 = add_saturating(state.used, delta);
    let status = if used >= limit {
        QuotaStatus::Exhausted
    } else {
        QuotaStatus::Available
    };
    cache.update_small_model_quota(channel_id, upstream_model_name, used, status);
    Some(QuotaWrite { delta, status })
}

/// The recording of requests.
pub struct Tracker;

impl Tracker {
    /// Records a request that succeeded: counts its tokens for the key and against the quota of
    /// the upstream model, and gives what is to be stored.
    pub fn track_success(
        health: &mut HealthManager,
        cache: &mut ConfigCache,
        request: TrackedRequest,
        upstream_model_name: &str,
        usage: &Usage,
        quota_cost: i64,
        request_type: &str,
    ) -> (r: TrackedSuccess)
        ensures
            final(health).keys() == with_usage(
                old(health).keys(),
                request.key_id,
                usage.total_tokens,
            ),
            final(health).models() == old(health).models(),
            quota_counted(
                *old(cache),
                *final(cache),
                request.channel_id,
                upstream_model_name@,
                *usage,
                r.quota,
            ),
            r.key_tokens == usage.total_tokens,
            r.record.user_id == request.user_id,
            r.record.token_id == request.token_id,
            r.record.channel_id == request.channel_id,
            r.record.key_id == request.key_id,
            r.record.model_id == request.model_id,
            r.record.usage == *usage,
            r.record.quota_cost == quota_cost,
            r.record.request_type@ == request_type@,
            r.record.status@ == "success"@,
            r.record.error is None,
    {
        health.add_usage(request.key_id, usage.total_tokens);
        let quota = accumulate_small_model_quota(
            cache,
            request.channel_id,
            upstream_model_name,
            usage,
        );
        TrackedSuccess {
            record: UsageRecord {
                user_id: request.user_id,
                token_id: request.token_id,
                channel_id: request.channel_id,
                key_id: request.key_id,
                model_id: request.model_id,
                usage: *usage,
                quota_cost,
                request_type: request_type.to_owned(),
                status: "success".to_owned(),
                error: None,
            },
            key_tokens: usage.total_tokens,
            quota,
        }
    }

    /// The record of a request that failed: it used and cost nothing.
    pub fn track_failure(request: TrackedRequest, request_type: &str, error: &str) -> (r: UsageRecord)
        ensures
            r.user_id == request.user_id,
            r.token_id == request.token_id,
            r.channel_id == request.channel_id,
            r.key_id == request.key_id,
            r.model_id == request.model_id,
            r.usage == (Usage { prompt_tokens: 0, completion_tokens: 0, total_tokens: 0 }),
            r.quota_cost == 0,
            r.request_type@ == request_type@,
            r.status@ == "failed"@,
            r.error is Some,
            r.error->0@ == error@,
    {
        UsageRecord {
            user_id: request.user_id,
            token_id: request.token_id,
            channel_id: request.channel_id,
            key_id: request.key_id,
            model_id: request.model_id,
            usage: Usage { prompt_tokens: 0, completion_tokens: 0, total_tokens: 0 },
            quota_cost: 0,
            request_type: request_type.to_owned(),
            status: "failed".to_owned(),
            error: Some(error.to_owned()),
        }
    }
}

/// Counting a request exhausts a quota exactly where it reaches the limit, and a quota that reached
/// it stays exhausted.
pub proof fn law_quota_exhausts_at_limit(state: QuotaState, usage: Usage, limit: i64, delta: i64)
    requires
        state.limit == Some(limit),
        quota_delta(state, usage) == Some(delta),
        0 <= delta,
    ensures
        status_at(state, saturating_sum(state.used, delta)) == QuotaStatus::Exhausted
            <==> (state.used + delta >= limit),
        state.used >= limit ==> status_at(state, saturating_sum(state.used, delta))
            == QuotaStatus::Exhausted,
{
}

/// A quota without a limit never exhausts: no request counts against it.
pub proof fn law_unlimited_quota_counts_nothing(state: QuotaState, usage: Usage)
    requires
        state.limit is None,
    ensures
        quota_delta(state, usage) is None,
{
}

/// A request counts against a quota with a limit: once where the unit is the call, and by all its
/// tokens where it is the token, if it used any. A quota without limit or unit is not counted.
pub proof fn law_requests_count_by_unit(state: QuotaState, usage: Usage)
    ensures
        state.limit is None || state.unit is None ==> quota_delta(state, usage) is None,
        state.limit is Some && state.unit == Some(QuotaUnit::Call) ==> quota_delta(state, usage)
            == Some(1i64),
        state.limit is Some && state.unit == Some(QuotaUnit::Token) && usage.total_tokens == 0
            ==> quota_delta(state, usage) is None,
        state.limit is Some && state.unit == Some(QuotaUnit::Token) && 0 < usage.total_tokens
            <= i64::MAX ==> (quota_delta(state, usage) matches Some(d) && d == usage.total_tokens),
{
}

/// What is used of a quota is the sum of what was used and what is added, and stops at the end of
/// the counter.
pub proof fn law_used_quota_adds_up(used: i64, delta: i64)
    ensures
        i64::MIN <= used + delta <= i64::MAX ==> saturating_sum(used, delta) == used + delta,
        used + delta > i64::MAX ==> saturating_sum(used, delta) == i64::MAX,
        used + delta < i64::MIN ==> saturating_sum(used, delta) == i64::MIN,
        delta >= 0 ==> saturating_sum(used, delta) >= used,
{
}

/// Counting a request changes what is used of its quota and whether it is exhausted, and nothing
/// else in the configuration; what is to be stored tells both.
pub proof fn law_counting_changes_only_its_quota(
    before: ConfigCache,
    after: ConfigCache,
    channel_id: i64,
    upstream: Seq<char>,
    usage: Usage,
    r: Option<QuotaWrite>,
    other: (i64, Seq<char>),
)
    requires
        quota_counted(before, after, channel_id, upstream, usage, r),
    ensures
        other != (channel_id, upstream) ==> after.spec_quota(other.0, other.1)
            == before.spec_quota(other.0, other.1),
        before.spec_quota(channel_id, upstream) is None ==> r is None && after == before,
        before.spec_quota(channel_id, upstream) matches Some(state) ==> {
            &&& r is None ==> after == before
            &&& state.limit is Some && state.unit == Some(QuotaUnit::Call) && state.used < i64::MAX
                ==> {
                &&& r matches Some(w) && w.delta == 1
                &&& after.spec_quota(channel_id, upstream) matches Some(now) && now.used
                    == state.used + 1 && now.limit == state.limit && now.unit == state.unit
                    && now.window == state.window && now.last_reset_at == state.last_reset_at
                    && now.status == r->0.status && (now.status == QuotaStatus::Exhausted
                    <==> state.used + 1 >= state.limit->0)
            }
            &&& state.limit is Some && state.unit == Some(QuotaUnit::Token) && 0
                < usage.total_tokens && state.used + usage.total_tokens <= i64::MAX && state.used
                >= 0 ==> {
                &&& r matches Some(w) && w.delta == usage.total_tokens
                &&& after.spec_quota(channel_id, upstream) matches Some(now) && now.used
                    == state.used + usage.total_tokens && now.limit == state.limit && now.unit
                    == state.unit && now.window == state.window && now.last_reset_at
                    == state.last_reset_at && now.status == r->0.status && (now.status
                    == QuotaStatus::Exhausted <==> state.used + usage.total_tokens
                    >= state.limit->0)
            }
        },
{
}

} // verus!
