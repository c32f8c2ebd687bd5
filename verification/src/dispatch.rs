//! The course of one request: its plan, its tries, and what each of them changes and records.
use vstd::prelude::*;

use crate::error::ProxyError;
use crate::executor::{
    after, calls_for, key_at, law_selected_bindings_have_keys, lemma_place_advances,
    shares_first_pricing, well_formed, Action, EntryFormat, Event, Execution, ExecutionContext,
    ExecutionFailure, Executor, KeyEffect, Progress,
};
use crate::health::{available, cooled_down, with_status, KeyHealth, MAX_COOLDOWN_SECS};
use crate::json::json_item;
use crate::pricing::{actual_basis, basis_of, estimate_basis, estimate_of, CostBasis};
use crate::request::{extract_max_tokens, limit_of, usage_in, usage_of_response};
use crate::router::{buckets, RoutedKey};
use crate::tracker::{TrackedRequest, TrackedSuccess, Tracker, UsageRecord};
use crate::types::{ChannelModelPricing, KeyStatus, Usage};

verus! {

/// What a request is tried on, and what it is charged by in advance: the pricing of the key that
/// is tried first.
#[derive(Debug, PartialEq, Eq)]
pub struct Plan {
    pub candidates: Vec<Vec<RoutedKey>>,
    pub pricing: Option<ChannelModelPricing>,
    pub estimate: CostBasis,
}

/// What follows from what happened to a key: what is to be done next, and the row of the usage log
/// that records a failure.
#[derive(Debug, PartialEq, Eq)]
pub struct Observation {
    pub action: Action,
    pub record: Option<UsageRecord>,
}

/// What is to be done next with a request.
#[derive(Debug, PartialEq, Eq)]
pub enum Next {
    /// Try this key.
    Try(RoutedKey),
    /// Refund what was charged, and answer with the failure.
    GiveUp(ExecutionFailure),
}

/// The progress with the keys passed over that are not available.
pub open spec fn past_unavailable(
    plan: Seq<Seq<RoutedKey>>,
    p: Progress,
    keys: Map<i64, KeyHealth>,
    now: i64,
) -> Progress
    decreases
            crate::executor::binding_limit(plan) - p.binding,
            plan[p.binding].len() - p.key,
{
    match key_at(plan, p) {
        None => p,
        Some(rk) => if available(keys, rk.key.id, rk.upstream_model_name@, now) {
            p
        } else {
            proof {
                lemma_place_advances(plan, p.binding, p.key + 1);
            }
            past_unavailable(plan, after(plan, p, Event::Unavailable), keys, now)
        },
    }
}

/// The text of the failure that an event tells of, if it tells of one.
pub open spec fn failure_text(event: Event) -> Option<Seq<char>> {
    match event {
        Event::TimedOut(secs) => Some(ProxyError::UpstreamTimeout(secs).spec_message()),
        Event::Failed(e) => Some(e.spec_message()),
        _ => None,
    }
}

/// The record says that a try on a key failed, and why.
pub open spec fn records_failure(
    record: UsageRecord,
    ctx: ExecutionContext,
    rk: RoutedKey,
    text: Seq<char>,
) -> bool {
    &&& record.user_id == ctx.user_id
    &&& record.token_id == ctx.token_id
    &&& record.channel_id == rk.channel.id
    &&& record.key_id == rk.key.id
    &&& record.model_id == ctx.model_id
    &&& record.usage == (Usage { prompt_tokens: 0, completion_tokens: 0, total_tokens: 0 })
    &&& record.quota_cost == 0
    &&& record.request_type@ == "chat"@
    &&& record.status@ == "failed"@
    &&& record.error is Some
    &&& record.error->0@ == text
}

/// The keys after an action on one of them.
pub open spec fn keys_after(
    keys: Map<i64, KeyHealth>,
    rk: RoutedKey,
    action: Action,
    now: i64,
) -> Map<i64, KeyHealth> {
    match action {
        Action::Proceed(KeyEffect::Cooldown) => cooled_down(
            keys,
            rk.key.id,
            rk.upstream_model_name@,
            now,
        ),
        Action::Proceed(KeyEffect::Disable) => keys.insert(
            rk.key.id,
            with_status(keys, rk.key.id, KeyStatus::Disabled, false),
        ),
        _ => keys,
    }
}

/// The request that a key serves.
fn tracked_request(ctx: &ExecutionContext, rk: &RoutedKey) -> (r: TrackedRequest)
    ensures
        r.user_id == ctx.user_id,
        r.token_id == ctx.token_id,
        r.channel_id == rk.channel.id,
        r.key_id == rk.key.id,
        r.model_id == ctx.model_id,
{
    TrackedRequest {
        user_id: ctx.user_id,
        token_id: ctx.token_id,
        channel_id: rk.channel.id,
        key_id: rk.key.id,
        model_id: ctx.model_id,
    }
}

/// The pricing of a key: that of the first one where it is tried under the same name on the same
/// channel, and its own otherwise.
pub open spec fn pricing_for_key(
    executor: Executor,
    ctx: ExecutionContext,
    plan: Seq<Seq<RoutedKey>>,
    first: Option<ChannelModelPricing>,
    rk: RoutedKey,
) -> Option<ChannelModelPricing> {
    if shares_first_pricing(plan, rk) {
        first
    } else {
        executor.cache.spec_pricing(ctx.model_id, rk.channel.id, rk.upstream_model_name@)
    }
}

impl Executor {
    /// Plans a request: the keys to be tried, the pricing of the first of them, and what is charged
    /// in advance. Where there is no key to be tried the request fails.
    pub fn plan(&self, ctx: &ExecutionContext, entry: EntryFormat, body: &str, now: i64) -> (r:
        Result<Plan, ExecutionFailure>)
        ensures
            match r {
                Ok(p) => {
                    &&& self.selects(*ctx, now, buckets(p.candidates@))
                    &&& p.candidates@.len() > 0
                    &&& p.candidates@[0]@.len() > 0
                    &&& p.pricing == self.cache.spec_pricing(
                        ctx.model_id,
                        p.candidates@[0]@[0].channel.id,
                        p.candidates@[0]@[0].upstream_model_name@,
                    )
                    &&& p.estimate == estimate_of(
                        p.pricing,
                        limit_of(
                            json_item(body@, "/max_completion_tokens"@),
                            json_item(body@, "/max_tokens"@),
                            entry,
                        ),
                    )
                },
                Err(f) => self.selects(*ctx, now, Seq::empty()) && f.is_no_candidates(
                    ctx.canonical_name@,
                ),
            },
    {
        let candidates = self.select_keys(ctx, now);
        if candidates.len() == 0 {
            proof {
                assert(buckets(candidates@) =~= Seq::empty());
            }
            return Err(ExecutionFailure::no_candidates(ctx.canonical_name.as_str()));
        }
        proof {
            law_selected_bindings_have_keys(*self, *ctx, now, buckets(candidates@));
            assert(buckets(candidates@)[0] == candidates@[0]@);
        }
        let first = &candidates[0][0];
        let pricing = self.cache.get_channel_model_pricing(
            ctx.model_id,
            first.channel.id,
            first.upstream_model_name.as_str(),
        );
        let max_tokens = extract_max_tokens(body, entry);
        let estimate = estimate_basis(pricing.as_ref(), max_tokens);
        Ok(Plan { candidates, pricing, estimate })
    }

    /// The next key to be tried. Keys that are not available, though they were when the request
    /// was planned, are passed over.
    pub fn next_attempt(&self, execution: &mut Execution, now: i64) -> (r: Option<RoutedKey>)
        requires
            old(execution).wf(),
        ensures
            final(execution).wf(),
            final(execution).plan() == old(execution).plan(),
            final(execution).progress() == past_unavailable(
                old(execution).plan(),
                old(execution).progress(),
                self.health.keys(),
                now,
            ),
            r == key_at(final(execution).plan(), final(execution).progress()),
            match r {
                Some(rk) => available(
                    self.health.keys(),
                    rk.key.id,
                    rk.upstream_model_name@,
                    now,
                ),
                None => true,
            },
    {
        let ghost plan = execution.plan();
        let ghost start = execution.progress();
        loop
            invariant
                plan == old(execution).plan(),
                start == old(execution).progress(),
                execution.wf(),
                execution.plan() == plan,
                past_unavailable(plan, execution.progress(), self.health.keys(), now)
                    == past_unavailable(plan, start, self.health.keys(), now),
            decreases
                    crate::executor::binding_limit(plan) - execution.progress().binding,
                    plan[execution.progress().binding].len() - execution.progress().key,
        {
            let next: Option<RoutedKey> = match execution.next_key() {
                Some(rk) => Some(rk.clone()),
                None => None,
            };
            match next {
                None => {
                    return None;
                },
                Some(rk) => {
                    if self.health.is_available(
                        rk.key.id,
                        rk.upstream_model_name.as_str(),
                        now,
                    ) {
                        return Some(rk);
                    }
                },
            }
            proof {
                lemma_place_advances(
                    plan,
                    execution.progress().binding,
                    execution.progress().key + 1,
                );
            }
            let _passed = execution.step(Event::Unavailable);
        }
    }

    /// What is to be done next: the next key that is available is tried, and where none is left the
    /// request is given up.
    pub fn next_step(&self, execution: &mut Execution, ctx: &ExecutionContext, now: i64) -> (r: Next)
        requires
            old(execution).wf(),
        ensures
            final(execution).wf(),
            final(execution).plan() == old(execution).plan(),
            final(execution).progress() == past_unavailable(
                old(execution).plan(),
                old(execution).progress(),
                self.health.keys(),
                now,
            ),
            match (r, key_at(final(execution).plan(), final(execution).progress())) {
                (Next::Try(rk), Some(k)) => rk == k && available(
                    self.health.keys(),
                    rk.key.id,
                    rk.upstream_model_name@,
                    now,
                ),
                (Next::GiveUp(f), None) => f.reports_exhaustion(
                    final(execution).plan(),
                    final(execution).progress(),
                    ctx.canonical_name@,
                ),
                _ => false,
            },
    {
        match self.next_attempt(execution, now) {
            Some(rk) => Next::Try(rk),
            None => Next::GiveUp(execution.exhausted(ctx.canonical_name.as_str())),
        }
    }

    /// Takes notice of what happened to the key at hand: marks the key where it is to be left
    /// alone or disabled, records a failure, and says what is to be done next.
    pub fn observe(
        &mut self,
        execution: &mut Execution,
        ctx: &ExecutionContext,
        event: Event,
        now: i64,
    ) -> (r: Observation)
        requires
            old(execution).wf(),
            key_at(old(execution).plan(), old(execution).progress()) is Some,
            now <= i64::MAX - MAX_COOLDOWN_SECS * 1000,
        ensures
            final(execution).wf(),
            final(execution).plan() == old(execution).plan(),
            final(execution).progress() == after(
                old(execution).plan(),
                old(execution).progress(),
                event,
            ),
            calls_for(
                old(execution).plan(),
                final(execution).progress(),
                key_at(old(execution).plan(), old(execution).progress())->0,
                event,
                r.action,
            ),
            match failure_text(event) {
                Some(text) => r.record is Some && records_failure(
                    r.record->0,
                    *ctx,
                    key_at(old(execution).plan(), old(execution).progress())->0,
                    text,
                ),
                None => r.record is None,
            },
            final(self).health.keys() == keys_after(
                old(self).health.keys(),
                key_at(old(execution).plan(), old(execution).progress())->0,
                r.action,
                now,
            ),
            final(self).health.models() == old(self).health.models(),
            final(self).cache == old(self).cache,
            final(self).upstream_timeout_secs == old(self).upstream_timeout_secs,
            final(self).streaming_timeout_secs == old(self).streaming_timeout_secs,
    {
        let rk = match execution.next_key() {
            Some(rk) => rk.clone(),
            None => {
                return Observation { action: Action::Settle, record: None };
            },
        };
        let text: Option<String> = match &event {
            Event::TimedOut(secs) => Some(ProxyError::UpstreamTimeout(*secs).message()),
            Event::Failed(e) => Some(e.message()),
            _ => None,
        };
        let record: Option<UsageRecord> = match text {
            Some(t) => Some(Tracker::track_failure(tracked_request(ctx, &rk), "chat", t.as_str())),
            None => None,
        };
        let action = execution.step(event);
        match &action {
            Action::Proceed(KeyEffect::Cooldown) => {
                self.health.mark_cooldown(rk.key.id, rk.upstream_model_name.as_str(), now);
            },
            Action::Proceed(KeyEffect::Disable) => {
                self.health.mark_disabled(rk.key.id);
            },
            _ => {},
        }
        Observation { action, record }
    }

    /// The pricing that a request is charged by once a key has served it.
    pub fn pricing_of(
        &self,
        ctx: &ExecutionContext,
        execution: &Execution,
        first: &Option<ChannelModelPricing>,
        rk: &RoutedKey,
    ) -> (r: Option<ChannelModelPricing>)
        ensures
            r == pricing_for_key(*self, *ctx, execution.plan(), *first, *rk),
    {
        if execution.uses_first_pricing(rk) {
            match first {
                Some(p) => Some(p.clone()),
                None => None,
            }
        } else {
            self.cache.get_channel_model_pricing(
                ctx.model_id,
                rk.channel.id,
                rk.upstream_model_name.as_str(),
            )
        }
    }

    /// The usage that a response reports, and what it is charged by; nothing where the usage does
    /// not fit its counters.
    pub fn measure(
        &self,
        ctx: &ExecutionContext,
        execution: &Execution,
        first: &Option<ChannelModelPricing>,
        rk: &RoutedKey,
        response: &[u8],
    ) -> (r: Option<(Usage, CostBasis)>)
        ensures
            r == match usage_in(response@, rk.channel.provider) {
                Some(u) => Some(
                    (
                        u,
                        basis_of(
                            pricing_for_key(*self, *ctx, execution.plan(), *first, *rk),
                            u.prompt_tokens,
                            u.completion_tokens,
                        ),
                    ),
                ),
                None => None,
            },
    {
        match usage_of_response(response, rk.channel.provider) {
            Some(usage) => {
                let pricing = self.pricing_of(ctx, execution, first, rk);
                let basis = actual_basis(&usage, pricing.as_ref());
                Some((usage, basis))
            },
            None => None,
        }
    }

    /// Records that a key has served a request.
    pub fn track(
        &mut self,
        ctx: &ExecutionContext,
        rk: &RoutedKey,
        usage: &Usage,
        quota_cost: i64,
    ) -> (r: TrackedSuccess)
        ensures
            final(self).health.keys() == crate::health::with_usage(
                old(self).health.keys(),
                rk.key.id,
                usage.total_tokens,
            ),
            final(self).health.models() == old(self).health.models(),
            crate::tracker::quota_counted(
                old(self).cache,
                final(self).cache,
                rk.channel.id,
                rk.upstream_model_name@,
                *usage,
                r.quota,
            ),
            r.key_tokens == usage.total_tokens,
            r.record.user_id == ctx.user_id,
            r.record.token_id == ctx.token_id,
            r.record.channel_id == rk.channel.id,
            r.record.key_id == rk.key.id,
            r.record.model_id == ctx.model_id,
            r.record.usage == *usage,
            r.record.quota_cost == quota_cost,
            r.record.request_type@ == "chat"@,
            r.record.status@ == "success"@,
            r.record.error is None,
            final(self).upstream_timeout_secs == old(self).upstream_timeout_secs,
            final(self).streaming_timeout_secs == old(self).streaming_timeout_secs,
    {
        Tracker::track_success(
            &mut self.health,
            &mut self.cache,
            tracked_request(ctx, rk),
            rk.upstream_model_name.as_str(),
            usage,
            quota_cost,
            "chat",
        )
    }
}

/// A request is charged by the pricing of the binding that served it, whichever that was.
pub proof fn law_request_is_charged_by_its_binding(
    executor: Executor,
    ctx: ExecutionContext,
    plan: Seq<Seq<RoutedKey>>,
    first: Option<ChannelModelPricing>,
    rk: RoutedKey,
)
    requires
        plan.len() > 0 && plan[0].len() > 0 ==> first == executor.cache.spec_pricing(
            ctx.model_id,
            plan[0][0].channel.id,
            plan[0][0].upstream_model_name@,
        ),
    ensures
        pricing_for_key(executor, ctx, plan, first, rk) == executor.cache.spec_pricing(
            ctx.model_id,
            rk.channel.id,
            rk.upstream_model_name@,
        ),
{
}

/// Passing over keys that are not available tries none of them and stops at one that is, or at the
/// end.
pub proof fn law_unavailable_keys_are_passed_over(
    plan: Seq<Seq<RoutedKey>>,
    p: Progress,
    keys: Map<i64, KeyHealth>,
    now: i64,
)
    requires
        well_formed(plan, p),
    ensures
        past_unavailable(plan, p, keys, now).tried == p.tried,
        past_unavailable(plan, p, keys, now).last_error == p.last_error,
        match key_at(plan, past_unavailable(plan, p, keys, now)) {
            Some(rk) => available(keys, rk.key.id, rk.upstream_model_name@, now),
            None => true,
        },
    decreases
            crate::executor::binding_limit(plan) - p.binding,
            plan[p.binding].len() - p.key,
{
    if let Some(rk) = key_at(plan, p) {
        if !available(keys, rk.key.id, rk.upstream_model_name@, now) {
            lemma_place_advances(plan, p.binding, p.key + 1);
            crate::executor::law_every_event_advances(plan, p, Event::Unavailable);
            law_unavailable_keys_are_passed_over(
                plan,
                after(plan, p, Event::Unavailable),
                keys,
                now,
            );
        }
    }
}

/// No key that is available is passed over: the key that comes next is the first available one at
/// or behind the place reached, and where none comes next, none of those is available.
pub proof fn law_no_available_key_is_passed_over(
    plan: Seq<Seq<RoutedKey>>,
    p: Progress,
    keys: Map<i64, KeyHealth>,
    now: i64,
    b: int,
    k: int,
)
    requires
        well_formed(plan, p),
        crate::executor::holds_key(plan, b, k),
        !crate::executor::earlier((b, k), (p.binding, p.key)),
        available(keys, plan[b][k].key.id, plan[b][k].upstream_model_name@, now),
    ensures
        !crate::executor::earlier(
            (b, k),
            (
                past_unavailable(plan, p, keys, now).binding,
                past_unavailable(plan, p, keys, now).key,
            ),
        ),
        key_at(plan, past_unavailable(plan, p, keys, now)) is Some,
    decreases
            crate::executor::binding_limit(plan) - p.binding,
            plan[p.binding].len() - p.key,
{
    if let Some(rk) = key_at(plan, p) {
        if !available(keys, rk.key.id, rk.upstream_model_name@, now) {
            let q = after(plan, p, Event::Unavailable);
            crate::executor::law_every_event_advances(plan, p, Event::Unavailable);
            lemma_place_advances(plan, p.binding, p.key + 1);
            crate::executor::lemma_place_is_next(plan, p.binding, p.key + 1, b, k);
            law_no_available_key_is_passed_over(plan, q, keys, now, b, k);
        }
    }
}

/// What becomes of the keys after an attempt: a key that is to be left alone is unavailable for
/// the model, a key that is to be disabled is so for every model, and otherwise nothing changes.
/// Other keys are as available as before.
pub proof fn law_actions_change_their_key(
    keys: Map<i64, KeyHealth>,
    rk: RoutedKey,
    action: Action,
    now: i64,
    model: Seq<char>,
    other: i64,
    at: i64,
)
    requires
        now <= i64::MAX - MAX_COOLDOWN_SECS * 1000,
    ensures
        ({
            let after = keys_after(keys, rk, action, now);
            &&& action == Action::Proceed(KeyEffect::Cooldown) ==> !available(
                after,
                rk.key.id,
                rk.upstream_model_name@,
                now,
            )
            &&& action == Action::Proceed(KeyEffect::Disable) ==> !available(
                after,
                rk.key.id,
                model,
                at,
            )
            &&& action != Action::Proceed(KeyEffect::Cooldown) && action != Action::Proceed(
                KeyEffect::Disable,
            ) ==> after == keys
            &&& other != rk.key.id ==> available(after, other, model, at) == available(
                keys,
                other,
                model,
                at,
            )
            &&& action == Action::Proceed(KeyEffect::Cooldown) && model != rk.upstream_model_name@
                ==> available(after, rk.key.id, model, at) == available(keys, rk.key.id, model, at)
        }),
{
    crate::health::law_failures_in_a_row_are_counted(
        keys,
        rk.key.id,
        rk.upstream_model_name@,
        now,
    );
    let entry = cooled_down(keys, rk.key.id, rk.upstream_model_name@, now)[rk.key.id].cooldowns[
        rk.upstream_model_name@];
    crate::health::law_backoff_grows_and_caps(
        entry.consecutive_failures,
        entry.consecutive_failures,
    );
}

/// Every failure of an upstream is recorded with its message, and nothing else is.
pub proof fn law_failures_are_recorded(event: Event)
    ensures
        failure_text(event) is Some <==> (event is Failed || event is TimedOut),
        event matches Event::Failed(e) ==> failure_text(event) == Some(e.spec_message()),
        event matches Event::TimedOut(secs) ==> failure_text(event) == Some(
            ProxyError::UpstreamTimeout(secs).spec_message(),
        ),
{
}

/// The record of a failure names the user, the token, the channel, the key and the model, costs
/// nothing and tells the error.
pub proof fn law_failure_records_name_who_failed(
    record: UsageRecord,
    ctx: ExecutionContext,
    rk: RoutedKey,
    text: Seq<char>,
)
    requires
        records_failure(record, ctx, rk, text),
    ensures
        record.user_id == ctx.user_id,
        record.token_id == ctx.token_id,
        record.model_id == ctx.model_id,
        record.channel_id == rk.channel.id,
        record.key_id == rk.key.id,
        record.usage.prompt_tokens == 0,
        record.usage.completion_tokens == 0,
        record.usage.total_tokens == 0,
        record.quota_cost == 0,
        record.request_type@ == "chat"@,
        record.status@ == "failed"@,
        record.error matches Some(e) && e@ == text,
{
}

/// The pricing of a key is that of its own channel and upstream model, unless that is where the
/// request was estimated: then it is the one of the estimate.
pub proof fn law_keys_on_the_first_binding_share_its_pricing(
    executor: Executor,
    ctx: ExecutionContext,
    plan: Seq<Seq<RoutedKey>>,
    first: Option<ChannelModelPricing>,
    rk: RoutedKey,
)
    requires
        plan.len() > 0,
        plan[0].len() > 0,
    ensures
        rk.channel.id == plan[0][0].channel.id && rk.upstream_model_name@
            == plan[0][0].upstream_model_name@ ==> pricing_for_key(executor, ctx, plan, first, rk)
            == first,
        rk.channel.id != plan[0][0].channel.id || rk.upstream_model_name@
            != plan[0][0].upstream_model_name@ ==> pricing_for_key(executor, ctx, plan, first, rk)
            == executor.cache.spec_pricing(ctx.model_id, rk.channel.id, rk.upstream_model_name@),
{
}

} // verus!
