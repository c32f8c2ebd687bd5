//! The execution of a request: which keys are tried one after the other, and what each outcome
//! leads to.
use vstd::prelude::*;

use crate::cache::{
    law_bindings_have_their_candidates, stands_for, CacheData, ConfigCache, RoutingStrategy,
};
use crate::error::ProxyError;
use crate::health::{available, model_available, HealthManager, KeyHealth, SmallModelState};
use crate::router::{
    answers, bucket_of, buckets, buckets_of, drawn_from, group_allows, holds, is_routed_as,
    law_every_allowed_key_is_routed, law_routed_keys_are_allowed, lemma_buckets_agree,
    lemma_drawn_holds, lemma_drawn_none_empty, lemma_priority_order_holds,
    lemma_priority_order_none_empty, none_empty, priority_order, routed, stands_at, verdicts,
    verdicts_cover, Candidate, RoutedKey, Router,
};
use crate::text::{
    contains, contains_text, decimal, law_contained_text_has_a_place, lowercase, option_text,
    push_decimal, same, texts, to_lower,
};
use crate::types::{copy_option, ChannelProvider, KeyConfig};

verus! {

/// The wire format that a client speaks.
#[derive(Debug, Clone, Copy, PartialEq, Eq, Structural)]
pub enum EntryFormat {
    OpenAI,
    Claude,
}

impl EntryFormat {
    pub open spec fn spec_provider(self) -> ChannelProvider {
        match self {
            EntryFormat::OpenAI => ChannelProvider::OpenaiCompatible,
            EntryFormat::Claude => ChannelProvider::Anthropic,
        }
    }

    /// The provider that speaks the same format.
    pub fn provider(&self) -> (r: ChannelProvider)
        ensures
            r == self.spec_provider(),
    {
        match self {
            EntryFormat::OpenAI => ChannelProvider::OpenaiCompatible,
            EntryFormat::Claude => ChannelProvider::Anthropic,
        }
    }
}

/// Who makes a request, and for which model.
#[derive(Debug, PartialEq, Eq)]
pub struct ExecutionContext {
    pub user_id: i64,
    pub token_id: i64,
    pub user_group: String,
    pub model_id: i64,
    pub canonical_name: String,
}

/// The number of bindings that a request is tried on at most.
pub const MAX_BINDING_ATTEMPTS: usize = 3;

/// What a failure of an upstream leads to.
#[derive(Debug, Clone, Copy, PartialEq, Eq, Structural)]
pub enum FailureAction {
    /// Leave the key alone for a while and try the next.
    Cooldown,
    /// Disable the key and try the next.
    Disable,
    /// Answer the client with the error.
    ReturnToClient,
    /// Try the next binding.
    SkipBinding,
}

/// The body of an upstream error says that the context is too long, in whatever case.
pub open spec fn says_context_too_long(body: Seq<char>) -> bool {
    contains_text(lowercase(body), "context_length_exceeded"@)
}

/// Whether the body of an upstream error says that the context is too long.
pub fn body_contains_context_length_exceeded(body: &str) -> (r: bool)
    ensures
        r == says_context_too_long(body@),
{
    contains(to_lower(body).as_str(), "context_length_exceeded")
}

/// What a failure leads to, given whether its body says that the context is too long: an
/// unknown model and a context that is too long rule out the binding, a refused credential the
/// key, and an invalid request is the client's own; all else may pass.
pub open spec fn action_for(e: ProxyError, context_too_long: bool) -> FailureAction {
    match e {
        ProxyError::Upstream { status, .. } => if status == 404 {
            FailureAction::SkipBinding
        } else if status == 400 && context_too_long {
            FailureAction::SkipBinding
        } else if status == 400 || status == 422 {
            FailureAction::ReturnToClient
        } else if status == 401 || status == 403 {
            FailureAction::Disable
        } else {
            FailureAction::Cooldown
        },
        ProxyError::InvalidRequest(_) => FailureAction::ReturnToClient,
        _ => FailureAction::Cooldown,
    }
}

/// What a failure leads to, given whether its body says that the context is too long.
pub fn choose_action(e: &ProxyError, context_too_long: bool) -> (r: FailureAction)
    ensures
        r == action_for(*e, context_too_long),
{
    match e {
        ProxyError::Upstream { status, .. } => {
            if *status == 404 {
                FailureAction::SkipBinding
            } else if *status == 400 && context_too_long {
                FailureAction::SkipBinding
            } else if *status == 400 || *status == 422 {
                FailureAction::ReturnToClient
            } else if *status == 401 || *status == 403 {
                FailureAction::Disable
            } else {
                FailureAction::Cooldown
            }
        },
        ProxyError::InvalidRequest(_) => FailureAction::ReturnToClient,
        _ => FailureAction::Cooldown,
    }
}

/// What a failure leads to.
pub open spec fn spec_classify(e: ProxyError) -> FailureAction {
    match e {
        ProxyError::Upstream { body, .. } => action_for(e, says_context_too_long(body@)),
        _ => action_for(e, false),
    }
}

/// What a failure leads to.
pub fn classify_failure(e: &ProxyError) -> (r: FailureAction)
    ensures
        r == spec_classify(*e),
{
    let context_too_long = match e {
        ProxyError::Upstream { body, .. } => body_contains_context_length_exceeded(body.as_str()),
        _ => false,
    };
    choose_action(e, context_too_long)
}

/// A refused credential disables the key; what may be worth another try only cools it down; an
/// invalid request is answered to the client unless the context was too long.
pub proof fn law_actions_follow_error_classes(e: ProxyError, context_too_long: bool)
    ensures
        e.spec_is_fatal() ==> action_for(e, context_too_long) == FailureAction::Disable,
        e.spec_is_retryable() ==> action_for(e, context_too_long) == FailureAction::Cooldown,
        e.spec_is_invalid_request() && !context_too_long ==> action_for(e, context_too_long)
            == FailureAction::ReturnToClient,
        action_for(e, context_too_long) == FailureAction::Disable ==> e.spec_is_fatal(),
        action_for(e, context_too_long) == FailureAction::ReturnToClient
            ==> e.spec_is_invalid_request(),
{
}

/// What a request brought.
#[derive(Debug, PartialEq, Eq)]
pub struct ExecutionResult {
    pub body: Vec<u8>,
    pub channel_name: String,
    pub key_label: Option<String>,
    pub upstream_status: Option<i64>,
    pub upstream_model_name: String,
    pub quota_cost: i64,
    pub attempted_keys: Vec<String>,
}

/// Why a request failed, and what was tried last.
#[derive(Debug, PartialEq, Eq)]
pub struct ExecutionFailure {
    pub channel_name: Option<String>,
    pub key_label: Option<String>,
    pub attempted_keys: Vec<String>,
    pub upstream_status: Option<i64>,
    pub upstream_model_name: Option<String>,
    pub error: ProxyError,
}

impl ExecutionFailure {
    /// A failure before any key was tried.
    pub fn no_attempt(error: ProxyError) -> (r: Self)
        ensures
            r.channel_name is None,
            r.key_label is None,
            r.attempted_keys@.len() == 0,
            r.upstream_status is None,
            r.upstream_model_name is None,
            r.error == error,
    {
        ExecutionFailure {
            channel_name: None,
            key_label: None,
            attempted_keys: Vec::new(),
            upstream_status: None,
            upstream_model_name: None,
            error,
        }
    }

    /// The failure tells what was tried last, and everything that was tried.
    pub open spec fn tells(
        self,
        rk: RoutedKey,
        attempted: Seq<Seq<char>>,
        upstream_status: Option<i64>,
    ) -> bool {
        &&& self.channel_name == Some(rk.channel.name)
        &&& self.key_label == rk.key.label
        &&& texts(self.attempted_keys@) == attempted
        &&& self.upstream_status == upstream_status
        &&& self.upstream_model_name == Some(rk.upstream_model_name)
    }

    /// A failure after keys were tried, `rk` last.
    pub fn from_last_attempt(
        rk: &RoutedKey,
        attempted: Vec<String>,
        upstream_status: Option<i64>,
        error: ProxyError,
    ) -> (r: Self)
        ensures
            r.tells(*rk, texts(attempted@), upstream_status),
            r.attempted_keys == attempted,
            r.error == error,
    {
        ExecutionFailure {
            channel_name: Some(rk.channel.name.clone()),
            key_label: copy_option(&rk.key.label),
            attempted_keys: attempted,
            upstream_status,
            upstream_model_name: Some(rk.upstream_model_name.clone()),
            error,
        }
    }

    /// The failure is that of a request for which there is no key to try.
    pub open spec fn is_no_candidates(self, model: Seq<char>) -> bool {
        &&& self.channel_name is None
        &&& self.key_label is None
        &&& self.attempted_keys@.len() == 0
        &&& self.upstream_status is None
        &&& self.upstream_model_name is None
        &&& exhausted_error(self.error, model, Seq::empty(), None)
    }

    /// The failure of a request for which there is no key to try.
    pub fn no_candidates(model: &str) -> (r: Self)
        ensures
            r.is_no_candidates(model@),
    {
        let none: Vec<String> = Vec::new();
        proof {
            assert(texts(none@) =~= Seq::empty());
        }
        ExecutionFailure::no_attempt(
            ProxyError::AllKeysExhausted {
                model: model.to_owned(),
                attempted_keys: none,
                last_error: None,
            },
        )
    }
}

/// The error says that all keys of a model were tried in vain, which ones, and what failed last.
pub open spec fn exhausted_error(
    e: ProxyError,
    model_name: Seq<char>,
    attempted: Seq<Seq<char>>,
    last: Option<Seq<char>>,
) -> bool {
    match e {
        ProxyError::AllKeysExhausted { model, attempted_keys, last_error } => {
            &&& model@ == model_name
            &&& texts(attempted_keys@) == attempted
            &&& option_text(last_error) == last
        },
        _ => false,
    }
}

/// The name by which a key is listed among those that were tried.
pub open spec fn label_of(rk: RoutedKey) -> Seq<char> {
    match rk.key.label {
        Some(s) => s@,
        None => "key-"@ + decimal(rk.key.id as int),
    }
}

/// The name by which a key is listed among those that were tried.
pub fn key_label(rk: &RoutedKey) -> (r: String)
    ensures
        r@ == label_of(*rk),
{
    match &rk.key.label {
        Some(s) => s.clone(),
        None => {
            let mut r = "key-".to_owned();
            push_decimal(&mut r, rk.key.id);
            r
        },
    }
}

/// What happened to the key that was to be tried.
#[derive(Debug, PartialEq, Eq)]
pub enum Event {
    /// It was not available.
    Unavailable,
    /// The request could not be put into the channel's format.
    NotPrepared(ProxyError),
    /// There was no answer within so many seconds.
    TimedOut(u64),
    /// The upstream failed.
    Failed(ProxyError),
    /// The upstream answered.
    Succeeded,
}

/// What is to be done to the key that was tried.
#[derive(Debug, Clone, Copy, PartialEq, Eq, Structural)]
pub enum KeyEffect {
    Keep,
    Cooldown,
    Disable,
}

/// What is to be done next.
#[derive(Debug, PartialEq, Eq)]
pub enum Action {
    /// Treat the key that was tried as named, and go on with the next.
    Proceed(KeyEffect),
    /// Refund what was charged, and answer with the failure.
    Refund(ExecutionFailure),
    /// Settle what was charged, and answer with the result.
    Settle,
}

/// How far an execution has come: the binding and the key to be tried next, those that were
/// tried, and what is known of the last failure.
#[verifier::ext_equal]
pub struct Progress {
    pub binding: int,
    pub key: int,
    pub tried: Seq<(int, int)>,
    pub last_error: Option<Seq<char>>,
    pub last_upstream_status: Option<i64>,
}

/// The number of bindings that are tried.
pub open spec fn binding_limit(plan: Seq<Seq<RoutedKey>>) -> int {
    if plan.len() < MAX_BINDING_ATTEMPTS {
        plan.len() as int
    } else {
        MAX_BINDING_ATTEMPTS as int
    }
}

/// The first place from a place on that holds a key, or the end of the bindings to be tried.
pub open spec fn place_from(plan: Seq<Seq<RoutedKey>>, b: int, k: int) -> (int, int)
    decreases binding_limit(plan) - b,
{
    if b >= binding_limit(plan) {
        (binding_limit(plan), 0)
    } else if k < plan[b].len() {
        (b, k)
    } else {
        place_from(plan, b + 1, 0)
    }
}

/// One place comes before another.
pub open spec fn earlier(a: (int, int), b: (int, int)) -> bool {
    a.0 < b.0 || (a.0 == b.0 && a.1 < b.1)
}

/// The place holds a key.
pub open spec fn holds_key(plan: Seq<Seq<RoutedKey>>, b: int, k: int) -> bool {
    0 <= b < binding_limit(plan) && 0 <= k < plan[b].len()
}

/// The next place holds a key or is the end, and the places tried hold keys, come one after the
/// other, and all before the next.
pub open spec fn well_formed(plan: Seq<Seq<RoutedKey>>, p: Progress) -> bool {
    &&& holds_key(plan, p.binding, p.key) || (p.binding == binding_limit(plan) && p.key == 0)
    &&& forall|i: int|
        0 <= i < p.tried.len() ==> holds_key(plan, (#[trigger] p.tried[i]).0, p.tried[i].1)
            && earlier(p.tried[i], (p.binding, p.key))
    &&& forall|i: int, j: int|
        #![trigger p.tried[i], p.tried[j]]
        0 <= i < j < p.tried.len() ==> earlier(p.tried[i], p.tried[j])
}

/// The key to be tried next.
pub open spec fn key_at(plan: Seq<Seq<RoutedKey>>, p: Progress) -> Option<RoutedKey> {
    if p.binding < binding_limit(plan) {
        Some(plan[p.binding][p.key])
    } else {
        None
    }
}

/// Nothing was tried yet.
pub open spec fn at_start(plan: Seq<Seq<RoutedKey>>) -> Progress {
    Progress {
        binding: place_from(plan, 0, 0).0,
        key: place_from(plan, 0, 0).1,
        tried: Seq::empty(),
        last_error: None,
        last_upstream_status: None,
    }
}

/// The progress with another place to go on from.
pub open spec fn moved(plan: Seq<Seq<RoutedKey>>, p: Progress, b: int, k: int) -> Progress {
    Progress { binding: place_from(plan, b, k).0, key: place_from(plan, b, k).1, ..p }
}

/// The status in an error that the upstream answered with.
pub open spec fn upstream_status_of(e: ProxyError) -> Option<i64> {
    match e {
        ProxyError::Upstream { status, .. } => Some(status as i64),
        _ => None,
    }
}

/// The progress after an event.
pub open spec fn after(plan: Seq<Seq<RoutedKey>>, p: Progress, event: Event) -> Progress {
    let tried = Progress { tried: p.tried.push((p.binding, p.key)), ..p };
    match event {
        Event::Unavailable => moved(plan, p, p.binding, p.key + 1),
        Event::NotPrepared(_) => moved(plan, tried, p.binding, p.key + 1),
        Event::Succeeded => moved(plan, tried, p.binding, p.key + 1),
        Event::TimedOut(secs) => moved(
            plan,
            Progress {
                last_error: Some(ProxyError::UpstreamTimeout(secs).spec_message()),
                last_upstream_status: None,
                ..tried
            },
            p.binding,
            p.key + 1,
        ),
        Event::Failed(e) => {
            let failed = Progress {
                last_error: Some(e.spec_message()),
                last_upstream_status: upstream_status_of(e),
                ..tried
            };
            if spec_classify(e) == FailureAction::SkipBinding {
                moved(plan, failed, p.binding + 1, 0)
            } else {
                moved(plan, failed, p.binding, p.key + 1)
            }
        },
    }
}

/// The names of the keys at some places.
pub open spec fn labels(plan: Seq<Seq<RoutedKey>>, places: Seq<(int, int)>) -> Seq<Seq<char>> {
    places.map_values(|t: (int, int)| label_of(plan[t.0][t.1]))
}

/// The action that an event on a key calls for, `p` being the progress after it.
pub open spec fn calls_for(
    plan: Seq<Seq<RoutedKey>>,
    p: Progress,
    rk: RoutedKey,
    event: Event,
    action: Action,
) -> bool {
    match event {
        Event::Unavailable => action == Action::Proceed(KeyEffect::Keep),
        Event::Succeeded => action == Action::Settle,
        Event::TimedOut(_) => action == Action::Proceed(KeyEffect::Cooldown),
        Event::NotPrepared(e) => match action {
            Action::Refund(f) => f.error == e && f.tells(rk, labels(plan, p.tried), None),
            _ => false,
        },
        Event::Failed(e) => match spec_classify(e) {
            FailureAction::Cooldown => action == Action::Proceed(KeyEffect::Cooldown),
            FailureAction::Disable => action == Action::Proceed(KeyEffect::Disable),
            FailureAction::SkipBinding => action == Action::Proceed(KeyEffect::Keep),
            FailureAction::ReturnToClient => match action {
                Action::Refund(f) => f.error == e && f.tells(
                    rk,
                    labels(plan, p.tried),
                    upstream_status_of(e),
                ),
                _ => false,
            },
        },
    }
}

proof fn lemma_place_from(plan: Seq<Seq<RoutedKey>>, b: int, k: int)
    requires
        0 <= b <= binding_limit(plan),
        0 <= k,
    ensures
        ({
            let q = place_from(plan, b, k);
            &&& holds_key(plan, q.0, q.1) || (q.0 == binding_limit(plan) && q.1 == 0)
            &&& b <= q.0 <= binding_limit(plan)
            &&& q.0 == b && b < binding_limit(plan) ==> q.1 == k
        }),
    decreases binding_limit(plan) - b,
{
    if b < binding_limit(plan) && k >= plan[b].len() {
        lemma_place_from(plan, b + 1, 0);
    }
}

/// The first place from a place on lies at it or in a later binding.
pub proof fn lemma_place_advances(plan: Seq<Seq<RoutedKey>>, b: int, k: int)
    requires
        b <= binding_limit(plan),
    ensures
        b <= place_from(plan, b, k).0 <= binding_limit(plan),
        place_from(plan, b, k).0 == b && b < binding_limit(plan) ==> place_from(plan, b, k).1 == k
            && k < plan[b].len(),
    decreases binding_limit(plan) - b,
{
    if b < binding_limit(plan) && k >= plan[b].len() {
        lemma_place_advances(plan, b + 1, 0);
    }
}

proof fn lemma_after_well_formed(plan: Seq<Seq<RoutedKey>>, p: Progress, event: Event)
    requires
        well_formed(plan, p),
        key_at(plan, p) is Some,
    ensures
        well_formed(plan, after(plan, p, event)),
        earlier(
            (p.binding, p.key),
            (after(plan, p, event).binding, after(plan, p, event).key),
        ),
{
    lemma_place_from(plan, p.binding, p.key + 1);
    lemma_place_from(plan, p.binding + 1, 0);
    let q = after(plan, p, event);
    assert forall|i: int| 0 <= i < q.tried.len() implies holds_key(
        plan,
        (#[trigger] q.tried[i]).0,
        q.tried[i].1,
    ) && earlier(q.tried[i], (q.binding, q.key)) by {
        if i < p.tried.len() {
            assert(q.tried[i] == p.tried[i]);
        }
    }
    assert forall|i: int, j: int|
        #![trigger q.tried[i], q.tried[j]]
        0 <= i < j < q.tried.len() implies earlier(q.tried[i], q.tried[j]) by {
        assert(q.tried[i] == p.tried[i]);
        if j < p.tried.len() {
            assert(q.tried[j] == p.tried[j]);
        }
    }
}

/// Every event takes the execution strictly forward, so that it comes to an end, and keeps it
/// well formed.
pub proof fn law_every_event_advances(plan: Seq<Seq<RoutedKey>>, p: Progress, event: Event)
    requires
        well_formed(plan, p),
        key_at(plan, p) is Some,
    ensures
        well_formed(plan, after(plan, p, event)),
        earlier(
            (p.binding, p.key),
            (after(plan, p, event).binding, after(plan, p, event).key),
        ),
{
    lemma_after_well_formed(plan, p, event);
}

/// An execution starts well formed, with nothing tried.
pub proof fn law_start_is_well_formed(plan: Seq<Seq<RoutedKey>>)
    ensures
        well_formed(plan, at_start(plan)),
{
    lemma_place_from(plan, 0, 0);
}

/// The progress after a list of events.
pub open spec fn run(plan: Seq<Seq<RoutedKey>>, events: Seq<Event>) -> Progress
    decreases events.len(),
{
    if events.len() == 0 {
        at_start(plan)
    } else {
        after(plan, run(plan, events.drop_last()), events.last())
    }
}

/// Each of the events found a key to be tried.
pub open spec fn possible(plan: Seq<Seq<RoutedKey>>, events: Seq<Event>) -> bool
    decreases events.len(),
{
    events.len() > 0 ==> {
        &&& possible(plan, events.drop_last())
        &&& key_at(plan, run(plan, events.drop_last())) is Some
    }
}

/// The number of events that were tries.
pub open spec fn tries(events: Seq<Event>) -> nat
    decreases events.len(),
{
    if events.len() == 0 {
        0
    } else if events.last() is Unavailable {
        tries(events.drop_last())
    } else {
        tries(events.drop_last()) + 1
    }
}

/// Whatever happens to an execution, no key is tried twice, keys are tried in the order of the
/// plan, on no more than the allowed number of bindings, and every try is counted.
pub proof fn law_keys_are_tried_once_and_in_order(plan: Seq<Seq<RoutedKey>>, events: Seq<Event>)
    requires
        possible(plan, events),
    ensures
        run(plan, events).tried.len() == tries(events),
        forall|i: int, j: int|
            #![trigger run(plan, events).tried[i], run(plan, events).tried[j]]
            0 <= i < j < run(plan, events).tried.len() ==> earlier(
                run(plan, events).tried[i],
                run(plan, events).tried[j],
            ),
        forall|i: int|
            0 <= i < run(plan, events).tried.len() ==> 0 <= (#[trigger] run(
                plan,
                events,
            ).tried[i]).0 < MAX_BINDING_ATTEMPTS,
{
    lemma_run_well_formed(plan, events);
}

/// The number of keys on the first so many bindings.
pub open spec fn keys_on(plan: Seq<Seq<RoutedKey>>, bindings: int) -> nat
    decreases bindings,
{
    if bindings <= 0 {
        0
    } else {
        keys_on(plan, bindings - 1) + plan[bindings - 1].len()
    }
}

proof fn lemma_place_from_skips_no_key(plan: Seq<Seq<RoutedKey>>, b: int, k: int)
    requires
        0 <= b <= binding_limit(plan),
        0 <= k,
        b < binding_limit(plan) ==> k <= plan[b].len(),
        b == binding_limit(plan) ==> k == 0,
    ensures
        keys_on(plan, place_from(plan, b, k).0) + place_from(plan, b, k).1 >= keys_on(plan, b) + k,
    decreases binding_limit(plan) - b,
{
    if b < binding_limit(plan) && k >= plan[b].len() {
        lemma_place_from_skips_no_key(plan, b + 1, 0);
    }
}

proof fn lemma_events_pass_keys(plan: Seq<Seq<RoutedKey>>, events: Seq<Event>)
    requires
        possible(plan, events),
    ensures
        events.len() <= keys_on(plan, run(plan, events).binding) + run(plan, events).key,
    decreases events.len(),
{
    if events.len() == 0 {
        lemma_place_from_skips_no_key(plan, 0, 0);
    } else {
        let p = run(plan, events.drop_last());
        lemma_run_well_formed(plan, events.drop_last());
        lemma_events_pass_keys(plan, events.drop_last());
        lemma_place_from_skips_no_key(plan, p.binding, p.key + 1);
        lemma_place_from_skips_no_key(plan, p.binding + 1, 0);
    }
}

proof fn lemma_keys_on_grows(plan: Seq<Seq<RoutedKey>>, fewer: int, more: int)
    requires
        0 <= fewer <= more,
    ensures
        keys_on(plan, fewer) <= keys_on(plan, more),
    decreases more,
{
    if fewer < more {
        lemma_keys_on_grows(plan, fewer, more - 1);
    }
}

/// An execution is over after at most as many events as there are keys on the bindings that are
/// tried.
pub proof fn law_retries_are_bounded(plan: Seq<Seq<RoutedKey>>, events: Seq<Event>)
    requires
        possible(plan, events),
    ensures
        events.len() <= keys_on(plan, binding_limit(plan)),
        binding_limit(plan) <= MAX_BINDING_ATTEMPTS,
{
    lemma_events_pass_keys(plan, events);
    lemma_run_well_formed(plan, events);
    let p = run(plan, events);
    if holds_key(plan, p.binding, p.key) {
        lemma_keys_on_grows(plan, p.binding + 1, binding_limit(plan));
    }
}

proof fn lemma_run_well_formed(plan: Seq<Seq<RoutedKey>>, events: Seq<Event>)
    requires
        possible(plan, events),
    ensures
        well_formed(plan, run(plan, events)),
        run(plan, events).tried.len() == tries(events),
    decreases events.len(),
{
    if events.len() == 0 {
        lemma_place_from(plan, 0, 0);
    } else {
        let front = events.drop_last();
        lemma_run_well_formed(plan, front);
        lemma_after_well_formed(plan, run(plan, front), events.last());
    }
}

/// After a failure that rules out the binding, none of its keys is tried any more.
pub proof fn law_skipped_binding_is_left(plan: Seq<Seq<RoutedKey>>, p: Progress, e: ProxyError)
    requires
        well_formed(plan, p),
        key_at(plan, p) is Some,
        spec_classify(e) == FailureAction::SkipBinding,
    ensures
        after(plan, p, Event::Failed(e)).binding > p.binding,
{
    lemma_place_from(plan, p.binding + 1, 0);
}

/// Unless a failure rules out the binding, all its keys come before the next binding: the next key
/// is the one that follows in it, as long as there is one.
pub proof fn law_binding_is_tried_to_its_end(
    plan: Seq<Seq<RoutedKey>>,
    p: Progress,
    event: Event,
)
    requires
        well_formed(plan, p),
        key_at(plan, p) is Some,
        p.key + 1 < plan[p.binding].len(),
        event matches Event::Failed(e) ==> spec_classify(e) != FailureAction::SkipBinding,
    ensures
        after(plan, p, event).binding == p.binding,
        after(plan, p, event).key == p.key + 1,
{
}

impl ExecutionFailure {
    /// The failure of an execution that has tried all there was to try: it tells of the keys and
    /// of the last try, where there was one.
    pub open spec fn reports_exhaustion(
        self,
        plan: Seq<Seq<RoutedKey>>,
        p: Progress,
        model: Seq<char>,
    ) -> bool {
        &&& exhausted_error(self.error, model, labels(plan, p.tried), p.last_error)
        &&& p.tried.len() > 0 ==> self.tells(
            plan[p.tried.last().0][p.tried.last().1],
            labels(plan, p.tried),
            p.last_upstream_status,
        )
        &&& p.tried.len() == 0 ==> {
            &&& self.channel_name is None
            &&& self.key_label is None
            &&& self.attempted_keys@.len() == 0
            &&& self.upstream_status is None
            &&& self.upstream_model_name is None
        }
    }
}

/// The execution of a request on a plan of keys.
pub struct Execution {
    candidates: Vec<Vec<RoutedKey>>,
    binding: usize,
    key: usize,
    tried: Vec<(usize, usize)>,
    last_error: Option<String>,
    last_upstream_status: Option<i64>,
}

/// The places as mathematical numbers.
pub open spec fn places(v: Seq<(usize, usize)>) -> Seq<(int, int)> {
    v.map_values(|t: (usize, usize)| (t.0 as int, t.1 as int))
}

/// The key belongs to the first binding's channel under the same model name.
pub open spec fn shares_first_pricing(plan: Seq<Seq<RoutedKey>>, rk: RoutedKey) -> bool {
    &&& plan.len() > 0
    &&& plan[0].len() > 0
    &&& rk.channel.id == plan[0][0].channel.id
    &&& rk.upstream_model_name@ == plan[0][0].upstream_model_name@
}

impl Execution {
    /// The keys to be tried, binding by binding.
    pub closed spec fn plan(&self) -> Seq<Seq<RoutedKey>> {
        buckets(self.candidates@)
    }

    /// How far the execution has come.
    pub closed spec fn progress(&self) -> Progress {
        Progress {
            binding: self.binding as int,
            key: self.key as int,
            tried: places(self.tried@),
            last_error: option_text(self.last_error),
            last_upstream_status: self.last_upstream_status,
        }
    }

    pub open spec fn wf(&self) -> bool {
        well_formed(self.plan(), self.progress())
    }

    /// The first place from a place on that holds a key.
    fn seek(&self, from_binding: usize, from_key: usize) -> (r: (usize, usize))
        requires
            from_binding <= binding_limit(self.plan()),
        ensures
            (r.0 as int, r.1 as int) == place_from(
                self.plan(),
                from_binding as int,
                from_key as int,
            ),
    {
        let limit: usize = if self.candidates.len() < MAX_BINDING_ATTEMPTS {
            self.candidates.len()
        } else {
            MAX_BINDING_ATTEMPTS
        };
        let mut b: usize = from_binding;
        let mut k: usize = from_key;
        while b < limit && k >= self.candidates[b].len()
            invariant
                limit == binding_limit(self.plan()),
                limit <= self.candidates@.len(),
                b <= limit,
                place_from(self.plan(), b as int, k as int) == place_from(
                    self.plan(),
                    from_binding as int,
                    from_key as int,
                ),
            ensures
                limit == binding_limit(self.plan()),
                limit <= self.candidates@.len(),
                b <= limit,
                b < limit ==> k < self.candidates@[b as int]@.len(),
                place_from(self.plan(), b as int, k as int) == place_from(
                    self.plan(),
                    from_binding as int,
                    from_key as int,
                ),
            decreases limit - b,
        {
            proof {
                assert(self.plan()[b as int] == self.candidates@[b as int]@);
            }
            b = b + 1;
            k = 0;
        }
        if b < limit {
            proof {
                assert(self.plan()[b as int] == self.candidates@[b as int]@);
            }
            (b, k)
        } else {
            (limit, 0)
        }
    }

    /// An execution on the given keys, with nothing tried yet.
    pub fn start(candidates: Vec<Vec<RoutedKey>>) -> (r: Self)
        ensures
            r.wf(),
            r.plan() == buckets(candidates@),
            r.progress() == at_start(buckets(candidates@)),
    {
        let fresh = Execution {
            candidates,
            binding: 0,
            key: 0,
            tried: Vec::new(),
            last_error: None,
            last_upstream_status: None,
        };
        let place = fresh.seek(0, 0);
        let r = Execution { binding: place.0, key: place.1, ..fresh };
        proof {
            lemma_place_from(r.plan(), 0, 0);
            assert(r.progress() =~= at_start(buckets(candidates@)));
        }
        r
    }

    /// The key to be tried next; none where all were tried.
    pub fn next_key(&self) -> (r: Option<&RoutedKey>)
        requires
            self.wf(),
        ensures
            match r {
                Some(rk) => key_at(self.plan(), self.progress()) == Some(*rk),
                None => key_at(self.plan(), self.progress()) is None,
            },
    {
        let limit: usize = if self.candidates.len() < MAX_BINDING_ATTEMPTS {
            self.candidates.len()
        } else {
            MAX_BINDING_ATTEMPTS
        };
        if self.binding < limit {
            proof {
                assert(self.plan()[self.binding as int] == self.candidates@[self.binding as int]@);
            }
            Some(&self.candidates[self.binding][self.key])
        } else {
            None
        }
    }

    /// The names of the keys that were tried.
    pub fn attempted(&self) -> (r: Vec<String>)
        requires
            self.wf(),
        ensures
            texts(r@) == labels(self.plan(), self.progress().tried),
    {
        let mut r: Vec<String> = Vec::new();
        let mut i: usize = 0;
        let ghost plan = self.plan();
        let ghost all = self.progress().tried;
        while i < self.tried.len()
            invariant
                self.wf(),
                plan == self.plan(),
                all == self.progress().tried,
                i <= self.tried@.len(),
                r@.len() == i,
                forall|j: int| 0 <= j < i ==> (#[trigger] r@[j])@ == label_of(plan[all[j].0][all[j].1]),
            decreases self.tried@.len() - i,
        {
            let place = self.tried[i];
            proof {
                assert(all[i as int] == (place.0 as int, place.1 as int));
                assert(holds_key(plan, all[i as int].0, all[i as int].1));
                assert(plan[place.0 as int] == self.candidates@[place.0 as int]@);
            }
            r.push(key_label(&self.candidates[place.0][place.1]));
            i = i + 1;
        }
        proof {
            assert(texts(r@) =~= labels(plan, all));
        }
        r
    }

    /// Counts the key at hand among those that were tried, notes the failure where there was
    /// one, and goes on from another place.
    fn proceed(
        &mut self,
        tried: bool,
        failure: Option<(String, Option<i64>)>,
        next_binding: usize,
        next_key: usize,
    )
        requires
            next_binding <= binding_limit(old(self).plan()),
        ensures
            final(self).plan() == old(self).plan(),
            final(self).progress() == ({
                let p = old(self).progress();
                let q = if tried {
                    (Progress { tried: p.tried.push((p.binding, p.key)), ..p })
                } else {
                    p
                };
                let f = match failure {
                    Some(e) => (Progress {
                        last_error: Some(e.0@),
                        last_upstream_status: e.1,
                        ..q
                    }),
                    None => q,
                };
                moved(old(self).plan(), f, next_binding as int, next_key as int)
            }),
    {
        let ghost before = self.progress();
        let place = self.seek(next_binding, next_key);
        if tried {
            let ghost past = self.tried@;
            let here = (self.binding, self.key);
            self.tried.push(here);
            proof {
                assert(places(self.tried@) =~= places(past).push((here.0 as int, here.1 as int)));
            }
        }
        if let Some(e) = failure {
            self.last_error = Some(e.0);
            self.last_upstream_status = e.1;
        }
        self.binding = place.0;
        self.key = place.1;
    }

    /// Takes notice of what happened to the key that was to be tried, and says what is to be done.
    pub fn step(&mut self, event: Event) -> (r: Action)
        requires
            old(self).wf(),
            key_at(old(self).plan(), old(self).progress()) is Some,
        ensures
            final(self).wf(),
            final(self).plan() == old(self).plan(),
            final(self).progress() == after(old(self).plan(), old(self).progress(), event),
            calls_for(
                old(self).plan(),
                final(self).progress(),
                key_at(old(self).plan(), old(self).progress())->0,
                event,
                r,
            ),
    {
        let ghost plan = self.plan();
        let ghost before = self.progress();
        proof {
            lemma_after_well_formed(plan, before, event);
            assert(plan[self.binding as int] == self.candidates@[self.binding as int]@);
        }
        let b: usize = self.binding;
        let k: usize = self.key;
        let rk = self.candidates[b][k].clone();
        let len: usize = self.candidates[b].len();
        let after_key: usize = if k < len {
            k + 1
        } else {
            len
        };
        match event {
            Event::Unavailable => {
                self.proceed(false, None, b, after_key);
                Action::Proceed(KeyEffect::Keep)
            },
            Event::Succeeded => {
                self.proceed(true, None, b, after_key);
                Action::Settle
            },
            Event::NotPrepared(e) => {
                self.proceed(true, None, b, after_key);
                let attempted = self.attempted();
                Action::Refund(ExecutionFailure::from_last_attempt(&rk, attempted, None, e))
            },
            Event::TimedOut(secs) => {
                let text = ProxyError::UpstreamTimeout(secs).message();
                self.proceed(true, Some((text, None)), b, after_key);
                Action::Proceed(KeyEffect::Cooldown)
            },
            Event::Failed(e) => {
                let text = e.message();
                let status: Option<i64> = match &e {
                    ProxyError::Upstream { status, .. } => Some(*status as i64),
                    _ => None,
                };
                match classify_failure(&e) {
                    FailureAction::SkipBinding => {
                        self.proceed(true, Some((text, status)), b + 1, 0);
                        Action::Proceed(KeyEffect::Keep)
                    },
                    FailureAction::Disable => {
                        self.proceed(true, Some((text, status)), b, after_key);
                        Action::Proceed(KeyEffect::Disable)
                    },
                    FailureAction::Cooldown => {
                        self.proceed(true, Some((text, status)), b, after_key);
                        Action::Proceed(KeyEffect::Cooldown)
                    },
                    FailureAction::ReturnToClient => {
                        self.proceed(true, Some((text, status)), b, after_key);
                        let attempted = self.attempted();
                        Action::Refund(
                            ExecutionFailure::from_last_attempt(&rk, attempted, status, e),
                        )
                    },
                }
            },
        }
    }

    /// The failure of an execution that has no key left to try. What was charged is to be
    /// refunded.
    pub fn exhausted(&self, model: &str) -> (r: ExecutionFailure)
        requires
            self.wf(),
        ensures
            r.reports_exhaustion(self.plan(), self.progress(), model@),
    {
        let error = ProxyError::AllKeysExhausted {
            model: model.to_owned(),
            attempted_keys: self.attempted(),
            last_error: copy_option(&self.last_error),
        };
        let n: usize = self.tried.len();
        if n == 0 {
            return ExecutionFailure::no_attempt(error);
        }
        let place = self.tried[n - 1];
        proof {
            let all = self.progress().tried;
            assert(all[n - 1] == (place.0 as int, place.1 as int));
            assert(holds_key(self.plan(), all[n - 1].0, all[n - 1].1));
            assert(self.plan()[place.0 as int] == self.candidates@[place.0 as int]@);
        }
        let attempted = self.attempted();
        ExecutionFailure::from_last_attempt(
            &self.candidates[place.0][place.1],
            attempted,
            self.last_upstream_status,
            error,
        )
    }

    /// The result of an execution whose last try succeeded.
    pub fn result(&self, body: Vec<u8>, upstream_status: i64, quota_cost: i64) -> (r:
        ExecutionResult)
        requires
            self.wf(),
            self.progress().tried.len() > 0,
        ensures
            ({
                let rk = self.plan()[self.progress().tried.last().0][self.progress().tried.last().1];
                &&& r.body == body
                &&& r.channel_name == rk.channel.name
                &&& r.key_label == rk.key.label
                &&& r.upstream_status == Some(upstream_status)
                &&& r.upstream_model_name == rk.upstream_model_name
                &&& r.quota_cost == quota_cost
                &&& texts(r.attempted_keys@) == labels(self.plan(), self.progress().tried)
            }),
    {
        let n: usize = self.tried.len();
        let place = self.tried[n - 1];
        proof {
            let all = self.progress().tried;
            assert(all[n - 1] == (place.0 as int, place.1 as int));
            assert(holds_key(self.plan(), all[n - 1].0, all[n - 1].1));
            assert(self.plan()[place.0 as int] == self.candidates@[place.0 as int]@);
        }
        let attempted_keys = self.attempted();
        let rk = &self.candidates[place.0][place.1];
        ExecutionResult {
            body,
            channel_name: rk.channel.name.clone(),
            key_label: copy_option(&rk.key.label),
            upstream_status: Some(upstream_status),
            upstream_model_name: rk.upstream_model_name.clone(),
            quota_cost,
            attempted_keys,
        }
    }

    /// Whether a key belongs to the first binding's channel under the same model name, so that
    /// the pricing looked up for the estimate is its own.
    pub fn uses_first_pricing(&self, rk: &RoutedKey) -> (r: bool)
        ensures
            r == shares_first_pricing(self.plan(), *rk),
    {
        if self.candidates.len() == 0 {
            return false;
        }
        proof {
            assert(self.plan()[0] == self.candidates@[0]@);
        }
        if self.candidates[0].len() == 0 {
            return false;
        }
        let first = &self.candidates[0][0];
        rk.channel.id == first.channel.id && same(
            rk.upstream_model_name.as_str(),
            first.upstream_model_name.as_str(),
        )
    }
}

/// What `available` says of the keys of a candidate, one by one.
pub open spec fn key_mask(keys: Map<i64, KeyHealth>, c: Candidate, now: i64) -> Seq<bool> {
    Seq::new(c.1@.len(), |j: int| available(keys, c.1@[j].id, c.2@, now))
}

/// What `available` says of the keys of all candidates.
pub open spec fn key_masks(keys: Map<i64, KeyHealth>, cs: Seq<Candidate>, now: i64) -> Seq<
    Seq<bool>,
> {
    cs.map_values(|c: Candidate| key_mask(keys, c, now))
}

/// Whether the upstream models of the candidates have quota left.
pub open spec fn quota_verdicts(
    models: Map<(i64, Seq<char>), SmallModelState>,
    cs: Seq<Candidate>,
) -> Seq<bool> {
    cs.map_values(|c: Candidate| model_available(models, c.0.id, c.2@))
}

/// The keys that the mask keeps.
pub open spec fn kept(keys: Seq<KeyConfig>, mask: Seq<bool>) -> Seq<KeyConfig>
    decreases keys.len(),
{
    if keys.len() == 0 {
        Seq::empty()
    } else {
        let front = kept(keys.drop_last(), mask.take(keys.len() - 1));
        if mask[keys.len() - 1] {
            front.push(keys.last())
        } else {
            front
        }
    }
}

/// Dropping keys beforehand gives the same bucket as leaving them out.
proof fn lemma_kept_bucket(
    c: Candidate,
    d: Candidate,
    keys: Seq<KeyConfig>,
    mask: Seq<bool>,
    trues: Seq<bool>,
)
    requires
        forall|k: KeyConfig| #[trigger] routed(c, k) == routed(d, k),
        trues.len() == kept(keys, mask).len(),
        forall|i: int| 0 <= i < trues.len() ==> trues[i],
    ensures
        bucket_of(d, kept(keys, mask), trues) == bucket_of(c, keys, mask),
    decreases keys.len(),
{
    if keys.len() > 0 {
        let front = kept(keys.drop_last(), mask.take(keys.len() - 1));
        if mask[keys.len() - 1] {
            let all = kept(keys, mask);
            assert(all.drop_last() =~= front);
            lemma_kept_bucket(
                c,
                d,
                keys.drop_last(),
                mask.take(keys.len() - 1),
                trues.take(all.len() - 1),
            );
            assert(trues[all.len() - 1]);
            assert(routed(c, keys.last()) == routed(d, keys.last()));
        } else {
            lemma_kept_bucket(c, d, keys.drop_last(), mask.take(keys.len() - 1), trues);
        }
    }
}

/// A candidate with only those keys that are available for its model.
fn with_available_keys(health: &HealthManager, c: Candidate, now: i64) -> (r: Candidate)
    ensures
        r.0 == c.0,
        r.1@ == kept(c.1@, key_mask(health.keys(), c, now)),
        r.2 == c.2,
        r.3 == c.3,
        r.4 == c.4,
{
    let (channel, keys, name, priority, weight) = c;
    let ghost all = keys@;
    let ghost mask = key_mask(health.keys(), c, now);
    let mut rest = keys;
    let mut out: Vec<KeyConfig> = Vec::new();
    let ghost mut done: int = 0;
    proof {
        assert(all.take(0) =~= Seq::empty());
    }
    while rest.len() > 0
        invariant
            c.1@ == all,
            name == c.2,
            mask == key_mask(health.keys(), c, now),
            0 <= done <= all.len(),
            rest@ == all.skip(done),
            out@ == kept(all.take(done), mask.take(done)),
        ensures
            done == all.len(),
            out@ == kept(all.take(done), mask.take(done)),
        decreases rest@.len(),
    {
        let key = rest.remove(0);
        let usable = health.is_available(key.id, name.as_str(), now);
        proof {
            assert(all.skip(done).remove(0) =~= all.skip(done + 1));
            assert(all.take(done + 1).drop_last() =~= all.take(done));
            assert(mask.take(done + 1).take(done) =~= mask.take(done));
            assert(mask[done] == usable);
            done = done + 1;
        }
        if usable {
            out.push(key);
        }
    }
    proof {
        assert(all.take(done) =~= all);
        assert(mask.take(done) =~= mask);
    }
    (channel, out, name, priority, weight)
}

/// The execution of requests: the state of the keys, the configuration, and how long an upstream
/// may take.
pub struct Executor {
    pub health: HealthManager,
    pub cache: ConfigCache,
    pub upstream_timeout_secs: u64,
    pub streaming_timeout_secs: u64,
}

impl Executor {
    pub fn new(
        health: HealthManager,
        cache: ConfigCache,
        upstream_timeout_secs: u64,
        streaming_timeout_secs: u64,
    ) -> (r: Self)
        ensures
            r.health == health,
            r.cache == cache,
            r.upstream_timeout_secs == upstream_timeout_secs,
            r.streaming_timeout_secs == streaming_timeout_secs,
    {
        Executor { health, cache, upstream_timeout_secs, streaming_timeout_secs }
    }

    /// `cs` are the candidates that the configuration has for a model.
    pub open spec fn candidates_for(self, model_id: i64, cs: Seq<Candidate>) -> bool {
        match self.cache.data {
            Some(d) => if d.bindings@.contains_key(model_id) {
                d.candidates_of(d.bindings@[model_id]@, cs)
            } else {
                cs.len() == 0
            },
            None => cs.len() == 0,
        }
    }

    /// The strategy that the configuration has for a model.
    pub open spec fn strategy_for(self, model_id: i64) -> RoutingStrategy {
        match self.cache.data {
            Some(d) => d.spec_strategy(model_id),
            None => RoutingStrategy::Priority,
        }
    }

    /// The buckets of keys for candidates: those that serve the user's group and have quota left,
    /// with the keys that are available for their model.
    pub open spec fn usable_buckets(
        self,
        cs: Seq<Candidate>,
        user_group: Seq<char>,
        now: i64,
    ) -> Seq<Seq<RoutedKey>> {
        buckets_of(
            cs,
            user_group,
            quota_verdicts(self.health.models(), cs),
            key_masks(self.health.keys(), cs, now),
        )
    }

    /// `r` are the keys to be tried for a request, in an order of the model's strategy.
    pub open spec fn selects(self, ctx: ExecutionContext, now: i64, r: Seq<Seq<RoutedKey>>) -> bool {
        exists|cs: Seq<Candidate>| #[trigger]
            self.candidates_for(ctx.model_id, cs) && match self.strategy_for(ctx.model_id) {
                RoutingStrategy::Priority => r == priority_order(
                    self.usable_buckets(cs, ctx.user_group@, now),
                ),
                RoutingStrategy::LoadBalance => drawn_from(
                    priority_order(self.usable_buckets(cs, ctx.user_group@, now)),
                    r,
                ),
            }
    }

    /// The keys to be tried for a request, binding by binding.
    pub fn select_keys(&self, ctx: &ExecutionContext, now: i64) -> (r: Vec<Vec<RoutedKey>>)
        ensures
            self.selects(*ctx, now, buckets(r@)),
    {
        let candidates = self.cache.get_for_model(ctx.model_id);
        let ghost cs = candidates@;
        let strategy = self.cache.routing_strategy_for(ctx.model_id);
        let health = &self.health;
        let mut rest = candidates;
        let mut usable: Vec<Candidate> = Vec::new();
        while rest.len() > 0
            invariant
                *health == self.health,
                usable@.len() <= cs.len(),
                rest@ == cs.skip(usable@.len() as int),
                forall|i: int|
                    0 <= i < usable@.len() ==> {
                        &&& (#[trigger] usable@[i]).0 == cs[i].0
                        &&& usable@[i].1@ == kept(
                            cs[i].1@,
                            key_mask(self.health.keys(), cs[i], now),
                        )
                        &&& usable@[i].2 == cs[i].2
                        &&& usable@[i].3 == cs[i].3
                        &&& usable@[i].4 == cs[i].4
                    },
            ensures
                usable@.len() == cs.len(),
                forall|i: int|
                    0 <= i < usable@.len() ==> {
                        &&& (#[trigger] usable@[i]).0 == cs[i].0
                        &&& usable@[i].1@ == kept(
                            cs[i].1@,
                            key_mask(self.health.keys(), cs[i], now),
                        )
                        &&& usable@[i].2 == cs[i].2
                        &&& usable@[i].3 == cs[i].3
                        &&& usable@[i].4 == cs[i].4
                    },
            decreases rest@.len(),
        {
            let c = rest.remove(0);
            let ghost n = usable@.len() as int;
            proof {
                assert(cs.skip(n).remove(0) =~= cs.skip(n + 1));
            }
            usable.push(with_available_keys(health, c, now));
        }
        let ghost ds = usable@;
        let any_key = |_id: i64| -> (b: bool)
            ensures
                b,
            { true };
        let has_quota = |channel_id: i64, upstream: &str| -> (b: bool)
            ensures
                b == model_available(health.models(), channel_id, upstream@),
            { health.is_small_model_available(channel_id, upstream) };
        let r = Router::route(usable, ctx.user_group.as_str(), any_key, strategy, has_quota);
        proof {
            let group = ctx.user_group@;
            let (quota, masks) = choose|quota: Seq<bool>, masks: Seq<Seq<bool>>|
                {
                    &&& #[trigger] verdicts(ds, group, any_key, has_quota, quota, masks)
                    &&& match strategy {
                        RoutingStrategy::Priority => buckets(r@) == priority_order(
                            buckets_of(ds, group, quota, masks),
                        ),
                        RoutingStrategy::LoadBalance => drawn_from(
                            priority_order(buckets_of(ds, group, quota, masks)),
                            buckets(r@),
                        ),
                    }
                };
            assert(verdicts(ds, group, any_key, has_quota, quota, masks));
            let quota2 = quota_verdicts(self.health.models(), cs);
            let masks2 = key_masks(self.health.keys(), cs, now);
            assert forall|i: int|
                0 <= i < cs.len() && group_allows((#[trigger] ds[i]).0.group@, group) implies {
                &&& quota[i] == quota2[i]
                &&& quota[i] ==> bucket_of(ds[i], ds[i].1@, masks[i]) == bucket_of(
                    cs[i],
                    cs[i].1@,
                    masks2[i],
                )
            } by {
                assert(answers(has_quota, ds[i].0.id, ds[i].2@, quota[i]));
                if quota[i] {
                    assert forall|j: int| 0 <= j < masks[i].len() implies masks[i][j] by {
                        assert(call_ensures(any_key, (ds[i].1@[j].id,), masks[i][j]));
                    }
                    lemma_kept_bucket(cs[i], ds[i], cs[i].1@, masks2[i], masks[i]);
                }
            }
            lemma_buckets_agree(ds, quota, masks, cs, quota2, masks2, group);
            assert(self.candidates_for(ctx.model_id, cs));
        }
        r
    }
}

/// No binding is left without a key to be tried.
pub proof fn law_selected_bindings_have_keys(
    executor: Executor,
    ctx: ExecutionContext,
    now: i64,
    r: Seq<Seq<RoutedKey>>,
)
    requires
        executor.selects(ctx, now, r),
    ensures
        none_empty(r),
{
    let cs = choose|cs: Seq<Candidate>| #[trigger]
        executor.candidates_for(ctx.model_id, cs) && match executor.strategy_for(ctx.model_id) {
            RoutingStrategy::Priority => r == priority_order(
                executor.usable_buckets(cs, ctx.user_group@, now),
            ),
            RoutingStrategy::LoadBalance => drawn_from(
                priority_order(executor.usable_buckets(cs, ctx.user_group@, now)),
                r,
            ),
        };
    let quota = quota_verdicts(executor.health.models(), cs);
    let masks = key_masks(executor.health.keys(), cs, now);
    let bs = executor.usable_buckets(cs, ctx.user_group@, now);
    assert(verdicts_cover(cs, ctx.user_group@, quota, masks));
    assert forall|i: int| 0 <= i < bs.len() implies (#[trigger] bs[i]).len() > 0 by {
        law_routed_keys_are_allowed(cs, ctx.user_group@, quota, masks, i, 0);
    }
    lemma_priority_order_none_empty(bs);
    if executor.strategy_for(ctx.model_id) == RoutingStrategy::LoadBalance {
        lemma_drawn_none_empty(priority_order(bs), r);
    }
}

/// A failure rules out its binding only where the upstream does not know the model, or where it
/// finds the context too long.
pub proof fn law_bindings_are_ruled_out_by_their_model(e: ProxyError)
    ensures
        spec_classify(e) == FailureAction::SkipBinding <==> (e matches ProxyError::Upstream {
            status,
            body,
        } && (status == 404 || (status == 400 && says_context_too_long(body@)))),
{
}

/// A failure disables its key only where the upstream refuses the key, and is the client's only
/// where the request is at fault. After every other one that does not rule out the binding, the
/// key is left alone for a while.
pub proof fn law_other_failures_cool_the_key_down(e: ProxyError)
    ensures
        spec_classify(e) == FailureAction::Disable <==> (e matches ProxyError::Upstream {
            status,
            ..
        } && (status == 401 || status == 403)),
        spec_classify(e) == FailureAction::ReturnToClient <==> {
            ||| e is InvalidRequest
            ||| e matches ProxyError::Upstream { status, body } && (status == 422 || (status == 400
                && !says_context_too_long(body@)))
        },
        e matches ProxyError::Upstream { status, .. } ==> (status != 400 && status != 401 && status
            != 403 && status != 404 && status != 422) ==> spec_classify(e)
            == FailureAction::Cooldown,
        e !is Upstream && e !is InvalidRequest ==> spec_classify(e) == FailureAction::Cooldown,
{
}

/// A body says that the context is too long exactly where it holds the name of that error, in
/// capitals or small letters.
pub proof fn law_context_error_is_recognized(body: Seq<char>)
    ensures
        says_context_too_long(body) <==> exists|a: Seq<char>, b: Seq<char>|
            lowercase(body) == #[trigger] (a + "context_length_exceeded"@ + b),
{
    law_contained_text_has_a_place(lowercase(body), "context_length_exceeded"@);
}

/// What is done after an attempt: an answer is settled, a key that did not answer in time, was too
/// busy or failed is left alone for a while, one that was refused is disabled, one whose upstream
/// lacks the model is kept, and what the client did wrong is refunded and told to the client.
pub proof fn law_actions_fit_their_events(
    plan: Seq<Seq<RoutedKey>>,
    p: Progress,
    rk: RoutedKey,
    event: Event,
    action: Action,
)
    requires
        calls_for(plan, p, rk, event, action),
    ensures
        action is Settle <==> event is Succeeded,
        event is Unavailable ==> action == Action::Proceed(KeyEffect::Keep),
        event is TimedOut ==> action == Action::Proceed(KeyEffect::Cooldown),
        event matches Event::NotPrepared(e) ==> (action matches Action::Refund(f) && f.error == e),
        event matches Event::Failed(ProxyError::Upstream { status, body }) ==> {
            &&& status == 401 || status == 403 ==> action == Action::Proceed(KeyEffect::Disable)
            &&& status == 404 ==> action == Action::Proceed(KeyEffect::Keep)
            &&& status == 400 && says_context_too_long(body@) ==> action == Action::Proceed(
                KeyEffect::Keep,
            )
            &&& status == 422 || (status == 400 && !says_context_too_long(body@)) ==> (
            action matches Action::Refund(f) && f.error == event->Failed_0 && f.upstream_status
                == Some(status as i64))
            &&& status != 400 && status != 401 && status != 403 && status != 404 && status != 422
                ==> action == Action::Proceed(KeyEffect::Cooldown)
        },
        event matches Event::Failed(e) ==> {
            &&& e is InvalidRequest ==> (action matches Action::Refund(f) && f.error == e
                && f.upstream_status is None)
            &&& e !is Upstream && e !is InvalidRequest ==> action == Action::Proceed(
                KeyEffect::Cooldown,
            )
        },
        action matches Action::Refund(f) ==> {
            &&& f.channel_name == Some(rk.channel.name)
            &&& f.key_label == rk.key.label
            &&& f.upstream_model_name == Some(rk.upstream_model_name)
            &&& f.attempted_keys@.len() == p.tried.len()
        },
{
    if let Action::Refund(f) = action {
        assert(texts(f.attempted_keys@).len() == labels(plan, p.tried).len());
    }
}

/// The keys that are tried are those of the first three bindings, or of all where there are fewer.
pub proof fn law_bindings_are_limited(plan: Seq<Seq<RoutedKey>>)
    ensures
        binding_limit(plan) <= 3,
        binding_limit(plan) <= plan.len(),
        binding_limit(plan) == 3 || binding_limit(plan) == plan.len(),
{
}

/// An execution begins with the first key of the first binding that has one, and has tried
/// nothing.
pub proof fn law_start_is_the_first_key(plan: Seq<Seq<RoutedKey>>, b: int)
    requires
        0 <= b < 3,
        b < plan.len(),
        plan[b].len() > 0,
        forall|i: int| 0 <= i < b ==> (#[trigger] plan[i]).len() == 0,
    ensures
        at_start(plan).binding == b,
        at_start(plan).key == 0,
        key_at(plan, at_start(plan)) == Some(plan[b][0]),
        at_start(plan).tried.len() == 0,
        at_start(plan).last_error is None,
        at_start(plan).last_upstream_status is None,
{
    lemma_first_place(plan, 0, b);
}

proof fn lemma_first_place(plan: Seq<Seq<RoutedKey>>, from: int, b: int)
    requires
        0 <= from <= b < binding_limit(plan),
        plan[b].len() > 0,
        forall|i: int| from <= i < b ==> (#[trigger] plan[i]).len() == 0,
    ensures
        place_from(plan, from, 0) == (b, 0int),
    decreases b - from,
{
    if from < b {
        assert(plan[from].len() == 0);
        lemma_first_place(plan, from + 1, b);
    }
}

/// After the last key of a binding, and after a failure that rules out its binding, comes the
/// first key of the next binding that has one; where none is left, the execution has ended.
pub proof fn law_next_binding_follows(plan: Seq<Seq<RoutedKey>>, p: Progress, event: Event, b: int)
    requires
        well_formed(plan, p),
        key_at(plan, p) is Some,
        p.binding < b <= binding_limit(plan),
        b < binding_limit(plan) ==> plan[b].len() > 0,
        forall|i: int| p.binding < i < b ==> (#[trigger] plan[i]).len() == 0,
        p.key + 1 == plan[p.binding].len() || (event matches Event::Failed(
            ProxyError::Upstream { status, body },
        ) && (status == 404 || (status == 400 && says_context_too_long(body@)))),
    ensures
        after(plan, p, event).binding == b,
        after(plan, p, event).key == 0,
        b == binding_limit(plan) ==> key_at(plan, after(plan, p, event)) is None,
{
    if b < binding_limit(plan) {
        lemma_first_place(plan, p.binding + 1, b);
    } else {
        lemma_no_place(plan, p.binding + 1);
    }
}

proof fn lemma_no_place(plan: Seq<Seq<RoutedKey>>, from: int)
    requires
        0 <= from <= binding_limit(plan),
        forall|i: int| from <= i < binding_limit(plan) ==> (#[trigger] plan[i]).len() == 0,
    ensures
        place_from(plan, from, 0) == (binding_limit(plan), 0int),
    decreases binding_limit(plan) - from,
{
    if from < binding_limit(plan) {
        assert(plan[from].len() == 0);
        lemma_no_place(plan, from + 1);
    }
}

/// Every attempt is recorded, a key that was passed over is not. The last failure is remembered
/// with its message and, where the upstream answered, its status.
pub proof fn law_attempts_are_recorded(plan: Seq<Seq<RoutedKey>>, p: Progress, event: Event)
    ensures
        event is Unavailable ==> after(plan, p, event).tried == p.tried,
        event !is Unavailable ==> after(plan, p, event).tried == p.tried.push((p.binding, p.key)),
        event matches Event::Failed(e) ==> {
            &&& after(plan, p, event).last_error == Some(e.spec_message())
            &&& e matches ProxyError::Upstream { status, .. } ==> after(
                plan,
                p,
                event,
            ).last_upstream_status == Some(status as i64)
            &&& e !is Upstream ==> after(plan, p, event).last_upstream_status is None
        },
        event matches Event::TimedOut(secs) ==> {
            &&& after(plan, p, event).last_error == Some(
                ProxyError::UpstreamTimeout(secs).spec_message(),
            )
            &&& after(plan, p, event).last_upstream_status is None
        },
        event !is Failed && event !is TimedOut ==> {
            &&& after(plan, p, event).last_error == p.last_error
            &&& after(plan, p, event).last_upstream_status == p.last_upstream_status
        },
{
}

/// An execution whose keys are all spent answers with the model, every key that it tried and the
/// last failure, and names the channel and the key that it tried last.
pub proof fn law_exhaustion_tells_what_was_tried(
    f: ExecutionFailure,
    plan: Seq<Seq<RoutedKey>>,
    p: Progress,
    model_name: Seq<char>,
)
    requires
        f.reports_exhaustion(plan, p, model_name),
    ensures
        f.error matches ProxyError::AllKeysExhausted { model, attempted_keys, last_error } && model@
            == model_name && attempted_keys@.len() == p.tried.len() && option_text(last_error)
            == p.last_error,
        f.attempted_keys@.len() == p.tried.len(),
        p.tried.len() > 0 ==> {
            let last = plan[p.tried.last().0][p.tried.last().1];
            &&& f.channel_name == Some(last.channel.name)
            &&& f.key_label == last.key.label
            &&& f.upstream_model_name == Some(last.upstream_model_name)
            &&& f.upstream_status == p.last_upstream_status
        },
        forall|i: int|
            0 <= i < p.tried.len() ==> (#[trigger] f.attempted_keys@[i])@ == label_of(
                plan[p.tried[i].0][p.tried[i].1],
            ),
{
    assert(texts(f.attempted_keys@) =~= labels(plan, p.tried));
    assert(texts(f.attempted_keys@).len() == labels(plan, p.tried).len());
    if let ProxyError::AllKeysExhausted { model, attempted_keys, last_error } = f.error {
        assert(texts(attempted_keys@).len() == labels(plan, p.tried).len());
    }
    assert forall|i: int| 0 <= i < p.tried.len() implies (#[trigger] f.attempted_keys@[i])@
        == label_of(plan[p.tried[i].0][p.tried[i].1]) by {
        assert(texts(f.attempted_keys@)[i] == labels(plan, p.tried)[i]);
    }
}

/// A key goes by its label, and by its number where it has none.
pub proof fn law_keys_go_by_their_label(rk: RoutedKey)
    ensures
        rk.key.label matches Some(s) ==> label_of(rk) == s@,
        rk.key.label is None ==> label_of(rk) == "key-"@ + decimal(rk.key.id as int),
{
}

/// Of a candidate's keys exactly those are kept that are available for its upstream model.
pub proof fn law_available_keys_are_kept(
    keys: Map<i64, KeyHealth>,
    c: Candidate,
    now: i64,
    key: KeyConfig,
)
    ensures
        kept(c.1@, key_mask(keys, c, now)).contains(key) <==> c.1@.contains(key) && available(
            keys,
            key.id,
            c.2@,
            now,
        ),
{
    let mask = key_mask(keys, c, now);
    lemma_kept_contains(c.1@, mask, key);
    if c.1@.contains(key) && available(keys, key.id, c.2@, now) {
        let i = choose|i: int| 0 <= i < c.1@.len() && c.1@[i] == key;
        assert(mask[i]);
    }
}

proof fn lemma_kept_contains(keys: Seq<KeyConfig>, mask: Seq<bool>, key: KeyConfig)
    requires
        mask.len() == keys.len(),
    ensures
        kept(keys, mask).contains(key) <==> exists|i: int|
            0 <= i < keys.len() && #[trigger] keys[i] == key && mask[i],
    decreases keys.len(),
{
    if keys.len() > 0 {
        let n = keys.len() - 1;
        let front = kept(keys.drop_last(), mask.take(n));
        lemma_kept_contains(keys.drop_last(), mask.take(n), key);
        if kept(keys, mask).contains(key) {
            if front.contains(key) {
                let i = choose|i: int|
                    0 <= i < n && #[trigger] keys.drop_last()[i] == key && mask.take(n)[i];
                assert(keys[i] == key && mask[i]);
            } else {
                let i = choose|i: int| 0 <= i < kept(keys, mask).len() && kept(keys, mask)[i] == key;
                assert(mask[n]);
                if i < front.len() {
                    assert(front[i] == key);
                }
                assert(keys[n] == key);
            }
        }
        if exists|i: int| 0 <= i < keys.len() && #[trigger] keys[i] == key && mask[i] {
            let i = choose|i: int| 0 <= i < keys.len() && #[trigger] keys[i] == key && mask[i];
            if i < n {
                assert(keys.drop_last()[i] == key && mask.take(n)[i]);
                let j = choose|j: int| 0 <= j < front.len() && front[j] == key;
                assert(kept(keys, mask)[j] == key);
            } else {
                assert(kept(keys, mask).last() == key);
            }
        }
    }
}

/// The place found from a place on is the first one there that holds a key.
pub proof fn lemma_place_is_next(plan: Seq<Seq<RoutedKey>>, from: int, key: int, b: int, k: int)
    requires
        0 <= from <= binding_limit(plan),
        0 <= key,
        holds_key(plan, b, k),
        !earlier((b, k), (from, key)),
    ensures
        !earlier((b, k), place_from(plan, from, key)),
    decreases binding_limit(plan) - from,
{
    if from < binding_limit(plan) && key >= plan[from].len() {
        lemma_place_is_next(plan, from + 1, 0, b, k);
    }
}

/// The candidates behind a selection.
pub open spec fn selects_from(
    executor: Executor,
    ctx: ExecutionContext,
    now: i64,
    r: Seq<Seq<RoutedKey>>,
    cs: Seq<Candidate>,
) -> bool {
    executor.candidates_for(ctx.model_id, cs) && match executor.strategy_for(ctx.model_id) {
        RoutingStrategy::Priority => r == priority_order(
            executor.usable_buckets(cs, ctx.user_group@, now),
        ),
        RoutingStrategy::LoadBalance => drawn_from(
            priority_order(executor.usable_buckets(cs, ctx.user_group@, now)),
            r,
        ),
    }
}

proof fn lemma_selection_holds(
    executor: Executor,
    ctx: ExecutionContext,
    now: i64,
    r: Seq<Seq<RoutedKey>>,
    cs: Seq<Candidate>,
    rk: RoutedKey,
)
    requires
        selects_from(executor, ctx, now, r, cs),
    ensures
        holds(r, rk) <==> holds(executor.usable_buckets(cs, ctx.user_group@, now), rk),
{
    let bs = executor.usable_buckets(cs, ctx.user_group@, now);
    lemma_priority_order_holds(bs, rk);
    if executor.strategy_for(ctx.model_id) == RoutingStrategy::LoadBalance {
        lemma_drawn_holds(priority_order(bs), r, rk);
    }
}

/// Every key that is selected is available for its upstream model, on a channel that serves the
/// user's group and whose quota for that model is not exhausted.
pub proof fn law_selected_keys_are_usable(
    executor: Executor,
    ctx: ExecutionContext,
    now: i64,
    r: Seq<Seq<RoutedKey>>,
    i: int,
    j: int,
)
    requires
        executor.selects(ctx, now, r),
        0 <= i < r.len(),
        0 <= j < r[i].len(),
    ensures
        available(executor.health.keys(), r[i][j].key.id, r[i][j].upstream_model_name@, now),
        group_allows(r[i][j].channel.group@, ctx.user_group@),
        model_available(
            executor.health.models(),
            r[i][j].channel.id,
            r[i][j].upstream_model_name@,
        ),
{
    let cs = choose|cs: Seq<Candidate>| #[trigger]
        executor.candidates_for(ctx.model_id, cs) && match executor.strategy_for(ctx.model_id) {
            RoutingStrategy::Priority => r == priority_order(
                executor.usable_buckets(cs, ctx.user_group@, now),
            ),
            RoutingStrategy::LoadBalance => drawn_from(
                priority_order(executor.usable_buckets(cs, ctx.user_group@, now)),
                r,
            ),
        };
    let rk = r[i][j];
    let quota = quota_verdicts(executor.health.models(), cs);
    let masks = key_masks(executor.health.keys(), cs, now);
    let bs = executor.usable_buckets(cs, ctx.user_group@, now);
    assert(verdicts_cover(cs, ctx.user_group@, quota, masks));
    assert(selects_from(executor, ctx, now, r, cs));
    assert(stands_at(r, rk, i, j));
    lemma_selection_holds(executor, ctx, now, r, cs, rk);
    let (b, k) = choose|b: int, k: int| stands_at(bs, rk, b, k);
    law_routed_keys_are_allowed(cs, ctx.user_group@, quota, masks, b, k);
    let (c, m) = choose|c: int, m: int|
        is_routed_as(cs, ctx.user_group@, quota, masks, bs[b][k], c, m);
    assert(masks[c][m] == available(executor.health.keys(), cs[c].1@[m].id, cs[c].2@, now));
    assert(quota[c] == model_available(executor.health.models(), cs[c].0.id, cs[c].2@));
}

/// Every key that can be used is selected: for each binding of the model to a known channel, each
/// key of the channel that is available for the upstream model, where the channel serves the
/// user's group and the quota for that model is not exhausted.
pub proof fn law_usable_keys_are_selected(
    executor: Executor,
    ctx: ExecutionContext,
    now: i64,
    r: Seq<Seq<RoutedKey>>,
    data: CacheData,
    b: int,
    k: int,
)
    requires
        executor.selects(ctx, now, r),
        executor.cache.data == Some(data),
        data.bindings@.contains_key(ctx.model_id),
        0 <= b < data.bindings@[ctx.model_id]@.len(),
        ({
            let binding = data.bindings@[ctx.model_id]@[b];
            &&& exists|n: int|
                0 <= n < data.channels@.len() && (#[trigger] data.channels@[n]).id
                    == binding.channel_id
            &&& data.keys@.contains_key(binding.channel_id)
            &&& 0 <= k < data.keys@[binding.channel_id]@.len()
            &&& forall|n: int|
                0 <= n < data.channels@.len() && (#[trigger] data.channels@[n]).id
                    == binding.channel_id ==> group_allows(
                    data.channels@[n].group@,
                    ctx.user_group@,
                )
            &&& model_available(
                executor.health.models(),
                binding.channel_id,
                binding.upstream_model_name@,
            )
            &&& available(
                executor.health.keys(),
                data.keys@[binding.channel_id]@[k].id,
                binding.upstream_model_name@,
                now,
            )
        }),
    ensures
        ({
            let binding = data.bindings@[ctx.model_id]@[b];
            exists|rk: RoutedKey| #[trigger]
                holds(r, rk) && rk.key == data.keys@[binding.channel_id]@[k] && rk.channel.id
                    == binding.channel_id && rk.upstream_model_name == binding.upstream_model_name
                    && rk.binding_priority == binding.priority && rk.weight == binding.weight
        }),
{
    let cs = choose|cs: Seq<Candidate>| #[trigger]
        executor.candidates_for(ctx.model_id, cs) && match executor.strategy_for(ctx.model_id) {
            RoutingStrategy::Priority => r == priority_order(
                executor.usable_buckets(cs, ctx.user_group@, now),
            ),
            RoutingStrategy::LoadBalance => drawn_from(
                priority_order(executor.usable_buckets(cs, ctx.user_group@, now)),
                r,
            ),
        };
    let bindings = data.bindings@[ctx.model_id]@;
    let binding = bindings[b];
    law_bindings_have_their_candidates(data, bindings, cs);
    let c = choose|c: int| 0 <= c < cs.len() && stands_for(#[trigger] cs[c], binding, data.keys@);
    let quota = quota_verdicts(executor.health.models(), cs);
    let masks = key_masks(executor.health.keys(), cs, now);
    let bs = executor.usable_buckets(cs, ctx.user_group@, now);
    assert(verdicts_cover(cs, ctx.user_group@, quota, masks));
    assert(data.channels@.contains(cs[c].0));
    let n = choose|n: int| 0 <= n < data.channels@.len() && data.channels@[n] == cs[c].0;
    assert(data.channels@[n].id == binding.channel_id);
    let rk = routed(cs[c], cs[c].1@[k]);
    assert(masks[c][k] == available(executor.health.keys(), cs[c].1@[k].id, cs[c].2@, now));
    assert(quota[c] == model_available(executor.health.models(), cs[c].0.id, cs[c].2@));
    assert(is_routed_as(cs, ctx.user_group@, quota, masks, rk, c, k));
    law_every_allowed_key_is_routed(cs, ctx.user_group@, quota, masks, c, k);
    assert(holds(bs, rk));
    assert(selects_from(executor, ctx, now, r, cs));
    lemma_selection_holds(executor, ctx, now, r, cs, rk);
}

/// A failure without any candidate names the model, and nothing that was tried.
pub proof fn law_missing_candidates_are_told(f: ExecutionFailure, model_name: Seq<char>)
    requires
        f.is_no_candidates(model_name),
    ensures
        f.error matches ProxyError::AllKeysExhausted { model, attempted_keys, last_error } && model@
            == model_name && attempted_keys@.len() == 0 && last_error is None,
        f.channel_name is None,
        f.key_label is None,
        f.attempted_keys@.len() == 0,
        f.upstream_status is None,
        f.upstream_model_name is None,
{
    if let ProxyError::AllKeysExhausted { model, attempted_keys, last_error } = f.error {
        assert(texts(attempted_keys@).len() == 0);
    }
}

/// A client of either format is served without translation by the provider of that format.
pub proof fn law_formats_have_their_provider(entry: EntryFormat)
    ensures
        entry.spec_provider() == ChannelProvider::OpenaiCompatible <==> entry
            == EntryFormat::OpenAI,
        entry.spec_provider() == ChannelProvider::Anthropic <==> entry == EntryFormat::Claude,
{
}

} // verus!
