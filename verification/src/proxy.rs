//! The way of a proxied request: its admission, its answer, and its row in the request log.
use vstd::prelude::*;

use crate::error::ProxyError;
use crate::executor::{EntryFormat, ExecutionContext, ExecutionFailure, ExecutionResult};
use crate::json::{json_at, json_item, option_item, JsonItem, JsonView};
use crate::normalizer::{lookup, normal_form, Normalizer};
use crate::request::{response_translation, translate_response_back, Translation};
use crate::text::{concat3, join, join_texts, option_text, texts};
use crate::types::{copy_option, AuthContext, ChannelProvider, TokenConfig, Usage};

verus! {

/// A request that may be executed.
#[derive(Debug, PartialEq, Eq)]
pub struct Admission {
    pub client_model: String,
    pub context: ExecutionContext,
    pub is_stream: bool,
}

/// Why a request may not be executed. One that was refused for its model is logged under the
/// model's canonical name.
#[derive(Debug, PartialEq, Eq)]
pub struct Refusal {
    pub error: ProxyError,
    pub logged_model: Option<String>,
}

/// The error is that of an invalid request with the given text.
pub open spec fn is_invalid_request(e: ProxyError, text: Seq<char>) -> bool {
    match e {
        ProxyError::InvalidRequest(m) => m@ == text,
        _ => false,
    }
}

/// The error is that of an unknown model.
pub open spec fn is_model_not_found(e: ProxyError, name: Seq<char>) -> bool {
    match e {
        ProxyError::ModelNotFound(m) => m@ == name,
        _ => false,
    }
}

/// The answer to a request for a model, given the fields `model` and `stream` of its body: the
/// model has to be named, known, and allowed for the token.
pub open spec fn admission_of(
    model: Option<JsonView>,
    stream: Option<JsonView>,
    auth: AuthContext,
    models: Map<Seq<char>, (i64, Seq<char>)>,
    r: Result<Admission, Refusal>,
) -> bool {
    match model {
        Some(JsonView::Text(name)) => match lookup(models, normal_form(name)) {
            None => match r {
                Err(refusal) => is_model_not_found(refusal.error, name)
                    && refusal.logged_model is None,
                Ok(_) => false,
            },
            Some((model_id, canonical)) => if !auth.token.spec_allows_model(canonical) {
                match r {
                    Err(refusal) => is_invalid_request(
                        refusal.error,
                        "model '"@ + canonical + "' is not allowed for this token"@,
                    ) && option_text(refusal.logged_model) == Some(canonical),
                    Ok(_) => false,
                }
            } else {
                match r {
                    Ok(a) => {
                        &&& a.client_model@ == name
                        &&& a.context.user_id == auth.user.id
                        &&& a.context.token_id == auth.token.id
                        &&& a.context.user_group == auth.user.group
                        &&& a.context.model_id == model_id
                        &&& a.context.canonical_name@ == canonical
                        &&& a.is_stream == (stream == Some(JsonView::Bool(true)))
                    },
                    Err(_) => false,
                }
            },
        },
        _ => match r {
            Err(refusal) => is_invalid_request(refusal.error, "missing 'model' field"@)
                && refusal.logged_model is None,
            Ok(_) => false,
        },
    }
}

/// Decides on a request by the fields `model` and `stream` of its body.
pub fn decide_admission(
    model: Option<JsonItem>,
    stream: Option<JsonItem>,
    auth: &AuthContext,
    normalizer: &Normalizer,
) -> (r: Result<Admission, Refusal>)
    ensures
        admission_of(option_item(model), option_item(stream), *auth, normalizer@, r),
{
    let name = match model {
        Some(JsonItem::Text(s)) => s,
        _ => {
            return Err(
                Refusal {
                    error: ProxyError::InvalidRequest("missing 'model' field".to_owned()),
                    logged_model: None,
                },
            );
        },
    };
    let (model_id, canonical_name) = match normalizer.resolve(name.as_str()) {
        Some(p) => p,
        None => {
            return Err(Refusal { error: ProxyError::ModelNotFound(name), logged_model: None });
        },
    };
    if !auth.token.allows_model(canonical_name.as_str()) {
        let text = concat3(
            "model '",
            canonical_name.as_str(),
            "' is not allowed for this token",
        );
        return Err(
            Refusal {
                error: ProxyError::InvalidRequest(text),
                logged_model: Some(canonical_name),
            },
        );
    }
    let is_stream = match stream {
        Some(JsonItem::Bool(b)) => b,
        _ => false,
    };
    Ok(
        Admission {
            client_model: name,
            context: ExecutionContext {
                user_id: auth.user.id,
                token_id: auth.token.id,
                user_group: auth.user.group.clone(),
                model_id,
                canonical_name,
            },
            is_stream,
        },
    )
}

/// Decides on a request by its body.
pub fn proxy_request(body: &str, auth: &AuthContext, normalizer: &Normalizer) -> (r: Result<
    Admission,
    Refusal,
>)
    ensures
        admission_of(
            json_item(body@, "/model"@),
            json_item(body@, "/stream"@),
            *auth,
            normalizer@,
            r,
        ),
{
    decide_admission(json_at(body, "/model"), json_at(body, "/stream"), auth, normalizer)
}

/// The status that an error is answered with: its own where it is one of HTTP, 500 otherwise.
pub fn answer_status(e: &ProxyError) -> (r: u16)
    ensures
        r == if 100 <= e.spec_http_status() < 1000 {
            e.spec_http_status()
        } else {
            500
        },
{
    let status = e.http_status();
    if 100 <= status && status < 1000 {
        status
    } else {
        500
    }
}

/// A row of the request log.
#[derive(Debug, PartialEq, Eq)]
pub struct LogEntry {
    pub request_id: String,
    pub client_ip: Option<String>,
    pub method: String,
    pub path: String,
    pub client_model: Option<String>,
    pub normalized_model: Option<String>,
    pub channel_name: Option<String>,
    pub key_label: Option<String>,
    pub attempted_keys: Option<String>,
    pub upstream_status: Option<i64>,
    pub upstream_model: Option<String>,
    pub response_status: i64,
    pub duration_ms: i64,
    pub stream: bool,
    pub error_message: Option<String>,
    pub user_id: Option<i64>,
    pub token_id: Option<i64>,
    pub quota_cost: i64,
}

/// What is known of a request before it is executed.
#[derive(Debug, PartialEq, Eq)]
pub struct RequestInfo {
    pub request_id: String,
    pub entry: EntryFormat,
    pub client_ip: Option<String>,
    pub client_model: Option<String>,
    pub normalized_model: String,
    pub user_id: i64,
    pub token_id: i64,
    pub stream: bool,
}

/// The path at which requests of a format come in.
pub open spec fn path_of(entry: EntryFormat) -> Seq<char> {
    match entry {
        EntryFormat::OpenAI => "/v1/chat/completions"@,
        EntryFormat::Claude => "/v1/messages"@,
    }
}

/// The path at which requests of a format come in.
pub fn entry_path(entry: EntryFormat) -> (r: &'static str)
    ensures
        r@ == path_of(entry),
{
    match entry {
        EntryFormat::OpenAI => "/v1/chat/completions",
        EntryFormat::Claude => "/v1/messages",
    }
}

/// The names joined by commas; nothing where there are none.
pub open spec fn csv_of(names: Seq<Seq<char>>) -> Option<Seq<char>> {
    if names.len() == 0 {
        None
    } else {
        Some(join(names, ","@))
    }
}

/// The names of the keys that were tried, joined by commas; nothing where there are none.
pub fn attempted_csv(names: &Vec<String>) -> (r: Option<String>)
    ensures
        option_text(r) == csv_of(texts(names@)),
{
    if names.len() == 0 {
        None
    } else {
        Some(join_texts(names, ","))
    }
}

impl LogEntry {
    /// The row says whose request it was and what it asked for.
    pub open spec fn describes(self, info: RequestInfo, duration_ms: i64) -> bool {
        &&& self.request_id == info.request_id
        &&& self.client_ip == info.client_ip
        &&& self.method@ == "POST"@
        &&& self.path@ == path_of(info.entry)
        &&& self.client_model == info.client_model
        &&& self.normalized_model == Some(info.normalized_model)
        &&& self.duration_ms == duration_ms
        &&& self.stream == info.stream
        &&& self.user_id == Some(info.user_id)
        &&& self.token_id == Some(info.token_id)
    }

    /// The row says which channel, key and model served the request, and what was tried.
    pub open spec fn names(
        self,
        channel_name: Option<String>,
        key_label: Option<String>,
        attempted: Option<Seq<char>>,
        upstream_status: Option<i64>,
        upstream_model: Option<String>,
    ) -> bool {
        &&& self.channel_name == channel_name
        &&& self.key_label == key_label
        &&& option_text(self.attempted_keys) == attempted
        &&& self.upstream_status == upstream_status
        &&& self.upstream_model == upstream_model
    }

    fn blank(info: &RequestInfo, duration_ms: i64) -> (r: Self)
        ensures
            r.describes(*info, duration_ms),
            r.names(None, None, None, None, None),
            r.response_status == 200,
            r.error_message is None,
            r.quota_cost == 0,
    {
        LogEntry {
            request_id: info.request_id.clone(),
            client_ip: copy_option(&info.client_ip),
            method: "POST".to_owned(),
            path: entry_path(info.entry).to_owned(),
            client_model: copy_option(&info.client_model),
            normalized_model: Some(info.normalized_model.clone()),
            channel_name: None,
            key_label: None,
            attempted_keys: None,
            upstream_status: None,
            upstream_model: None,
            response_status: 200,
            duration_ms,
            stream: info.stream,
            error_message: None,
            user_id: Some(info.user_id),
            token_id: Some(info.token_id),
            quota_cost: 0,
        }
    }

    /// The row of a request that was refused before any key was tried.
    pub fn refused(info: &RequestInfo, duration_ms: i64, error: &ProxyError) -> (r: Self)
        ensures
            r.describes(*info, duration_ms),
            r.names(None, None, None, None, None),
            r.response_status == error.spec_http_status(),
            option_text(r.error_message) == Some(error.spec_message()),
            r.quota_cost == 0,
    {
        let mut r = LogEntry::blank(info, duration_ms);
        r.response_status = error.http_status() as i64;
        r.error_message = Some(error.message());
        r
    }

    /// The row of a request that failed.
    pub fn failed(info: &RequestInfo, duration_ms: i64, failure: &ExecutionFailure) -> (r: Self)
        ensures
            r.describes(*info, duration_ms),
            r.names(
                failure.channel_name,
                failure.key_label,
                csv_of(texts(failure.attempted_keys@)),
                failure.upstream_status,
                failure.upstream_model_name,
            ),
            r.response_status == failure.error.spec_http_status(),
            option_text(r.error_message) == Some(failure.error.spec_message()),
            r.quota_cost == 0,
    {
        let mut r = LogEntry::blank(info, duration_ms);
        r.channel_name = copy_option(&failure.channel_name);
        r.key_label = copy_option(&failure.key_label);
        r.attempted_keys = attempted_csv(&failure.attempted_keys);
        r.upstream_status = failure.upstream_status;
        r.upstream_model = copy_option(&failure.upstream_model_name);
        r.response_status = failure.error.http_status() as i64;
        r.error_message = Some(failure.error.message());
        r
    }

    /// The row of a request that succeeded.
    pub fn succeeded(info: &RequestInfo, duration_ms: i64, result: &ExecutionResult) -> (r: Self)
        ensures
            r.describes(*info, duration_ms),
            r.names(
                Some(result.channel_name),
                result.key_label,
                csv_of(texts(result.attempted_keys@)),
                result.upstream_status,
                Some(result.upstream_model_name),
            ),
            r.response_status == 200,
            r.error_message is None,
            r.quota_cost == result.quota_cost,
    {
        let mut r = LogEntry::blank(info, duration_ms);
        r.channel_name = Some(result.channel_name.clone());
        r.key_label = copy_option(&result.key_label);
        r.attempted_keys = attempted_csv(&result.attempted_keys);
        r.upstream_status = result.upstream_status;
        r.upstream_model = Some(result.upstream_model_name.clone());
        r.quota_cost = result.quota_cost;
        r
    }

    /// The row of a stream that came to its end: its path is left empty, and of the keys that were
    /// tried it names the one that served it.
    pub fn streamed(
        info: &RequestInfo,
        duration_ms: i64,
        channel_name: &String,
        key_label: &Option<String>,
        upstream_model_name: &String,
        quota_cost: i64,
    ) -> (r: Self)
        ensures
            r.request_id == info.request_id,
            r.client_ip == info.client_ip,
            r.method@ == "POST"@,
            r.path@.len() == 0,
            r.client_model == info.client_model,
            r.normalized_model == Some(info.normalized_model),
            r.names(
                Some(*channel_name),
                *key_label,
                option_text(*key_label),
                None,
                Some(*upstream_model_name),
            ),
            r.response_status == 200,
            r.duration_ms == duration_ms,
            r.stream,
            r.error_message is None,
            r.user_id == Some(info.user_id),
            r.token_id == Some(info.token_id),
            r.quota_cost == quota_cost,
    {
        let mut r = LogEntry::blank(info, duration_ms);
        r.path = String::new();
        r.channel_name = Some(channel_name.clone());
        r.key_label = copy_option(key_label);
        r.attempted_keys = copy_option(key_label);
        r.upstream_model = Some(upstream_model_name.clone());
        r.stream = true;
        r.quota_cost = quota_cost;
        r
    }
}

/// What is done with the chunks of a stream.
#[derive(Debug, Clone, Copy, PartialEq, Eq, Structural)]
pub enum StreamMode {
    /// They are passed on as they are.
    Forward,
    /// They are translated as they are.
    TranslateChunks,
    /// They are cut into events, which are translated.
    TranslateEvents,
}

/// A stream is passed on where client and provider speak the same format. For a client of the
/// OpenAI format its chunks are translated, for one of the Anthropic format its events.
pub open spec fn stream_mode_of(entry: EntryFormat, provider: ChannelProvider) -> StreamMode {
    if entry.spec_provider() == provider {
        StreamMode::Forward
    } else {
        match entry {
            EntryFormat::OpenAI => StreamMode::TranslateChunks,
            EntryFormat::Claude => StreamMode::TranslateEvents,
        }
    }
}

/// What is done with the chunks of a stream.
pub fn stream_mode(entry: EntryFormat, provider: ChannelProvider) -> (r: StreamMode)
    ensures
        r == stream_mode_of(entry, provider),
        r == StreamMode::Forward <==> response_translation(entry, provider)
            == Translation::Passthrough,
{
    match translate_response_back(entry, provider) {
        Translation::Passthrough => StreamMode::Forward,
        Translation::ClaudeToOpenai => StreamMode::TranslateChunks,
        Translation::OpenaiToClaude => StreamMode::TranslateEvents,
    }
}

/// The usage reported by the chunks of a stream so far.
#[derive(Debug, Clone, Copy, PartialEq, Eq, Structural)]
pub struct StreamUsage {
    pub total: Usage,
}

impl StreamUsage {
    pub fn new() -> (r: Self)
        ensures
            r.total == (Usage { prompt_tokens: 0, completion_tokens: 0, total_tokens: 0 }),
    {
        StreamUsage { total: Usage { prompt_tokens: 0, completion_tokens: 0, total_tokens: 0 } }
    }

    /// Adds what a chunk reports, where the sums fit their counters; otherwise nothing changes.
    pub fn absorb(&mut self, reported: Option<Usage>) -> (r: bool)
        ensures
            match reported {
                None => r && *final(self) == *old(self),
                Some(u) => {
                    &&& r == old(self).total.sum_fits(u)
                    &&& r ==> final(self).total.prompt_tokens == old(self).total.prompt_tokens
                        + u.prompt_tokens && final(self).total.completion_tokens == old(
                        self,
                    ).total.completion_tokens + u.completion_tokens
                        && final(self).total.total_tokens == old(self).total.total_tokens
                        + u.total_tokens
                    &&& !r ==> *final(self) == *old(self)
                },
            },
    {
        match reported {
            None => true,
            Some(u) => {
                let fits = u.prompt_tokens <= u64::MAX - self.total.prompt_tokens
                    && u.completion_tokens <= u64::MAX - self.total.completion_tokens
                    && u.total_tokens <= u64::MAX - self.total.total_tokens;
                if fits {
                    let mut sum = self.total;
                    sum.add(&u);
                    self.total = sum;
                }
                fits
            },
        }
    }
}

/// The models that a token may list: all where its limits are not enabled or not set, none where
/// they are empty, and otherwise those that they name, ASCII case aside.
pub open spec fn may_list(token: TokenConfig, name: Seq<char>) -> bool {
    !token.model_limits_enabled || match token.model_limits {
        Some(limits) => listed_ignoring_case(limits@, name),
        None => true,
    }
}

/// `name` is one of `names`, ASCII case aside.
pub open spec fn listed_ignoring_case(names: Seq<String>, name: Seq<char>) -> bool {
    exists|i: int|
        0 <= i < names.len() && crate::text::eq_ignore_ascii_case((#[trigger] names[i])@, name)
}

/// Whether `name` is one of `names`, ASCII case aside.
fn is_listed_ignoring_case(names: &Vec<String>, name: &str) -> (r: bool)
    ensures
        r == listed_ignoring_case(names@, name@),
{
    let mut i: usize = 0;
    while i < names.len()
        invariant
            i <= names@.len(),
            forall|j: int|
                0 <= j < i ==> !crate::text::eq_ignore_ascii_case(
                    (#[trigger] names@[j])@,
                    name@,
                ),
        decreases names@.len() - i,
    {
        if crate::text::same_ignoring_ascii_case(names[i].as_str(), name) {
            return true;
        }
        i = i + 1;
    }
    false
}

/// Whether a token may list a model.
pub fn can_list(token: &TokenConfig, name: &str) -> (r: bool)
    ensures
        r == may_list(*token, name@),
{
    if !token.model_limits_enabled {
        return true;
    }
    match &token.model_limits {
        None => true,
        Some(limits) => is_listed_ignoring_case(limits, name),
    }
}

/// The names that a token may list, in their order.
pub open spec fn listed_of(names: Seq<String>, token: TokenConfig) -> Seq<String>
    decreases names.len(),
{
    if names.len() == 0 {
        Seq::empty()
    } else {
        let front = listed_of(names.drop_last(), token);
        if may_list(token, names.last()@) {
            front.push(names.last())
        } else {
            front
        }
    }
}

/// The names of the models that a token may list.
pub fn list_models(names: Vec<String>, token: &TokenConfig) -> (r: Vec<String>)
    ensures
        r@ == listed_of(names@, *token),
{
    let ghost all = names@;
    let mut rest = names;
    let mut out: Vec<String> = Vec::new();
    let ghost mut done: int = 0;
    proof {
        assert(all.take(0) =~= Seq::empty());
    }
    while rest.len() > 0
        invariant
            0 <= done <= all.len(),
            rest@ == all.skip(done),
            out@ == listed_of(all.take(done), *token),
        ensures
            done == all.len(),
            out@ == listed_of(all.take(done), *token),
        decreases rest@.len(),
    {
        let name = rest.remove(0);
        proof {
            assert(all.skip(done).remove(0) =~= all.skip(done + 1));
            assert(all.take(done + 1).drop_last() =~= all.take(done));
            done = done + 1;
        }
        if can_list(token, name.as_str()) {
            out.push(name);
        }
    }
    proof {
        assert(all.take(done) =~= all);
    }
    out
}

/// What a token is shown are models that there are and that it may list, and every such model is
/// shown.
pub proof fn law_listing_filters(names: Seq<String>, token: TokenConfig, name: String)
    ensures
        listed_of(names, token).contains(name) <==> names.contains(name) && may_list(token, name@),
    decreases names.len(),
{
    if names.len() > 0 {
        let front = names.drop_last();
        law_listing_filters(front, token, name);
        let shown = listed_of(front, token);
        assert(names.contains(name) <==> front.contains(name) || names.last() == name) by {
            if front.contains(name) {
                let i = choose|i: int| 0 <= i < front.len() && front[i] == name;
                assert(names[i] == name);
            }
            if names.contains(name) {
                let i = choose|i: int| 0 <= i < names.len() && names[i] == name;
                if i < front.len() {
                    assert(front[i] == name);
                }
            }
        }
        assert(shown.push(names.last()).contains(name) <==> shown.contains(name) || names.last()
            == name) by {
            let more = shown.push(names.last());
            assert(more[shown.len() as int] == names.last());
            if shown.contains(name) {
                let i = choose|i: int| 0 <= i < shown.len() && shown[i] == name;
                assert(more[i] == name);
            }
        }
    }
}

/// Every model that a token may use is among those that it may list.
pub proof fn law_allowed_models_are_listed(token: TokenConfig, name: Seq<char>)
    requires
        token.spec_allows_model(name),
    ensures
        may_list(token, name),
{
    if token.model_limits_enabled {
        if let Some(limits) = token.model_limits {
            let i = choose|i: int| 0 <= i < limits@.len() && (#[trigger] limits@[i])@ == name;
            assert(crate::text::eq_ignore_ascii_case(limits@[i]@, name));
        }
    }
}

/// A request is admitted exactly where it names a model that is known and that its token may use;
/// it is then admitted for the user of the token, under the name of the model that is known.
pub proof fn law_admission(
    model: Option<JsonView>,
    stream: Option<JsonView>,
    auth: AuthContext,
    models: Map<Seq<char>, (i64, Seq<char>)>,
    r: Result<Admission, Refusal>,
    name: Seq<char>,
    known: (i64, Seq<char>),
)
    requires
        admission_of(model, stream, auth, models, r),
        model == Some(JsonView::Text(name)),
        normal_form(name).len() > 0,
        models.contains_key(normal_form(name)),
        models[normal_form(name)] == known,
    ensures
        r is Ok <==> {
            ||| !auth.token.model_limits_enabled
            ||| auth.token.model_limits is None
            ||| exists|i: int|
                0 <= i < auth.token.model_limits->0@.len() && (
                #[trigger] auth.token.model_limits->0@[i])@ == known.1
        },
        r matches Ok(a) ==> {
            &&& a.client_model@ == name
            &&& a.context.user_id == auth.user.id
            &&& a.context.token_id == auth.token.id
            &&& a.context.user_group == auth.user.group
            &&& a.context.model_id == known.0
            &&& a.context.canonical_name@ == known.1
            &&& a.is_stream <==> stream == Some(JsonView::Bool(true))
        },
        r matches Err(refusal) ==> refusal.error is InvalidRequest,
{
    crate::types::law_listed_models_are_allowed(auth.token, known.1);
}

/// A request that names no model, or one that is not known, is refused: the former as malformed,
/// the latter as a model that was not found.
pub proof fn law_refusal(
    model: Option<JsonView>,
    stream: Option<JsonView>,
    auth: AuthContext,
    models: Map<Seq<char>, (i64, Seq<char>)>,
    r: Result<Admission, Refusal>,
    name: Seq<char>,
)
    requires
        admission_of(model, stream, auth, models, r),
    ensures
        !(model matches Some(JsonView::Text(_))) ==> (r matches Err(refusal)
            && refusal.error is InvalidRequest && refusal.logged_model is None),
        model == Some(JsonView::Text(name)) && (normal_form(name).len() == 0
            || !models.contains_key(normal_form(name))) ==> (r matches Err(refusal)
            && refusal.error matches ProxyError::ModelNotFound(m) && m@ == name
            && refusal.logged_model is None),
{
}

/// A token may list every model that its limits name in any case, and no model that differs from
/// all of them by more than case. Without limits it may list every model.
pub proof fn law_named_models_are_listed(token: TokenConfig, name: Seq<char>)
    ensures
        !token.model_limits_enabled || token.model_limits is None ==> may_list(token, name),
        token.model_limits_enabled ==> (token.model_limits matches Some(limits) ==> {
            &&& forall|i: int| 0 <= i < limits@.len() ==> may_list(token, (#[trigger] limits@[i])@)
            &&& forall|i: int|
                0 <= i < limits@.len() && crate::text::eq_ignore_ascii_case(
                    (#[trigger] limits@[i])@,
                    name,
                ) ==> may_list(token, name)
            &&& (forall|i: int|
                0 <= i < limits@.len() ==> !crate::text::eq_ignore_ascii_case(
                    (#[trigger] limits@[i])@,
                    name,
                )) ==> !may_list(token, name)
        }),
{
    if let Some(limits) = token.model_limits {
        assert forall|i: int| 0 <= i < limits@.len() implies may_list(
            token,
            (#[trigger] limits@[i])@,
        ) by {
            assert(crate::text::eq_ignore_ascii_case(limits@[i]@, limits@[i]@));
        }
    }
}

/// The list of models keeps the order of the models: that of a longer list is that of its front,
/// followed by that of its back.
pub proof fn law_listing_keeps_the_order(
    front: Seq<String>,
    back: Seq<String>,
    token: TokenConfig,
)
    ensures
        listed_of(front + back, token) == listed_of(front, token) + listed_of(back, token),
    decreases back.len(),
{
    if back.len() == 0 {
        assert(front + back =~= front);
        assert(listed_of(front, token) + listed_of(back, token) =~= listed_of(front, token));
    } else {
        assert((front + back).drop_last() =~= front + back.drop_last());
        assert((front + back).last() == back.last());
        law_listing_keeps_the_order(front, back.drop_last(), token);
        assert(listed_of(front + back, token) =~= listed_of(front, token) + listed_of(back, token));
    }
}

/// The keys that were tried are logged in a row with commas between them, and not at all where
/// none was.
pub proof fn law_tried_keys_are_logged_in_a_row(names: Seq<Seq<char>>, name: Seq<char>)
    ensures
        csv_of(Seq::empty()) is None,
        csv_of(seq![name]) == Some(name),
        names.len() > 0 ==> csv_of(names.push(name)) == Some(csv_of(names)->0 + ","@ + name),
{
    assert(names.push(name).drop_last() =~= names);
}

/// A stream is passed on untouched exactly where client and provider speak the same format; one
/// for a client of the Anthropic format is cut into events, one for the OpenAI format is not.
pub proof fn law_streams_are_translated_for_the_client(
    entry: EntryFormat,
    provider: ChannelProvider,
)
    ensures
        stream_mode_of(entry, provider) == StreamMode::TranslateChunks <==> entry
            == EntryFormat::OpenAI && provider == ChannelProvider::Anthropic,
        stream_mode_of(entry, provider) == StreamMode::TranslateEvents <==> entry
            == EntryFormat::Claude && provider == ChannelProvider::OpenaiCompatible,
{
}

/// A log entry tells of its request who made it, for which model, on which path and how long it
/// took.
pub proof fn law_log_entries_tell_of_their_request(
    entry: LogEntry,
    info: RequestInfo,
    duration_ms: i64,
)
    requires
        entry.describes(info, duration_ms),
    ensures
        entry.request_id == info.request_id,
        entry.client_ip == info.client_ip,
        entry.method@ == "POST"@,
        info.entry == EntryFormat::OpenAI ==> entry.path@ == "/v1/chat/completions"@,
        info.entry == EntryFormat::Claude ==> entry.path@ == "/v1/messages"@,
        entry.client_model == info.client_model,
        entry.normalized_model == Some(info.normalized_model),
        entry.duration_ms == duration_ms,
        entry.stream == info.stream,
        entry.user_id == Some(info.user_id),
        entry.token_id == Some(info.token_id),
{
}

/// A log entry names the channel, the key, all keys that were tried, and the upstream's status and
/// model.
pub proof fn law_log_entries_name_what_was_tried(
    entry: LogEntry,
    channel_name: Option<String>,
    key_label: Option<String>,
    attempted: Option<Seq<char>>,
    upstream_status: Option<i64>,
    upstream_model: Option<String>,
)
    requires
        entry.names(channel_name, key_label, attempted, upstream_status, upstream_model),
    ensures
        entry.channel_name == channel_name,
        entry.key_label == key_label,
        attempted is None ==> entry.attempted_keys is None,
        attempted matches Some(a) ==> (entry.attempted_keys matches Some(s) && s@ == a),
        entry.upstream_status == upstream_status,
        entry.upstream_model == upstream_model,
{
}

/// A refused request is told by its kind and its text.
pub proof fn law_refused_requests_have_kind_and_text(e: ProxyError, text: Seq<char>)
    ensures
        is_invalid_request(e, text) <==> (e matches ProxyError::InvalidRequest(m) && m@ == text),
        is_model_not_found(e, text) <==> (e matches ProxyError::ModelNotFound(m) && m@ == text),
{
}

} // verus!
