//! Request and response bodies: what is read from them, and what is written into them.
use vstd::prelude::*;

use crate::adaptor::{openai_report, read_openai_usage};
use crate::error::ProxyResult;
use crate::executor::EntryFormat;
use crate::json::{
    count, count_of, field_pointer, field_set, json_at, json_insert, json_item, json_quote,
    json_quoted, json_with_field, number, number_of, option_item, plain_key, JsonItem, JsonView,
};
use crate::text::utf8_text;
use crate::types::{ChannelConfig, ChannelProvider, Usage};

verus! {

/// How a document is turned from one wire format into another.
#[derive(Debug, Clone, Copy, PartialEq, Eq, Structural)]
pub enum Translation {
    Passthrough,
    OpenaiToClaude,
    ClaudeToOpenai,
}

/// How a request is turned into the format of a provider.
pub open spec fn request_translation(entry: EntryFormat, provider: ChannelProvider) -> Translation {
    if entry.spec_provider() == provider {
        Translation::Passthrough
    } else {
        match entry {
            EntryFormat::OpenAI => Translation::OpenaiToClaude,
            EntryFormat::Claude => Translation::ClaudeToOpenai,
        }
    }
}

/// How a response of a provider is turned into the format of the client.
pub open spec fn response_translation(entry: EntryFormat, provider: ChannelProvider) -> Translation {
    if entry.spec_provider() == provider {
        Translation::Passthrough
    } else {
        match entry {
            EntryFormat::OpenAI => Translation::ClaudeToOpenai,
            EntryFormat::Claude => Translation::OpenaiToClaude,
        }
    }
}

/// How a request is turned into the format of a provider.
pub fn translate_request(entry: EntryFormat, provider: ChannelProvider) -> (r: Translation)
    ensures
        r == request_translation(entry, provider),
{
    match (entry, provider) {
        (EntryFormat::OpenAI, ChannelProvider::OpenaiCompatible) => Translation::Passthrough,
        (EntryFormat::Claude, ChannelProvider::Anthropic) => Translation::Passthrough,
        (EntryFormat::OpenAI, ChannelProvider::Anthropic) => Translation::OpenaiToClaude,
        (EntryFormat::Claude, ChannelProvider::OpenaiCompatible) => Translation::ClaudeToOpenai,
    }
}

/// How a response of a provider is turned into the format of the client.
pub fn translate_response_back(entry: EntryFormat, provider: ChannelProvider) -> (r: Translation)
    ensures
        r == response_translation(entry, provider),
{
    match (entry, provider) {
        (EntryFormat::OpenAI, ChannelProvider::OpenaiCompatible) => Translation::Passthrough,
        (EntryFormat::Claude, ChannelProvider::Anthropic) => Translation::Passthrough,
        (EntryFormat::OpenAI, ChannelProvider::Anthropic) => Translation::ClaudeToOpenai,
        (EntryFormat::Claude, ChannelProvider::OpenaiCompatible) => Translation::OpenaiToClaude,
    }
}

/// A response passes through exactly where its request did, and is otherwise translated the
/// other way.
pub proof fn law_response_translation_reverses(entry: EntryFormat, provider: ChannelProvider)
    ensures
        request_translation(entry, provider) == Translation::Passthrough <==> response_translation(
            entry,
            provider,
        ) == Translation::Passthrough,
        request_translation(entry, provider) == Translation::OpenaiToClaude
            <==> response_translation(entry, provider) == Translation::ClaudeToOpenai,
        request_translation(entry, provider) == Translation::ClaudeToOpenai
            <==> response_translation(entry, provider) == Translation::OpenaiToClaude,
{
}

/// A body with another model name; a body that is no object stays as it is.
pub open spec fn with_model(body: Seq<char>, name: Seq<char>) -> Seq<char> {
    match json_with_field(body, "model"@, json_quoted(name)) {
        Some(t) => t,
        None => body,
    }
}

/// Sets the model name in a body. Every other field stays as it is, and a body that is no object
/// altogether.
pub fn swap_model(body: &str, upstream_model_name: &str) -> (r: String)
    ensures
        r@ == with_model(body@, upstream_model_name@),
        json_item(body@, Seq::empty()) == Some(JsonView::Object) ==> {
            &&& json_item(r@, "/model"@) == Some(JsonView::Text(upstream_model_name@))
            &&& field_set(r@, body@, "model"@, json_quoted(upstream_model_name@))
        },
        json_item(body@, Seq::empty()) != Some(JsonView::Object) ==> r@ == body@,
{
    let value = json_quote(upstream_model_name);
    proof {
        reveal_strlit("model");
        reveal_strlit("/model");
        assert(plain_key("model"@));
        assert(field_pointer("model"@) =~= "/model"@);
    }
    match json_insert(body, "model", value.as_str()) {
        Some(t) => t,
        None => body.to_owned(),
    }
}

/// Completes a request for a channel: `body` is the client's body in the channel's format, or why
/// it could not be put into it. The channel's name of the model is set.
pub fn prepare_request(
    body: ProxyResult<String>,
    channel: &ChannelConfig,
    upstream_model_name: &str,
) -> (r: ProxyResult<(String, ChannelProvider)>)
    ensures
        match (body, r) {
            (Ok(b), Ok(p)) => p.0@ == with_model(b@, upstream_model_name@) && p.1
                == channel.provider,
            (Err(e), Err(f)) => e == f,
            _ => false,
        },
{
    match body {
        Ok(b) => Ok((swap_model(b.as_str(), upstream_model_name), channel.provider)),
        Err(e) => Err(e),
    }
}

/// The body of a streaming request, which asks for usage reports.
pub open spec fn streaming_body(body: Seq<char>) -> Seq<char> {
    if json_item(body, "/stream"@) == Some(JsonView::Bool(true)) {
        match json_with_field(body, "stream_options"@, "{\"include_usage\":true}"@) {
            Some(t) => t,
            None => body,
        }
    } else {
        body
    }
}

/// Makes a streaming request to an OpenAI compatible provider ask for usage reports.
pub fn with_stream_options(body: &str) -> (r: String)
    ensures
        r@ == streaming_body(body@),
{
    match json_at(body, "/stream") {
        Some(JsonItem::Bool(true)) => match json_insert(
            body,
            "stream_options",
            "{\"include_usage\":true}",
        ) {
            Some(t) => t,
            None => body.to_owned(),
        },
        _ => body.to_owned(),
    }
}

/// The limit on completion tokens that two fields of a request give: for OpenAI the newer field
/// counts where it is present, whatever it holds. A limit of zero is none.
pub open spec fn limit_of(
    max_completion_tokens: Option<JsonView>,
    max_tokens: Option<JsonView>,
    entry: EntryFormat,
) -> Option<u64> {
    let field = match entry {
        EntryFormat::OpenAI => if max_completion_tokens is Some {
            max_completion_tokens
        } else {
            max_tokens
        },
        EntryFormat::Claude => max_tokens,
    };
    match number_of(field) {
        Some(n) => if n > 0 {
            Some(n)
        } else {
            None
        },
        None => None,
    }
}

/// The limit on completion tokens that two fields of a request give.
pub fn choose_limit(
    max_completion_tokens: &Option<JsonItem>,
    max_tokens: &Option<JsonItem>,
    entry: EntryFormat,
) -> (r: Option<u64>)
    ensures
        r == limit_of(option_item(*max_completion_tokens), option_item(*max_tokens), entry),
{
    let n: Option<u64> = match entry {
        EntryFormat::OpenAI => if max_completion_tokens.is_some() {
            number(max_completion_tokens)
        } else {
            number(max_tokens)
        },
        EntryFormat::Claude => number(max_tokens),
    };
    match n {
        Some(k) => if k > 0 {
            Some(k)
        } else {
            None
        },
        None => None,
    }
}

/// The limit on completion tokens that a request sets.
pub fn extract_max_tokens(body: &str, entry: EntryFormat) -> (r: Option<u64>)
    ensures
        r == limit_of(
            json_item(body@, "/max_completion_tokens"@),
            json_item(body@, "/max_tokens"@),
            entry,
        ),
{
    choose_limit(&json_at(body, "/max_completion_tokens"), &json_at(body, "/max_tokens"), entry)
}

/// The sum of the two counts of an Anthropic report fits a counter.
pub open spec fn claude_sum_fits(input: Option<JsonView>, output: Option<JsonView>) -> bool {
    count_of(input) + count_of(output) <= u64::MAX
}

/// The usage that the two counts of an Anthropic report give.
pub open spec fn claude_report(input: Option<JsonView>, output: Option<JsonView>) -> Usage {
    Usage {
        prompt_tokens: count_of(input),
        completion_tokens: count_of(output),
        total_tokens: (count_of(input) + count_of(output)) as u64,
    }
}

/// The usage that the two counts of an Anthropic report give, where their sum fits a counter.
pub fn claude_usage(input: &Option<JsonItem>, output: &Option<JsonItem>) -> (r: Option<Usage>)
    ensures
        r == if claude_sum_fits(option_item(*input), option_item(*output)) {
            Some(claude_report(option_item(*input), option_item(*output)))
        } else {
            None
        },
{
    let a: u64 = count(input);
    let b: u64 = count(output);
    match a.checked_add(b) {
        Some(total) => Some(
            Usage { prompt_tokens: a, completion_tokens: b, total_tokens: total },
        ),
        None => None,
    }
}

/// The usage that a response reports fits its counters.
pub open spec fn reported_usage_fits(body: Seq<char>, provider: ChannelProvider) -> bool {
    provider == ChannelProvider::Anthropic ==> claude_sum_fits(
        json_item(body, "/usage/input_tokens"@),
        json_item(body, "/usage/output_tokens"@),
    )
}

/// The usage that a response reports, in the way of its provider.
pub open spec fn reported_usage(body: Seq<char>, provider: ChannelProvider) -> Usage {
    match provider {
        ChannelProvider::OpenaiCompatible => openai_report(body),
        ChannelProvider::Anthropic => claude_report(
            json_item(body, "/usage/input_tokens"@),
            json_item(body, "/usage/output_tokens"@),
        ),
    }
}

/// The usage that a response reports; a count that is missing is zero.
pub fn extract_usage_from_response(body: &str, provider: ChannelProvider) -> (r: Usage)
    requires
        reported_usage_fits(body@, provider),
    ensures
        r == reported_usage(body@, provider),
{
    match checked_usage_from_response(body, provider) {
        Some(u) => u,
        None => Usage { prompt_tokens: 0, completion_tokens: 0, total_tokens: 0 },
    }
}

/// The usage that a response reports; nothing where it does not fit its counters.
pub fn checked_usage_from_response(body: &str, provider: ChannelProvider) -> (r: Option<Usage>)
    ensures
        r == if reported_usage_fits(body@, provider) {
            Some(reported_usage(body@, provider))
        } else {
            None
        },
{
    match provider {
        ChannelProvider::OpenaiCompatible => Some(read_openai_usage(body)),
        ChannelProvider::Anthropic => claude_usage(
            &json_at(body, "/usage/input_tokens"),
            &json_at(body, "/usage/output_tokens"),
        ),
    }
}

/// The usage that the bytes of a response report: none of anything where they are not UTF-8, and
/// nothing where it does not fit its counters.
pub open spec fn usage_in(bytes: Seq<u8>, provider: ChannelProvider) -> Option<Usage> {
    if !vstd::utf8::valid_utf8(bytes) {
        Some(Usage { prompt_tokens: 0, completion_tokens: 0, total_tokens: 0 })
    } else if reported_usage_fits(vstd::utf8::decode_utf8(bytes), provider) {
        Some(reported_usage(vstd::utf8::decode_utf8(bytes), provider))
    } else {
        None
    }
}

/// The usage that the bytes of a response report.
pub fn usage_of_response(bytes: &[u8], provider: ChannelProvider) -> (r: Option<Usage>)
    ensures
        r == usage_in(bytes@, provider),
{
    match utf8_text(bytes) {
        None => Some(Usage { prompt_tokens: 0, completion_tokens: 0, total_tokens: 0 }),
        Some(text) => match checked_usage_from_response(text, provider) {
            Some(_) => Some(extract_usage_from_response(text, provider)),
            None => None,
        },
    }
}

/// A request is translated exactly where the client and the provider speak different formats, and
/// then into the format of the provider; its response comes back in that of the client.
pub proof fn law_requests_reach_the_format_of_the_provider(
    entry: EntryFormat,
    provider: ChannelProvider,
)
    ensures
        request_translation(entry, provider) == Translation::OpenaiToClaude <==> entry
            == EntryFormat::OpenAI && provider == ChannelProvider::Anthropic,
        request_translation(entry, provider) == Translation::ClaudeToOpenai <==> entry
            == EntryFormat::Claude && provider == ChannelProvider::OpenaiCompatible,
        response_translation(entry, provider) == Translation::ClaudeToOpenai <==> entry
            == EntryFormat::OpenAI && provider == ChannelProvider::Anthropic,
        response_translation(entry, provider) == Translation::OpenaiToClaude <==> entry
            == EntryFormat::Claude && provider == ChannelProvider::OpenaiCompatible,
{
}

/// The limit of a request is a positive number. A client of the OpenAI format gives it as the
/// limit of the completion or, only where that field is missing, as that of the tokens; a client
/// of the Anthropic format gives the latter alone.
pub proof fn law_limits_are_positive_numbers(
    completion: Option<JsonView>,
    tokens: Option<JsonView>,
    entry: EntryFormat,
    n: u64,
)
    ensures
        limit_of(completion, tokens, entry) matches Some(m) ==> m > 0,
        n > 0 && tokens == Some(JsonView::Number(Some(n))) ==> {
            &&& limit_of(completion, tokens, EntryFormat::Claude) == Some(n)
            &&& limit_of(None, tokens, EntryFormat::OpenAI) == Some(n)
        },
        n > 0 && completion == Some(JsonView::Number(Some(n))) ==> limit_of(
            completion,
            tokens,
            EntryFormat::OpenAI,
        ) == Some(n),
        completion is Some && !(completion matches Some(JsonView::Number(Some(_)))) ==> limit_of(
            completion,
            tokens,
            EntryFormat::OpenAI,
        ) is None,
        !(tokens matches Some(JsonView::Number(Some(_)))) ==> limit_of(
            completion,
            tokens,
            EntryFormat::Claude,
        ) is None && limit_of(None, tokens, EntryFormat::OpenAI) is None,
{
}

/// The usage that an Anthropic answer reports has its counts from the fields of the answer, and
/// their sum as its total; a count that is missing is nothing.
pub proof fn law_anthropic_answer_adds_up(body: Seq<char>, input: u64, output: u64)
    requires
        input + output <= u64::MAX,
        match json_item(body, "/usage/input_tokens"@) {
            Some(JsonView::Number(Some(n))) => n == input,
            _ => input == 0,
        },
        match json_item(body, "/usage/output_tokens"@) {
            Some(JsonView::Number(Some(n))) => n == output,
            _ => output == 0,
        },
    ensures
        reported_usage_fits(body, ChannelProvider::Anthropic),
        reported_usage(body, ChannelProvider::Anthropic) == (Usage {
            prompt_tokens: input,
            completion_tokens: output,
            total_tokens: (input + output) as u64,
        }),
{
}

/// The usage that an answer of the OpenAI format reports is read from its own three fields.
pub proof fn law_openai_answer_is_read(body: Seq<char>)
    ensures
        reported_usage_fits(body, ChannelProvider::OpenaiCompatible),
        reported_usage(body, ChannelProvider::OpenaiCompatible) == openai_report(body),
{
}

/// An answer that is no text has used nothing; of any other the text is read.
pub proof fn law_answers_are_read_as_text(bytes: Seq<u8>, provider: ChannelProvider)
    ensures
        !vstd::utf8::valid_utf8(bytes) ==> usage_in(bytes, provider) == Some(
            Usage { prompt_tokens: 0, completion_tokens: 0, total_tokens: 0 },
        ),
        vstd::utf8::valid_utf8(bytes) && reported_usage_fits(
            vstd::utf8::decode_utf8(bytes),
            provider,
        ) ==> usage_in(bytes, provider) == Some(
            reported_usage(vstd::utf8::decode_utf8(bytes), provider),
        ),
{
}

/// A streamed request asks for its usage; any other stays as it is.
pub proof fn law_streamed_requests_ask_for_usage(body: Seq<char>)
    ensures
        json_item(body, "/stream"@) != Some(JsonView::Bool(true)) ==> streaming_body(body) == body,
        json_item(body, "/stream"@) == Some(JsonView::Bool(true)) ==> (json_with_field(
            body,
            "stream_options"@,
            "{\"include_usage\":true}"@,
        ) matches Some(t) ==> streaming_body(body) == t),
        json_with_field(body, "stream_options"@, "{\"include_usage\":true}"@) is None
            ==> streaming_body(body) == body,
{
}

} // verus!
