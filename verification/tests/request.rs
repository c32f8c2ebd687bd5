use chennix::executor::EntryFormat;
use chennix::error::ProxyError;
use chennix::json::JsonItem;
use chennix::request::{
    checked_usage_from_response, choose_limit, claude_usage, extract_max_tokens,
    extract_usage_from_response, prepare_request, swap_model, translate_request,
    translate_response_back, usage_of_response, with_stream_options, Translation,
};
use chennix::types::{ChannelConfig, ChannelProvider, Usage};
use serde_json::Value;

fn channel(provider: ChannelProvider) -> ChannelConfig {
    ChannelConfig {
        id: 1,
        name: "ch-1".into(),
        provider,
        base_url: "http://127.0.0.1:1/ch-1".into(),
        group: "default".into(),
    }
}

fn parsed(s: &str) -> Value {
    serde_json::from_str(s).unwrap()
}

#[test]
fn test_extract_max_tokens_openai() {
    // OpenAI: max_completion_tokens takes precedence
    let body = r#"{"max_tokens": 100, "max_completion_tokens": 200}"#;
    assert_eq!(extract_max_tokens(body, EntryFormat::OpenAI), Some(200));

    // Only max_tokens
    let body = r#"{"max_tokens": 100}"#;
    assert_eq!(extract_max_tokens(body, EntryFormat::OpenAI), Some(100));

    // Neither
    let body = r#"{"messages": []}"#;
    assert_eq!(extract_max_tokens(body, EntryFormat::OpenAI), None);

    // Zero or negative: None
    let body = r#"{"max_tokens": 0}"#;
    assert_eq!(extract_max_tokens(body, EntryFormat::OpenAI), None);
}

#[test]
fn test_extract_max_tokens_claude() {
    // only max_tokens
    let body = r#"{"max_tokens": 1024}"#;
    assert_eq!(extract_max_tokens(body, EntryFormat::Claude), Some(1024));

    // Absent
    let body = r#"{"messages": []}"#;
    assert_eq!(extract_max_tokens(body, EntryFormat::Claude), None);
}

#[test]
fn a_limit_is_a_positive_whole_number() {
    for body in [r#"{"max_tokens": -5}"#, r#"{"max_tokens": 1.5}"#, r#"{"max_tokens": "5"}"#, "not json"] {
        assert_eq!(extract_max_tokens(body, EntryFormat::OpenAI), None, "{}", body);
    }
    let body = r#"{"max_tokens": 100, "max_completion_tokens": null}"#;
    assert_eq!(extract_max_tokens(body, EntryFormat::OpenAI), None);
    assert_eq!(extract_max_tokens(body, EntryFormat::Claude), Some(100));
    let n = |k: u64| Some(JsonItem::Number(Some(k)));
    assert_eq!(choose_limit(&n(3), &n(4), EntryFormat::OpenAI), Some(3));
    assert_eq!(choose_limit(&n(3), &n(4), EntryFormat::Claude), Some(4));
    assert_eq!(choose_limit(&None, &n(0), EntryFormat::OpenAI), None);
}

#[test]
fn test_prepare_request_same_format_swaps_model() {
    let ch = channel(ChannelProvider::OpenaiCompatible);
    let body = r#"{"model": "gpt-4", "messages": [{"role": "user", "content": "hi"}]}"#;
    assert_eq!(
        translate_request(EntryFormat::OpenAI, ch.provider),
        Translation::Passthrough
    );
    let (out, provider) = prepare_request(Ok(body.to_string()), &ch, "gpt-4-upstream").unwrap();
    assert_eq!(provider, ChannelProvider::OpenaiCompatible);
    let out = parsed(&out);
    assert_eq!(out["model"], "gpt-4-upstream");
    // body otherwise unchanged
    assert_eq!(out["messages"], parsed(body)["messages"]);
}

#[test]
fn a_failed_translation_is_handed_on() {
    let ch = channel(ChannelProvider::Anthropic);
    assert_eq!(
        prepare_request(Err(ProxyError::Translator("x".into())), &ch, "up"),
        Err(ProxyError::Translator("x".into()))
    );
}

#[test]
fn test_translate_response_back_same_format_passthrough() {
    assert_eq!(
        translate_response_back(EntryFormat::OpenAI, ChannelProvider::OpenaiCompatible),
        Translation::Passthrough
    );
    assert_eq!(
        translate_response_back(EntryFormat::Claude, ChannelProvider::Anthropic),
        Translation::Passthrough
    );
}

#[test]
fn responses_are_translated_the_other_way() {
    assert_eq!(
        translate_request(EntryFormat::OpenAI, ChannelProvider::Anthropic),
        Translation::OpenaiToClaude
    );
    assert_eq!(
        translate_response_back(EntryFormat::OpenAI, ChannelProvider::Anthropic),
        Translation::ClaudeToOpenai
    );
    assert_eq!(
        translate_request(EntryFormat::Claude, ChannelProvider::OpenaiCompatible),
        Translation::ClaudeToOpenai
    );
    assert_eq!(
        translate_response_back(EntryFormat::Claude, ChannelProvider::OpenaiCompatible),
        Translation::OpenaiToClaude
    );
}

#[test]
fn test_extract_usage_openai() {
    let body = r#"{"id": "x", "usage": {"prompt_tokens": 10, "completion_tokens": 5, "total_tokens": 15}}"#;
    let u = extract_usage_from_response(body, ChannelProvider::OpenaiCompatible);
    assert_eq!(u.total_tokens, 15);
}

#[test]
fn test_extract_usage_claude() {
    let body = r#"{"id": "msg_1", "usage": {"input_tokens": 7, "output_tokens": 4}}"#;
    let u = extract_usage_from_response(body, ChannelProvider::Anthropic);
    assert_eq!(u.prompt_tokens, 7);
    assert_eq!(u.completion_tokens, 4);
    assert_eq!(u.total_tokens, 11);
}

#[test]
fn test_extract_usage_missing_field_returns_zero() {
    let u = extract_usage_from_response(r#"{"id": "x"}"#, ChannelProvider::OpenaiCompatible);
    assert_eq!(u.total_tokens, 0);
}

#[test]
fn counts_that_do_not_fit_are_told_apart() {
    let body = r#"{"usage": {"input_tokens": 18446744073709551615, "output_tokens": 1}}"#;
    assert_eq!(checked_usage_from_response(body, ChannelProvider::Anthropic), None);
    assert_eq!(usage_of_response(body.as_bytes(), ChannelProvider::Anthropic), None);
    let n = |k: u64| Some(JsonItem::Number(Some(k)));
    assert_eq!(claude_usage(&n(u64::MAX), &n(1)), None);
    assert_eq!(
        claude_usage(&n(2), &None),
        Some(Usage { prompt_tokens: 2, completion_tokens: 0, total_tokens: 2 })
    );
}

#[test]
fn bytes_that_are_no_text_report_nothing() {
    let zero = Some(Usage::default());
    assert_eq!(usage_of_response(&[0xff, 0xfe], ChannelProvider::OpenaiCompatible), zero);
    assert_eq!(usage_of_response(b"not json", ChannelProvider::Anthropic), zero);
    let body = r#"{"usage": {"input_tokens": 7, "output_tokens": 4}}"#;
    assert_eq!(
        usage_of_response(body.as_bytes(), ChannelProvider::Anthropic),
        Some(Usage { prompt_tokens: 7, completion_tokens: 4, total_tokens: 11 })
    );
}

#[test]
fn the_model_is_set_in_objects_only() {
    assert_eq!(swap_model("[1]", "m"), "[1]");
    assert_eq!(swap_model("nonsense", "m"), "nonsense");
    let out = parsed(&swap_model("{}", "a \"quoted\" \\ name\n"));
    assert_eq!(out["model"], "a \"quoted\" \\ name\n");
    let out = parsed(&swap_model(r#"{"x": [1, {"model": "inner"}], "model": 5}"#, "m"));
    assert_eq!(out, parsed(r#"{"x": [1, {"model": "inner"}], "model": "m"}"#));
}

#[test]
fn streams_ask_for_usage_reports() {
    let out = parsed(&with_stream_options(r#"{"stream": true, "model": "m"}"#));
    assert_eq!(out, parsed(r#"{"stream": true, "model": "m", "stream_options": {"include_usage": true}}"#));
    let out = parsed(&with_stream_options(r#"{"stream": true, "stream_options": {"x": 1}}"#));
    assert_eq!(out["stream_options"], parsed(r#"{"include_usage": true}"#));
    for body in [r#"{"stream": false}"#, r#"{"stream": 1}"#, r#"{"model": "m"}"#] {
        assert_eq!(with_stream_options(body), body);
    }
}
