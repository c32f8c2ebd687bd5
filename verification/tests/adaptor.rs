use chennix::adaptor::{
    apply_event, build_claude_messages_url, build_models_url, build_openai_chat_url, openai_usage,
    ClaudeAdaptor, ClaudeCounts, ClaudeEvent, OpenaiAdaptor,
};
use chennix::json::JsonItem;
use chennix::types::ChannelProvider;

#[test]
fn test_extract_usage_message_delta() {
    let adaptor = ClaudeAdaptor::new();
    let chunk = "event: message_delta\ndata: {\"type\":\"message_delta\",\"usage\":{\"output_tokens\":42}}\n\n";
    let usage = adaptor.extract_usage(chunk.as_bytes()).unwrap();
    assert_eq!(usage.completion_tokens, 42);
}

#[test]
fn test_extract_usage_message_start() {
    let adaptor = ClaudeAdaptor::new();
    let chunk = "event: message_start\ndata: {\"type\":\"message_start\",\"message\":{\"usage\":{\"input_tokens\":100}}}\n\n";
    let usage = adaptor.extract_usage(chunk.as_bytes()).unwrap();
    assert_eq!(usage.prompt_tokens, 100);
}

#[test]
fn claude_test_build_url_without_version() {
    assert_eq!(
        build_claude_messages_url("https://api.anthropic.com"),
        "https://api.anthropic.com/v1/messages"
    );
}

#[test]
fn claude_test_build_url_with_v1() {
    assert_eq!(
        build_claude_messages_url("https://api.anthropic.com/v1"),
        "https://api.anthropic.com/v1/messages"
    );
}

#[test]
fn claude_test_build_url_with_trailing_slash() {
    assert_eq!(
        build_claude_messages_url("https://api.anthropic.com/v1/"),
        "https://api.anthropic.com/v1/messages"
    );
}

#[test]
fn test_build_models_url_without_version() {
    assert_eq!(
        build_models_url("https://api.openai.com"),
        "https://api.openai.com/v1/models"
    );
}

#[test]
fn test_build_models_url_with_v1() {
    assert_eq!(
        build_models_url("https://api.openai.com/v1"),
        "https://api.openai.com/v1/models"
    );
}

#[test]
fn test_extract_usage_from_chunk() {
    let adaptor = OpenaiAdaptor::new();
    let chunk = "data: {\"id\":\"1\",\"usage\":{\"prompt_tokens\":10,\"completion_tokens\":5,\"total_tokens\":15}}\n\ndata: [DONE]\n\n";
    let usage = adaptor.extract_usage(chunk.as_bytes()).unwrap();
    assert_eq!(usage.prompt_tokens, 10);
    assert_eq!(usage.total_tokens, 15);
}

#[test]
fn test_extract_usage_none() {
    let adaptor = OpenaiAdaptor::new();
    let chunk = "data: {\"id\":\"1\",\"choices\":[{\"delta\":{\"content\":\"hi\"}}]}\n\n";
    assert!(adaptor.extract_usage(chunk.as_bytes()).is_none());
}

#[test]
fn openai_test_build_url_without_version() {
    assert_eq!(
        build_openai_chat_url("https://api.openai.com"),
        "https://api.openai.com/v1/chat/completions"
    );
}

#[test]
fn openai_test_build_url_with_v1() {
    assert_eq!(
        build_openai_chat_url("https://api.openai.com/v1"),
        "https://api.openai.com/v1/chat/completions"
    );
}

#[test]
fn openai_test_build_url_with_trailing_slash() {
    assert_eq!(
        build_openai_chat_url("https://api.deepseek.com/v1/"),
        "https://api.deepseek.com/v1/chat/completions"
    );
}

#[test]
fn test_build_url_with_v1beta() {
    assert_eq!(
        build_openai_chat_url("https://generativelanguage.googleapis.com/v1beta"),
        "https://generativelanguage.googleapis.com/v1beta/chat/completions"
    );
}

#[test]
fn test_build_url_with_path_segment() {
    assert_eq!(
        build_openai_chat_url("https://xxx.openai.azure.com/openai/deployments/gpt-4o"),
        "https://xxx.openai.azure.com/openai/deployments/gpt-4o/v1/chat/completions"
    );
}

#[test]
fn trailing_slashes_are_ignored() {
    assert_eq!(build_models_url("https://h///"), "https://h/v1/models");
    assert_eq!(build_models_url("https://h/v2///"), "https://h/v2/models");
}

#[test]
fn a_segment_of_v_alone_is_no_version() {
    assert_eq!(build_models_url("https://h/v"), "https://h/v/v1/models");
    assert_eq!(build_models_url("https://h/version"), "https://h/version/v1/models");
    assert_eq!(build_models_url("v3"), "v3/models");
    assert_eq!(build_models_url(""), "/v1/models");
}

#[test]
fn adaptors_name_their_provider() {
    assert_eq!(OpenaiAdaptor::new().provider(), ChannelProvider::OpenaiCompatible);
    assert_eq!(ClaudeAdaptor::new().provider(), ChannelProvider::Anthropic);
}

#[test]
fn the_last_openai_report_counts() {
    let chunk = "data: {\"usage\":{\"prompt_tokens\":1,\"total_tokens\":2}}\ndata: {\"usage\":{\"prompt_tokens\":7,\"completion_tokens\":8}}\n";
    let usage = OpenaiAdaptor::new().extract_usage(chunk.as_bytes()).unwrap();
    assert_eq!(usage.prompt_tokens, 7);
    assert_eq!(usage.completion_tokens, 8);
    assert_eq!(usage.total_tokens, 0);
}

#[test]
fn broken_bytes_do_not_hide_a_report() {
    let mut chunk: Vec<u8> = vec![0xff, 0xfe, b'\n'];
    chunk.extend_from_slice(b"data: {\"usage\":{\"prompt_tokens\":3}}\n");
    let usage = OpenaiAdaptor::new().extract_usage(&chunk).unwrap();
    assert_eq!(usage.prompt_tokens, 3);
}

#[test]
fn claude_counts_are_gathered_over_events() {
    let chunk = "data: {\"type\":\"message_start\",\"message\":{\"usage\":{\"input_tokens\":9,\"output_tokens\":1}}}\ndata: {\"type\":\"message_delta\",\"usage\":{\"output_tokens\":5}}\n";
    let usage = ClaudeAdaptor::new().extract_usage(chunk.as_bytes()).unwrap();
    assert_eq!(usage.prompt_tokens, 9);
    assert_eq!(usage.completion_tokens, 5);
    assert_eq!(usage.total_tokens, 14);
}

#[test]
fn claude_counts_that_do_not_fit_are_told_apart() {
    let chunk = "data: {\"type\":\"message_start\",\"message\":{\"usage\":{\"input_tokens\":18446744073709551615}}}\ndata: {\"type\":\"message_delta\",\"usage\":{\"output_tokens\":1}}\n";
    assert_eq!(ClaudeAdaptor::new().checked_extract_usage(chunk.as_bytes()), None);
    assert_eq!(ClaudeAdaptor::new().checked_extract_usage(b"data: {}\n"), Some(None));
}

#[test]
fn openai_counts_default_to_zero() {
    let usage = openai_usage(&Some(JsonItem::Number(Some(4))), &None, &Some(JsonItem::Null));
    assert_eq!((usage.prompt_tokens, usage.completion_tokens, usage.total_tokens), (4, 0, 0));
}

#[test]
fn only_known_events_change_the_counts() {
    let before = ClaudeCounts { input_tokens: Some(1), output_tokens: Some(2) };
    let event = ClaudeEvent {
        kind: Some(JsonItem::Text("ping".to_string())),
        usage: Some(JsonItem::Object),
        output_tokens: Some(JsonItem::Number(Some(5))),
        message_usage: Some(JsonItem::Object),
        input_tokens: Some(JsonItem::Number(Some(6))),
    };
    assert_eq!(apply_event(before, &event), before);
    let delta = ClaudeEvent { kind: Some(JsonItem::Text("message_delta".to_string())), ..event };
    let after = apply_event(before, &delta);
    assert_eq!((after.input_tokens, after.output_tokens), (Some(1), Some(5)));
    let start = ClaudeEvent { kind: Some(JsonItem::Text("message_start".to_string())), ..delta };
    let after = apply_event(before, &start);
    assert_eq!((after.input_tokens, after.output_tokens), (Some(6), Some(2)));
}
