use chennix::sse::SseFrameParser;

#[test]
fn test_sse_frame_parser_simple() {
    let mut parser = SseFrameParser::new();
    let chunk = "event: message_start\ndata: {\"type\":\"message_start\"}\n\n";
    let frames = parser.feed(chunk.as_bytes());
    assert_eq!(frames.len(), 1);
    assert_eq!(frames[0].0, "message_start");
    let data: serde_json::Value = serde_json::from_str(&frames[0].1).unwrap();
    assert_eq!(data["type"], "message_start");
}

#[test]
fn test_sse_frame_parser_multiple_events() {
    let mut parser = SseFrameParser::new();
    let chunk = "event: content_block_start\ndata: {\"type\":\"content_block_start\"}\n\nevent: content_block_delta\ndata: {\"type\":\"content_block_delta\"}\n\n";
    let frames = parser.feed(chunk.as_bytes());
    assert_eq!(frames.len(), 2);
    assert_eq!(frames[0].0, "content_block_start");
    assert_eq!(frames[1].0, "content_block_delta");
}

#[test]
fn test_sse_frame_parser_split_across_chunks() {
    let mut parser = SseFrameParser::new();
    // First chunk: partial event
    let frames1 = parser.feed(b"event: message_start\ndata: {\"type\":\"");
    assert!(frames1.is_empty());
    // Second chunk: rest of the event
    let frames2 = parser.feed(b"message_start\"}\n\n");
    assert_eq!(frames2.len(), 1);
    assert_eq!(frames2[0].0, "message_start");
}

#[test]
fn test_sse_frame_parser_no_event_type() {
    let mut parser = SseFrameParser::new();
    let frames = parser.feed(b"data: {\"type\":\"ping\"}\n\n");
    assert_eq!(frames.len(), 1);
    assert_eq!(frames[0].0, "message"); // default event type
}

#[test]
fn test_sse_frame_parser_multiline_data() {
    let mut parser = SseFrameParser::new();
    let chunk = "event: message_delta\ndata: {\"type\":\"message_delta\"\ndata: ,\"usage\":{\"output_tokens\":5}}\n\n";
    let frames = parser.feed(chunk.as_bytes());
    assert_eq!(frames.len(), 1);
    assert_eq!(frames[0].0, "message_delta");
    // Multi-line data should be joined with \n
    assert_eq!(frames[0].1, "{\"type\":\"message_delta\"\n,\"usage\":{\"output_tokens\":5}}");
}

#[test]
fn the_cut_of_a_stream_does_not_matter() {
    let text = "event: a\ndata: 1\n\n: note\n\ndata: 2\ndata: 3\n\nevent: b\n\nevent: c\ndata: ü\n\ntail";
    let mut whole = SseFrameParser::new();
    let expected = whole.feed(text.as_bytes());
    assert!(!expected.is_empty());
    let boundaries: Vec<usize> = text.char_indices().map(|(i, _)| i).collect();
    for cut in boundaries {
        let mut parser = SseFrameParser::new();
        let mut frames = parser.feed(text[..cut].as_bytes());
        frames.extend(parser.feed(text[cut..].as_bytes()));
        assert_eq!(frames, expected, "cut at {}", cut);
    }
}

#[test]
fn frames_without_data_are_left_out() {
    let mut parser = SseFrameParser::new();
    assert!(parser.feed(b"event: ping\n\n").is_empty());
    assert_eq!(parser.feed(b"data: x\n\n"), vec![("message".to_string(), "x".to_string())]);
}
