use agentbox::usage::{contains_usage_hint, UsageExtractor};

#[test]
fn test_anthropic_message_start() {
    let mut extractor = UsageExtractor::new("/v1/messages");
    let chunk = b"event: message_start\ndata: {\"type\":\"message_start\",\"message\":{\"id\":\"msg_1\",\"model\":\"sonnet-4-20250514\",\"usage\":{\"input_tokens\":100,\"cache_read_input_tokens\":20,\"cache_creation_input_tokens\":10}}}\n\n";
    extractor.process_chunk(chunk);
    assert_eq!(extractor.snapshot.input_tokens, 100);
    assert_eq!(extractor.snapshot.cache_read_tokens, 20);
    assert_eq!(extractor.snapshot.cache_creation_tokens, 10);
    assert_eq!(extractor.snapshot.model, "sonnet-4-20250514");
}

#[test]
fn test_anthropic_message_delta() {
    let mut extractor = UsageExtractor::new("/v1/messages");
    let start = b"data: {\"type\":\"message_start\",\"message\":{\"usage\":{\"input_tokens\":100}}}\n\n";
    extractor.process_chunk(start);
    let delta = b"data: {\"type\":\"message_delta\",\"delta\":{\"stop_reason\":\"end_turn\"},\"usage\":{\"output_tokens\":50}}\n\n";
    extractor.process_chunk(delta);
    assert_eq!(extractor.snapshot.output_tokens, 50);
    assert_eq!(extractor.snapshot.finish_reason, "end_turn");
    assert_eq!(extractor.snapshot.input_tokens, 100);
}

#[test]
fn test_openai_usage() {
    let mut extractor = UsageExtractor::new("/v1/chat/completions");
    let chunk = b"data: {\"id\":\"chatcmpl-1\",\"model\":\"gpt-4o\",\"choices\":[{\"finish_reason\":\"stop\"}],\"usage\":{\"prompt_tokens\":80,\"completion_tokens\":30,\"total_tokens\":110}}\n\ndata: [DONE]\n\n";
    extractor.process_chunk(chunk);
    assert_eq!(extractor.snapshot.input_tokens, 80);
    assert_eq!(extractor.snapshot.output_tokens, 30);
    assert_eq!(extractor.snapshot.model, "gpt-4o");
    assert_eq!(extractor.snapshot.finish_reason, "stop");
}

#[test]
fn test_has_usage() {
    let mut extractor = UsageExtractor::new("/v1/messages");
    assert!(!extractor.has_usage());
    extractor.snapshot.input_tokens = 10;
    assert!(extractor.has_usage());
}

#[test]
fn test_stats_counters() {
    let mut extractor = UsageExtractor::new("/v1/messages");
    let content = b"data: {\"type\":\"content_block_delta\",\"delta\":{\"type\":\"text_delta\",\"text\":\"hello\"}}\n\n";
    extractor.process_chunk(content);
    assert!(!extractor.has_usage());
    let start = b"data: {\"type\":\"message_start\",\"message\":{\"usage\":{\"input_tokens\":100}}}\n\n";
    extractor.process_chunk(start);
    assert!(extractor.has_usage());
    assert_eq!(extractor.snapshot.input_tokens, 100);
    let delta = b"data: {\"type\":\"message_delta\",\"usage\":{\"output_tokens\":50}}\n\n";
    extractor.process_chunk(delta);
    assert_eq!(extractor.snapshot.output_tokens, 50);
}

#[test]
fn non_stream_anthropic_body_is_read_whole() {
    let mut extractor = UsageExtractor::new("/v1/messages");
    let body = b"{\"model\":\"sonnet-x\",\"stop_reason\":\"max_tokens\",\"usage\":{\"input_tokens\":7,\"output_tokens\":9,\"cache_read_input_tokens\":3}}";
    extractor.process_chunk(body);
    assert_eq!(extractor.snapshot.input_tokens, 7);
    assert_eq!(extractor.snapshot.output_tokens, 9);
    assert_eq!(extractor.snapshot.cache_read_tokens, 3);
    assert_eq!(extractor.snapshot.cache_creation_tokens, 0);
    assert_eq!(extractor.snapshot.model, "sonnet-x");
    assert_eq!(extractor.snapshot.finish_reason, "max_tokens");
}

#[test]
fn openai_responses_names_and_cached_tokens() {
    let mut extractor = UsageExtractor::new("/v1/responses");
    let chunk = b"data: {\"usage\":{\"input_tokens\":12,\"output_tokens\":4,\"prompt_tokens_details\":{\"cached_tokens\":5}}}\r\n";
    extractor.process_chunk(chunk);
    assert_eq!(extractor.snapshot.input_tokens, 12);
    assert_eq!(extractor.snapshot.output_tokens, 4);
    assert_eq!(extractor.snapshot.cache_read_tokens, 5);
}

#[test]
fn invalid_utf8_chunk_changes_nothing() {
    let mut extractor = UsageExtractor::new("/v1/messages");
    extractor.process_chunk(&[0xff, 0xfe, b'"', b'u']);
    assert!(!extractor.has_usage());
    assert_eq!(extractor.snapshot.model, "");
}

#[test]
fn chunk_without_usage_keys_keeps_snapshot() {
    let mut extractor = UsageExtractor::new("/v1/chat/completions");
    extractor.process_chunk(b"data: {\"usage\":{\"prompt_tokens\":3,\"completion_tokens\":2}}\n");
    extractor.process_chunk(b"data: {\"model\":\"m\",\"choices\":[{\"delta\":{}}]}\n");
    assert_eq!(extractor.snapshot.input_tokens, 3);
    assert_eq!(extractor.snapshot.output_tokens, 2);
    assert_eq!(extractor.snapshot.model, "");
}

#[test]
fn usage_hint_keys() {
    assert!(contains_usage_hint("{\"usage\":1}"));
    assert!(contains_usage_hint("x \"message_stop\" y"));
    assert!(!contains_usage_hint("usage without quotes"));
    assert!(!contains_usage_hint(""));
}
