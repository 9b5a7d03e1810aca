use claude_gemini_proxy::config::{
    GeminiConfig, KimiConfig, ProviderConfig, ProxyConfig, ServerConfig,
};
use claude_gemini_proxy::metrics::ToolMetrics;
use claude_gemini_proxy::parser::StreamingJsonParser;
use claude_gemini_proxy::sse::SSEEventGenerator;
use claude_gemini_proxy::state::ConversationState;
use claude_gemini_proxy::tools::map_model_name;

#[test]
fn test_gemini_config_validation() {
    let valid_config = ProxyConfig {
        server: ServerConfig { listen_addr: "127.0.0.1:8080".to_string(), workers: 4 },
        provider: ProviderConfig::Gemini(GeminiConfig {
            api_key: "test-key".to_string(),
            endpoint: "test.googleapis.com".to_string(),
            default_model: None,
            auto_todo_prompt: true,
        }),
    };
    assert!(valid_config.validate().is_ok());

    let invalid_config = ProxyConfig {
        server: ServerConfig { listen_addr: "127.0.0.1:8080".to_string(), workers: 0 },
        provider: ProviderConfig::Gemini(GeminiConfig {
            api_key: "test-key".to_string(),
            endpoint: "test.googleapis.com".to_string(),
            default_model: None,
            auto_todo_prompt: true,
        }),
    };
    assert!(invalid_config.validate().is_err());
}

#[test]
fn test_kimi_config_validation() {
    let valid_config = ProxyConfig {
        server: ServerConfig { listen_addr: "127.0.0.1:8080".to_string(), workers: 4 },
        provider: ProviderConfig::Kimi(KimiConfig {
            api_key: "test-key".to_string(),
            endpoint: "https://api.moonshot.ai/anthropic".to_string(),
            model: "kimi-k2-thinking-turbo".to_string(),
        }),
    };
    assert!(valid_config.validate().is_ok());
}

#[test]
fn test_record_transformations() {
    let mut metrics = ToolMetrics::new();
    metrics.record_transformation(100);
    metrics.record_transformation(200);
    metrics.record_transformation(300);
    assert_eq!(metrics.total_calls, 3);
    assert_eq!(metrics.successful_transformations, 3);
    assert_eq!(metrics.avg_transform_time_us(), 200);
}

#[test]
fn test_record_failures() {
    let mut metrics = ToolMetrics::new();
    metrics.record_transformation(100);
    metrics.record_failure();
    metrics.record_failure();
    assert_eq!(metrics.total_calls, 3);
    assert_eq!(metrics.successful_transformations, 1);
    assert_eq!(metrics.failed_transformations, 2);
}

#[test]
fn test_tool_results() {
    let mut metrics = ToolMetrics::new();
    metrics.record_tool_result();
    metrics.record_tool_result();
    metrics.record_state_lookup_failure();
    assert_eq!(metrics.tool_results_processed, 2);
    assert_eq!(metrics.state_lookup_failures, 1);
}

#[test]
fn test_reset() {
    let mut metrics = ToolMetrics::new();
    metrics.record_transformation(100);
    metrics.record_failure();
    assert_eq!(metrics.total_calls, 2);
    metrics.reset();
    assert_eq!(metrics.total_calls, 0);
    assert_eq!(metrics.avg_transform_time_us(), 0);
}

#[test]
fn test_model_mapping() {
    assert_eq!(map_model_name("sonnet-20241022"), "gemini-3-pro-preview");
    assert_eq!(map_model_name("opus-20240229"), "gemini-3-pro-preview");
    assert_eq!(map_model_name("haiku-20240307"), "gemini-3-pro-preview");
    assert_eq!(map_model_name("unknown-model"), "gemini-3-pro-preview");
}

#[test]
fn test_model_mapping_fuzzy() {
    assert_eq!(map_model_name("an-opus-model"), "gemini-3-pro-preview");
    assert_eq!(map_model_name("a-sonnet-model"), "gemini-3-pro-preview");
    assert_eq!(map_model_name("opus-v2"), "gemini-3-pro-preview");
}

#[test]
fn test_parse_complete_object() {
    let mut parser = StreamingJsonParser::new();
    let data = br#"[{"candidates":[]}]"#;
    let chunks = parser.feed(data).unwrap();
    assert_eq!(chunks.len(), 1);
}

#[test]
fn test_parse_incomplete_chunks() {
    let mut parser = StreamingJsonParser::new();
    let chunk1 = br#"[{"candidates":[{"content":{"parts":[{"text":"H"#;
    let results1 = parser.feed(chunk1).unwrap();
    assert_eq!(results1.len(), 0);
    let chunk2 = br#"ello"}],"role":"model"}}]}]"#;
    let results2 = parser.feed(chunk2).unwrap();
    assert_eq!(results2.len(), 1);
}

#[test]
fn test_multiple_objects() {
    let mut parser = StreamingJsonParser::new();
    let data = br#"[{"candidates":[]},{"candidates":[]}]"#;
    let chunks = parser.feed(data).unwrap();
    assert_eq!(chunks.len(), 2);
}

#[test]
fn test_escaped_strings() {
    let mut parser = StreamingJsonParser::new();
    let data =
        br#"[{"candidates":[{"content":{"parts":[{"text":"He said \"hello\""}],"role":"model"}}]}]"#;
    let chunks = parser.feed(data).unwrap();
    assert_eq!(chunks.len(), 1);
}

#[test]
fn test_whitespace_handling() {
    let mut parser = StreamingJsonParser::new();
    let data = b"[\n  {\"candidates\": []}\n  ,\n  {\"candidates\": []}\n]";
    let chunks = parser.feed(data).unwrap();
    assert_eq!(chunks.len(), 2);
}

#[test]
fn test_parser_reset() {
    let mut parser = StreamingJsonParser::new();
    let data = br#"[{"candidates":[]}]"#;
    parser.feed(data).unwrap();
    assert!(parser.array_started());
    parser.reset();
    assert!(!parser.array_started());
    assert!(parser.buffer_is_empty());
}

#[test]
fn test_object_split_across_multiple_feeds() {
    let mut parser = StreamingJsonParser::new();
    let chunk1 = b"[{\"candidates\":[{\"content\":";
    let chunk2 = b"{\"parts\":[{\"text\":";
    let chunk3 = b"\"test\"}],\"role\":\"model\"}}]}]";
    assert_eq!(parser.feed(chunk1).unwrap().len(), 0);
    assert_eq!(parser.feed(chunk2).unwrap().len(), 0);
    let results = parser.feed(chunk3).unwrap();
    assert_eq!(results.len(), 1);
}

#[test]
fn test_register_and_retrieve() {
    let mut state = ConversationState::new();
    state.register_tool_use(
        "toolu_123".to_string(),
        "get_weather".to_string(),
        None,
        claude_gemini_proxy::json::JsonValue::Obj(Vec::new()),
    );
    let result = state.get_function_name("toolu_123");
    assert_eq!(result, Some("get_weather".to_string()));
    assert!(state.verify_round_trip("toolu_123"));
}

#[test]
fn test_missing_mapping() {
    let state = ConversationState::new();
    let result = state.get_function_name("toolu_nonexistent");
    assert_eq!(result, None);
}

#[test]
fn test_overwrite_mapping() {
    let mut state = ConversationState::new();
    state.register_tool_use(
        "toolu_123".to_string(),
        "first_func".to_string(),
        None,
        claude_gemini_proxy::json::JsonValue::Null,
    );
    state.register_tool_use(
        "toolu_123".to_string(),
        "second_func".to_string(),
        None,
        claude_gemini_proxy::json::JsonValue::Null,
    );
    assert_eq!(state.get_function_name("toolu_123"), Some("second_func".to_string()));
    assert_eq!(state.len(), 1);
}

#[test]
fn test_cleanup_by_ttl() {
    let mut state = ConversationState::with_retention(100);
    state.register_tool_use(
        "toolu_old".to_string(),
        "old_func".to_string(),
        None,
        claude_gemini_proxy::json::JsonValue::Null,
    );
    // All entries just written are far older than a clock reading of
    // u64::MAX, so a cleanup against it removes everything.
    let removed = state.cleanup_older_than(u64::MAX);
    assert_eq!(removed, 1);
    assert!(state.get_function_name("toolu_old").is_none());
}

#[test]
fn test_generate_header_and_text_events() {
    let mut event_gen = SSEEventGenerator::new("gemini-3-pro-preview".to_string());
    let mut parser = StreamingJsonParser::new();
    let chunks = parser
        .feed(br#"[{"candidates":[{"content":{"parts":[{"text":"Hello"}],"role":"model"}}],"usageMetadata":{"promptTokenCount":5}},{"candidates":[{"finishReason":"STOP"}]}]"#)
        .unwrap();
    assert_eq!(chunks.len(), 2);
    let mut names: Vec<String> = Vec::new();
    for chunk in chunks {
        for ev in event_gen.generate_events(chunk) {
            let first_line = ev.lines().next().unwrap().to_string();
            assert!(ev.starts_with("event: "));
            assert!(ev.ends_with("\n\n"));
            assert!(ev.contains("\ndata: "));
            names.push(first_line);
        }
    }
    assert_eq!(
        names,
        vec![
            "event: message_start".to_string(),
            "event: content_block_start".to_string(),
            "event: content_block_delta".to_string(),
            "event: content_block_stop".to_string(),
            "event: message_delta".to_string(),
            "event: message_stop".to_string(),
        ]
    );
    let (input, _output) = event_gen.token_counts();
    assert_eq!(input, 5);
}

#[test]
fn test_function_call_events_and_correlation() {
    let mut event_gen = SSEEventGenerator::new("gemini-3-pro-preview".to_string());
    let mut parser = StreamingJsonParser::new();
    let chunks = parser
        .feed(br#"[{"candidates":[{"content":{"parts":[{"functionCall":{"name":"get_weather","args":{"location":"SF"}}}],"role":"model"},"finishReason":"STOP"}]}]"#)
        .unwrap();
    assert_eq!(chunks.len(), 1);
    let mut all = Vec::new();
    for chunk in chunks {
        all.extend(event_gen.generate_events(chunk));
    }
    let names: Vec<&str> = all.iter().map(|e| e.lines().next().unwrap()).collect();
    assert_eq!(
        names,
        vec![
            "event: message_start",
            "event: content_block_start",
            "event: content_block_start",
            "event: content_block_delta",
            "event: content_block_stop",
            "event: message_delta",
            "event: message_stop",
        ]
    );
    assert!(all[2].contains("\"index\":1"));
    assert!(all[2].contains("tool_use"));
    assert!(all[3].contains("{\\\"location\\\":\\\"SF\\\"}"));
    assert!(all[5].contains("tool_use"));
    let store = event_gen.store();
    assert_eq!(store.len(), 1);
}

#[test]
fn test_finish_reason_mapping() {
    let event_gen = SSEEventGenerator::new("test".to_string());
    assert_eq!(event_gen.map_finish_reason("STOP"), "end_turn");
    assert_eq!(event_gen.map_finish_reason("MAX_TOKENS"), "max_tokens");
    assert_eq!(event_gen.map_finish_reason("SAFETY"), "stop_sequence");
    assert_eq!(event_gen.map_finish_reason("UNKNOWN"), "end_turn");
}

#[test]
fn test_format_error() {
    let error_sse = SSEEventGenerator::format_error("api_error", "Something went wrong");
    assert!(error_sse.contains("event: error"));
    assert!(error_sse.contains("api_error"));
    assert!(error_sse.contains("Something went wrong"));
}

#[test]
fn test_cleanup_reports_clock_reading() {
    let mut state = ConversationState::with_retention(3_600_000);
    state.register_tool_use(
        "toolu_fresh".to_string(),
        "fresh_func".to_string(),
        None,
        claude_gemini_proxy::json::JsonValue::Null,
    );
    let (removed, now_ms) = state.cleanup_old_entries();
    // An entry registered a moment ago is within a one-hour retention.
    assert_eq!(removed, 0);
    assert!(now_ms > 0);
    assert!(state.get_function_name("toolu_fresh").is_some());
}

#[test]
fn test_register_advances_request_index() {
    let mut state = ConversationState::new();
    assert_eq!(state.current_request_count(), 0);
    state.register_tool_use(
        "toolu_a".to_string(),
        "func_a".to_string(),
        None,
        claude_gemini_proxy::json::JsonValue::Null,
    );
    assert_eq!(state.current_request_count(), 1);
    state.register_tool_use(
        "toolu_b".to_string(),
        "func_b".to_string(),
        None,
        claude_gemini_proxy::json::JsonValue::Null,
    );
    assert_eq!(state.current_request_count(), 2);
    let meta_a = state.get_metadata("toolu_a").unwrap();
    let meta_b = state.get_metadata("toolu_b").unwrap();
    assert_eq!(meta_a.request_index, 0);
    assert_eq!(meta_b.request_index, 1);
}

#[test]
fn test_conversation_context_tracking() {
    let mut state = ConversationState::new();
    state.register_tool_use_with_context(
        "toolu_1".to_string(),
        "func_1".to_string(),
        None,
        claude_gemini_proxy::json::JsonValue::Null,
        Some("conv_a".to_string()),
    );
    state.register_tool_use_with_context(
        "toolu_2".to_string(),
        "func_2".to_string(),
        None,
        claude_gemini_proxy::json::JsonValue::Null,
        Some("conv_b".to_string()),
    );
    state.register_tool_use_with_context(
        "toolu_3".to_string(),
        "func_3".to_string(),
        None,
        claude_gemini_proxy::json::JsonValue::Null,
        Some("conv_a".to_string()),
    );
    let conv_a = state.get_by_conversation("conv_a");
    assert_eq!(conv_a.len(), 2);
    assert_eq!(conv_a[0].0, "toolu_1");
    assert_eq!(conv_a[1].0, "toolu_3");
    let sorted = state.get_sorted_by_request_index();
    assert_eq!(sorted.len(), 3);
    assert!(sorted[0].1.request_index <= sorted[1].1.request_index);
    assert!(sorted[1].1.request_index <= sorted[2].1.request_index);
    assert_eq!(sorted[0].0, "toolu_1");
    assert_eq!(sorted[2].0, "toolu_3");
}

#[test]
fn test_parser_reset_after_large_buffer() {
    let mut parser = StreamingJsonParser::new();
    // Leave a large partial object pending, then reset: the parser starts
    // over cleanly.
    let mut big = Vec::new();
    big.extend_from_slice(b"[{\"text\":\"");
    big.resize(100_000, b'a');
    parser.feed(&big).unwrap();
    assert!(!parser.buffer_is_empty());
    parser.reset();
    assert!(parser.buffer_is_empty());
    assert!(!parser.array_started());
    let chunks = parser.feed(br#"[{"candidates":[]}]"#).unwrap();
    assert_eq!(chunks.len(), 1);
}

#[test]
fn test_unicode_whitespace_is_blank() {
    // Text of only non-breaking spaces carries nothing visible, so it
    // opens no message.
    let mut event_gen = SSEEventGenerator::new("gemini-3-pro-preview".to_string());
    let mut parser = StreamingJsonParser::new();
    let chunks = parser
        .feed("[{\"candidates\":[{\"content\":{\"parts\":[{\"text\":\"\u{a0}\u{a0}\"}],\"role\":\"model\"}}]}]".as_bytes())
        .unwrap();
    assert_eq!(chunks.len(), 1);
    let mut all = Vec::new();
    for chunk in chunks {
        all.extend(event_gen.generate_events(chunk));
    }
    assert!(all.is_empty());
    assert!(!event_gen.is_header_sent());
}

#[test]
fn test_no_events_after_message_stop() {
    // The machine is terminal once the stop sequence went out: a second
    // finishing chunk from a malformed upstream emits nothing.
    let mut event_gen = SSEEventGenerator::new("gemini-3-pro-preview".to_string());
    let mut parser = StreamingJsonParser::new();
    let chunks = parser
        .feed(br#"[{"candidates":[{"content":{"parts":[{"text":"Hi"}],"role":"model"},"finishReason":"STOP"}]},{"candidates":[{"finishReason":"STOP"}]}]"#)
        .unwrap();
    assert_eq!(chunks.len(), 2);
    let mut all = Vec::new();
    for chunk in chunks {
        all.extend(event_gen.generate_events(chunk));
    }
    let stops = all.iter().filter(|e| e.starts_with("event: message_stop")).count();
    assert_eq!(stops, 1);
    assert!(event_gen.is_done());
    assert_eq!(all.len(), 6);
}
