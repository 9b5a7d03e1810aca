use claude_gemini_proxy::cache::ToolSchemaCache;
use claude_gemini_proxy::claude::{
    ClaudeMessage, ClaudeRequest, ClaudeTool, ContentBlock, ContentType, JsonSchema,
    SystemPrompt,
};
use claude_gemini_proxy::gemini::GeminiPart;
use claude_gemini_proxy::json::{to_json_string, JsonValue};
use claude_gemini_proxy::request::{transform_request, transform_request_with_state};
use claude_gemini_proxy::state::ConversationState;
use claude_gemini_proxy::validation::{
    validate_claude_request, validate_json_schema, validate_tool_schema, validate_tools,
};

fn simple_schema(kind: &str) -> JsonSchema {
    JsonSchema {
        schema_type: kind.to_string(),
        description: None,
        properties: None,
        required: None,
        enum_values: None,
        items: None,
        minimum: None,
        maximum: None,
        pattern: None,
        additional: Vec::new(),
    }
}

fn make_valid_tool() -> ClaudeTool {
    let mut props = Vec::new();
    props.push(("text".to_string(), Box::new(simple_schema("string"))));
    let mut schema = simple_schema("object");
    schema.properties = Some(props);
    ClaudeTool {
        name: "test_tool".to_string(),
        description: "A test tool".to_string(),
        input_schema: schema,
    }
}

fn make_simple_request() -> ClaudeRequest {
    ClaudeRequest {
        model: "sonnet-latest".to_string(),
        messages: vec![ClaudeMessage {
            role: "user".to_string(),
            content: ContentType::Text("Hello".to_string()),
        }],
        system: None,
        max_tokens: Some(100),
        temperature: None,
        stop_sequences: None,
        stream: true,
        top_p: None,
        top_k: None,
        tools: None,
    }
}

#[test]
fn test_validate_simple_request() {
    assert!(validate_claude_request(&make_simple_request()).is_ok());
}

#[test]
fn test_validate_empty_messages() {
    let mut req = make_simple_request();
    req.messages.clear();
    assert!(validate_claude_request(&req).is_err());
}

#[test]
fn test_validate_first_message_not_user() {
    let mut req = make_simple_request();
    req.messages[0].role = "assistant".to_string();
    assert!(validate_claude_request(&req).is_err());
}

#[test]
fn test_validate_consecutive_assistant_messages() {
    let mut req = make_simple_request();
    req.messages.push(ClaudeMessage {
        role: "assistant".to_string(),
        content: ContentType::Text("Hi".to_string()),
    });
    req.messages.push(ClaudeMessage {
        role: "assistant".to_string(),
        content: ContentType::Text("How are you?".to_string()),
    });
    assert!(validate_claude_request(&req).is_err());
}

#[test]
fn test_validate_max_tokens_zero() {
    let mut req = make_simple_request();
    req.max_tokens = Some(0);
    assert!(validate_claude_request(&req).is_err());
}

#[test]
fn test_validate_max_tokens_too_large() {
    let mut req = make_simple_request();
    req.max_tokens = Some(2_000_000);
    assert!(validate_claude_request(&req).is_err());
}

#[test]
fn test_validate_temperature_negative() {
    let mut req = make_simple_request();
    req.temperature = Some(-100);
    assert!(validate_claude_request(&req).is_err());
}

#[test]
fn test_validate_temperature_too_high() {
    let mut req = make_simple_request();
    req.temperature = Some(2500);
    assert!(validate_claude_request(&req).is_err());
}

#[test]
fn test_validate_temperature_valid() {
    let mut req = make_simple_request();
    req.temperature = Some(700);
    assert!(validate_claude_request(&req).is_ok());
}

#[test]
fn test_validate_top_p_out_of_range() {
    let mut req = make_simple_request();
    req.top_p = Some(1500);
    assert!(validate_claude_request(&req).is_err());
}

#[test]
fn test_validate_top_k_zero() {
    let mut req = make_simple_request();
    req.top_k = Some(0);
    assert!(validate_claude_request(&req).is_err());
}

#[test]
fn test_validate_alternating_roles() {
    let mut req = make_simple_request();
    req.messages.push(ClaudeMessage {
        role: "assistant".to_string(),
        content: ContentType::Text("Hi".to_string()),
    });
    req.messages.push(ClaudeMessage {
        role: "user".to_string(),
        content: ContentType::Text("How are you?".to_string()),
    });
    assert!(validate_claude_request(&req).is_ok());
}

#[test]
fn test_validate_valid_tool() {
    assert!(validate_tool_schema(&make_valid_tool()).is_ok());
}

#[test]
fn test_empty_name() {
    let mut tool = make_valid_tool();
    tool.name = "".to_string();
    assert!(validate_tool_schema(&tool).is_err());
}

#[test]
fn test_name_too_long() {
    let mut tool = make_valid_tool();
    tool.name = "a".repeat(65);
    assert!(validate_tool_schema(&tool).is_err());
}

#[test]
fn test_empty_description() {
    let mut tool = make_valid_tool();
    tool.description = "".to_string();
    assert!(validate_tool_schema(&tool).is_err());
}

#[test]
fn test_invalid_schema_type() {
    let mut tool = make_valid_tool();
    tool.input_schema.schema_type = "invalid_type".to_string();
    assert!(validate_tool_schema(&tool).is_err());
}

#[test]
fn test_nested_schema_depth() {
    fn build_nested_schema(depth: usize) -> JsonSchema {
        if depth == 0 {
            simple_schema("string")
        } else {
            let mut props = Vec::new();
            props.push(("nested".to_string(), Box::new(build_nested_schema(depth - 1))));
            let mut s = simple_schema("object");
            s.properties = Some(props);
            s
        }
    }
    let deep_schema = build_nested_schema(12);
    assert!(validate_json_schema(&deep_schema, 0).is_err());
}

#[test]
fn test_invalid_numeric_range() {
    let mut schema = simple_schema("number");
    schema.minimum = Some(100);
    schema.maximum = Some(10);
    assert!(validate_json_schema(&schema, 0).is_err());
}

#[test]
fn test_validate_duplicate_tools() {
    let tools = vec![make_valid_tool(), make_valid_tool()];
    assert!(validate_tools(&tools).is_err());
}

#[test]
fn test_validate_empty_tools() {
    assert!(validate_tools(&Vec::new()).is_ok());
}

#[test]
fn test_transform_request_simple() {
    let gemini_req = transform_request(&make_simple_request()).unwrap();
    assert_eq!(gemini_req.contents.len(), 1);
    assert_eq!(gemini_req.contents[0].role, Some("user".to_string()));
    assert_eq!(gemini_req.contents[0].parts.len(), 1);
    assert!(gemini_req.system_instruction.is_none());
    assert_eq!(gemini_req.generation_config.as_ref().unwrap().max_output_tokens, Some(100));
}

#[test]
fn test_transform_request_role_mapping() {
    let mut req = make_simple_request();
    req.messages.push(ClaudeMessage {
        role: "assistant".to_string(),
        content: ContentType::Text("Hi there!".to_string()),
    });
    let gemini_req = transform_request(&req).unwrap();
    assert_eq!(gemini_req.contents.len(), 2);
    assert_eq!(gemini_req.contents[0].role, Some("user".to_string()));
    assert_eq!(gemini_req.contents[1].role, Some("model".to_string()));
}

#[test]
fn test_transform_request_invalid_role() {
    let mut req = make_simple_request();
    req.messages[0].role = "invalid".to_string();
    assert!(transform_request(&req).is_err());
}

#[test]
fn test_transform_request_with_system() {
    let mut req = make_simple_request();
    req.system = Some(SystemPrompt::Text("You are a Rust expert".to_string()));
    req.temperature = Some(700);
    let gemini_req = transform_request(&req).unwrap();
    assert!(gemini_req.system_instruction.is_some());
    assert_eq!(gemini_req.generation_config.as_ref().unwrap().temperature, Some(700));
}

#[test]
fn test_tool_result_with_state() {
    let mut state = ConversationState::new();
    state.register_tool_use(
        "toolu_X".to_string(),
        "get_weather".to_string(),
        None,
        JsonValue::Obj(Vec::new()),
    );
    let mut req = make_simple_request();
    req.messages = vec![ClaudeMessage {
        role: "user".to_string(),
        content: ContentType::Blocks(vec![ContentBlock::ToolResult {
            tool_use_id: "toolu_X".to_string(),
            content: "Sunny".to_string(),
            is_error: None,
        }]),
    }];
    let mut cache = ToolSchemaCache::new();
    let mut metrics = claude_gemini_proxy::metrics::ToolMetrics::new();
    let g = transform_request_with_state(&req, Some(&state), false, &mut cache, &mut metrics)
        .unwrap();
    assert_eq!(metrics.tool_results_processed, 1);
    assert_eq!(metrics.state_lookup_failures, 0);
    assert_eq!(g.contents.len(), 1);
    assert_eq!(g.contents[0].parts.len(), 1);
    match &g.contents[0].parts[0] {
        GeminiPart::FunctionResponse { function_response } => {
            assert_eq!(function_response.name, "get_weather");
            let body = to_json_string(&function_response.response);
            assert_eq!(body, "{\"result\":\"Sunny\",\"error\":false}");
        }
        _ => panic!("expected a function response"),
    }
}

#[test]
fn test_history_pruning() {
    let mut req = make_simple_request();
    req.messages = vec![
        ClaudeMessage {
            role: "user".to_string(),
            content: ContentType::Text("first".to_string()),
        },
        ClaudeMessage {
            role: "assistant".to_string(),
            content: ContentType::Text("a1".to_string()),
        },
        ClaudeMessage {
            role: "user".to_string(),
            content: ContentType::Text("stale".to_string()),
        },
        ClaudeMessage {
            role: "assistant".to_string(),
            content: ContentType::Text("a2".to_string()),
        },
        ClaudeMessage {
            role: "user".to_string(),
            content: ContentType::Text("latest".to_string()),
        },
    ];
    let g = transform_request(&req).unwrap();
    assert_eq!(g.contents.len(), 4);
    let roles: Vec<String> =
        g.contents.iter().map(|c| c.role.clone().unwrap()).collect();
    assert_eq!(roles, vec!["user", "model", "model", "user"]);
}

#[test]
fn test_schema_field_filtering() {
    let mut schema = simple_schema("object");
    schema.additional.push((
        "additionalProperties".to_string(),
        JsonValue::Bool(false),
    ));
    schema.additional.push((
        "$schema".to_string(),
        JsonValue::Str("http://example.invalid".to_string()),
    ));
    let serialized = to_json_string(&schema.to_json());
    assert!(!serialized.contains("additionalProperties"));
    assert!(!serialized.contains("$schema"));
    assert_eq!(serialized, "{\"type\":\"object\"}");
}

#[test]
fn test_cache_miss_then_hit() {
    let mut cache = ToolSchemaCache::new();
    let tool = make_valid_tool();
    assert_eq!(cache.len(), 0);
    let result1 = cache.get_or_transform(&tool);
    assert_eq!(cache.len(), 1);
    let result2 = cache.get_or_transform(&tool);
    assert_eq!(cache.len(), 1);
    assert_eq!(result1.name, result2.name);
    assert_eq!(result1.description, result2.description);
}

#[test]
fn test_cache_clear() {
    let mut cache = ToolSchemaCache::new();
    cache.get_or_transform(&make_valid_tool());
    assert_eq!(cache.len(), 1);
    cache.clear();
    assert_eq!(cache.len(), 0);
    assert!(cache.is_empty());
}

#[test]
fn test_tool_result_state_lookup_failure_metric() {
    // A tool result whose id no store entry resolves falls back to the id
    // as the function name and records a state-lookup failure.
    let state = ConversationState::new();
    let mut req = make_simple_request();
    req.messages = vec![ClaudeMessage {
        role: "user".to_string(),
        content: ContentType::Blocks(vec![ContentBlock::ToolResult {
            tool_use_id: "toolu_unknown".to_string(),
            content: "data".to_string(),
            is_error: Some(true),
        }]),
    }];
    let mut cache = ToolSchemaCache::new();
    let mut metrics = claude_gemini_proxy::metrics::ToolMetrics::new();
    let g = transform_request_with_state(&req, Some(&state), false, &mut cache, &mut metrics)
        .unwrap();
    match &g.contents[0].parts[0] {
        GeminiPart::FunctionResponse { function_response } => {
            assert_eq!(function_response.name, "toolu_unknown");
            let body = to_json_string(&function_response.response);
            assert_eq!(body, "{\"result\":\"data\",\"error\":true}");
        }
        _ => panic!("expected a function response"),
    }
    assert_eq!(metrics.tool_results_processed, 1);
    assert_eq!(metrics.state_lookup_failures, 1);
}

#[test]
fn test_transform_tools_records_metrics() {
    let tools = vec![make_valid_tool()];
    let mut cache = ToolSchemaCache::new();
    let mut metrics = claude_gemini_proxy::metrics::ToolMetrics::new();
    let wrapped =
        claude_gemini_proxy::tools::transform_tools(&tools, &mut cache, &mut metrics).unwrap();
    assert_eq!(wrapped.len(), 1);
    assert_eq!(wrapped[0].function_declarations.len(), 1);
    assert_eq!(wrapped[0].function_declarations[0].name, "test_tool");
    assert_eq!(metrics.total_calls, 1);
    assert_eq!(metrics.successful_transformations, 1);
}
