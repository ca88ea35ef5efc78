use lean_ctx::introspect::{
    analyze_request, is_fresh, persisted_snapshot, try_analyze_request, IntrospectState, Provider,
};
use lean_ctx::json::{Json, JsonKind};

/// Builds the analysis tree of a JSON text the way the proxy does.
fn tree(v: &serde_json::Value) -> Json {
    let kind = match v {
        serde_json::Value::Null => JsonKind::Null,
        serde_json::Value::Bool(b) => JsonKind::Bool(*b),
        serde_json::Value::Number(n) => JsonKind::Number(n.to_string()),
        serde_json::Value::String(s) => JsonKind::Str(s.clone()),
        serde_json::Value::Array(items) => JsonKind::Array(items.iter().map(tree).collect()),
        serde_json::Value::Object(map) => {
            JsonKind::Object(map.iter().map(|(k, v)| (k.clone(), tree(v))).collect())
        }
    };
    Json { kind, text_len: v.to_string().len() }
}

fn body(text: &str) -> Json {
    tree(&serde_json::from_str::<serde_json::Value>(text).unwrap())
}

#[test]
fn anthropic_basic() {
    let body = body(
        r#"{
            "model": "sonnet-4-20250514",
            "system": "You are a helpful assistant.",
            "messages": [
                {"role": "user", "content": "Hello"},
                {"role": "assistant", "content": "Hi there!"}
            ],
            "tools": [{"name": "read", "description": "Read a file", "input_schema": {}}]
        }"#,
    );
    let b = analyze_request(&body, Provider::Anthropic);
    assert_eq!(b.provider, Provider::Anthropic);
    assert!(b.system_prompt_tokens > 0);
    assert_eq!(b.message_count, 2);
    assert!(b.user_message_tokens > 0);
    assert!(b.assistant_message_tokens > 0);
    assert_eq!(b.tool_definition_count, 1);
    assert!(b.tool_definition_tokens > 0);
}

#[test]
fn openai_system_message() {
    let body = body(
        r#"{
            "model": "gpt-4o",
            "messages": [
                {"role": "system", "content": "System prompt here"},
                {"role": "user", "content": "Hello"},
                {"role": "tool", "content": "tool result data", "tool_call_id": "x"}
            ]
        }"#,
    );
    let b = analyze_request(&body, Provider::OpenAi);
    assert!(b.system_prompt_tokens > 0);
    assert!(b.user_message_tokens > 0);
    assert!(b.tool_result_tokens > 0);
    assert_eq!(b.message_count, 3);
}

#[test]
fn gemini_system_instruction() {
    let body = body(
        r#"{
            "systemInstruction": {
                "parts": [{"text": "Be concise and helpful to the user at all times."}]
            },
            "contents": [
                {"role": "user", "parts": [{"text": "What is the meaning of life and everything?"}]},
                {"role": "model", "parts": [{"text": "The answer is 42 according to Douglas Adams."}]}
            ]
        }"#,
    );
    let b = analyze_request(&body, Provider::Gemini);
    assert!(b.system_prompt_tokens > 0);
    assert!(b.user_message_tokens > 0);
    assert!(b.assistant_message_tokens > 0);
    assert_eq!(b.message_count, 2);
}

#[test]
fn anthropic_exact_counts() {
    let body = body(
        r#"{
            "system": [{"type": "text", "text": "0123456789abcdef"}, {"text": "12345678"}],
            "messages": [
                {"role": "user", "content": [
                    {"type": "text", "text": "abcdefgh"},
                    {"type": "image", "source": {}}
                ]},
                {"role": "user", "content": [{"type": "tool_result", "content": "x"}]},
                {"role": "assistant", "content": "123456789012"},
                {"role": "other", "content": 12345678}
            ],
            "tools": []
        }"#,
    );
    let b = analyze_request(&body, Provider::Anthropic);
    assert_eq!(b.model, "unknown");
    // (16 + 8) / 4
    assert_eq!(b.system_prompt_tokens, 6);
    // 8/4 + len({"type":"image","source":{}})/4 for the user message,
    // 8/4 for the number of the "other" role
    let image_block_len = r#"{"source":{},"type":"image"}"#.len();
    assert_eq!(b.user_message_tokens, 2 + image_block_len / 4 + 2);
    let tool_block_len = r#"{"content":"x","type":"tool_result"}"#.len();
    assert_eq!(b.tool_result_tokens, tool_block_len / 4);
    assert_eq!(b.assistant_message_tokens, 3);
    assert_eq!(b.image_count, 1);
    assert_eq!(b.tool_definition_count, 0);
    assert_eq!(b.tool_definition_tokens, 0);
    assert_eq!(
        b.total_input_tokens,
        b.system_prompt_tokens + b.user_message_tokens + b.assistant_message_tokens
            + b.tool_definition_tokens + b.tool_result_tokens
    );
    assert_eq!(b.message_count, 4);
}

#[test]
fn openai_roles_and_images() {
    let body = body(
        r#"{
            "model": "m",
            "messages": [
                {"role": "developer", "content": "12345678"},
                {"content": "1234"},
                {"role": "user", "content": [{"type": "image_url", "image_url": {"url": "u"}}]}
            ],
            "tools": [{"type": "function"}, {"type": "function"}]
        }"#,
    );
    let b = analyze_request(&body, Provider::OpenAi);
    assert_eq!(b.model, "m");
    assert_eq!(b.system_prompt_tokens, 2);
    let block_len = r#"{"image_url":{"url":"u"},"type":"image_url"}"#.len();
    assert_eq!(b.user_message_tokens, 1 + block_len / 4);
    assert_eq!(b.image_count, 1);
    assert_eq!(b.tool_definition_count, 2);
    assert_eq!(b.tool_definition_tokens, 2 * r#"{"type":"function"}"#.len() / 4);
}

#[test]
fn gemini_function_responses_and_declarations() {
    let body = body(
        r#"{
            "contents": [
                {"parts": [{"text": "12345678"}]},
                {"role": "user", "parts": [{"functionResponse": {"name": "f"}}, {"text": "1234"}]}
            ],
            "tools": [{"functionDeclarations": [{"name": "a"}, {"name": "b"}]}, {"other": 1}]
        }"#,
    );
    let b = analyze_request(&body, Provider::Gemini);
    assert_eq!(b.model, "gemini");
    assert_eq!(b.user_message_tokens, 2);
    let part_len = r#"{"functionResponse":{"name":"f"}}"#.len();
    assert_eq!(b.tool_result_tokens, part_len / 4 + 1);
    assert_eq!(b.tool_definition_count, 2);
    assert_eq!(b.image_count, 0);
}

#[test]
fn counts_that_overflow_are_reported() {
    let mut big = body(r#"{"messages": [{"role": "user", "content": 1}, {"role": "user", "content": 2}, {"role": "user", "content": 3}, {"role": "user", "content": 4}, {"role": "user", "content": 5}]}"#);
    if let JsonKind::Object(entries) = &mut big.kind {
        if let JsonKind::Array(msgs) = &mut entries[0].1.kind {
            for m in msgs.iter_mut() {
                if let JsonKind::Object(fields) = &mut m.kind {
                    for (k, v) in fields.iter_mut() {
                        if k == "content" {
                            v.text_len = usize::MAX;
                        }
                    }
                }
            }
        }
    }
    assert!(try_analyze_request(&big, Provider::Anthropic).is_none());
    let small = body(r#"{"messages": []}"#);
    assert!(try_analyze_request(&small, Provider::Anthropic).is_some());
}

#[test]
fn record_accumulates_and_persists_once_per_second() {
    let mut state = IntrospectState::new();
    let body = body(r#"{"system": "0123456789abcdef", "messages": []}"#);
    let b = analyze_request(&body, Provider::Anthropic);
    assert_eq!(state.record(b.clone(), 100), Some(100));
    assert_eq!(state.record(b.clone(), 100), None);
    assert_eq!(state.record(b.clone(), 99), None);
    assert_eq!(state.record(b, 101), Some(101));
    assert_eq!(state.total_requests, 4);
    assert_eq!(state.total_system_prompt_tokens, 16);
    assert_eq!(state.last_persist_epoch, 101);
}

#[test]
fn freshness_of_persisted_data() {
    assert!(is_fresh(1000, 700, 300));
    assert!(!is_fresh(1000, 699, 300));
    assert!(is_fresh(5, 10, 0));
}

#[test]
fn persisted_snapshots_are_read_when_fresh() {
    let text = r#"{"ts": 1000, "proxy_active": true}"#;
    let v = persisted_snapshot(text, 1200, 300).expect("fresh");
    assert_eq!(v["proxy_active"], true);
    assert!(persisted_snapshot(text, 1301, 300).is_none());
    assert!(persisted_snapshot(text, 1300, 300).is_some());
    assert!(persisted_snapshot(text, 10, 300).is_some());
    // No `ts`, or one that is not a u64: written at 0.
    assert!(persisted_snapshot(r#"{"proxy_active": true}"#, 300, 300).is_some());
    assert!(persisted_snapshot(r#"{"ts": "1000"}"#, 301, 300).is_none());
    assert!(persisted_snapshot(r#"{"ts": -5}"#, 301, 300).is_none());
    assert!(persisted_snapshot("not json", 0, 300).is_none());
}
