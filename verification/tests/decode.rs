use guardrail::{
    canonical_tool_calls, decode_response, response_with_text, response_with_tool_calls,
    JsonValue, ModelOutput, ToolCall,
};

fn json(text: &str) -> JsonValue {
    JsonValue::parse(text).expect("test JSON is valid")
}

fn native_response(tool_calls: &str) -> JsonValue {
    json(&format!(
        r#"{{"id": "chatcmpl-1", "object": "chat.completion", "choices": [{{"index": 0, "message": {{"role": "assistant", "content": null, "tool_calls": {}}}, "finish_reason": "tool_calls"}}]}}"#,
        tool_calls
    ))
}

fn text_at<'a>(v: &'a JsonValue, keys: &[&str]) -> Option<&'a str> {
    member(v, keys).and_then(|x| x.as_str())
}

fn member<'a>(v: &'a JsonValue, keys: &[&str]) -> Option<&'a JsonValue> {
    let mut cur = v;
    for k in keys {
        cur = match k.parse::<usize>() {
            Ok(i) => cur.at(i)?,
            Err(_) => cur.get(k)?,
        };
    }
    Some(cur)
}

#[test]
fn decodes_native_tool_calls() {
    let resp = native_response(
        r#"[{"id": "call_abc", "type": "function", "function": {"name": "get_weather", "arguments": "{\"city\":\"Paris\"}"}}]"#,
    );
    let out = decode_response(&resp);
    assert_eq!(
        out,
        ModelOutput::ToolCalls(vec![ToolCall {
            id: Some("call_abc".into()),
            name: "get_weather".into(),
            arguments: "{\"city\":\"Paris\"}".into(),
        }])
    );
}

#[test]
fn decodes_plain_text_when_no_tool_calls() {
    let resp = json(r#"{"choices": [{"index": 0, "message": {"role": "assistant", "content": "hello"}}]}"#);
    assert_eq!(decode_response(&resp), ModelOutput::Text("hello".into()));
}

#[test]
fn null_content_decodes_to_empty_text() {
    let resp = json(r#"{"choices": [{"index": 0, "message": {"role": "assistant", "content": null}}]}"#);
    assert_eq!(decode_response(&resp), ModelOutput::Text(String::new()));
}

#[test]
fn empty_tool_calls_array_falls_through_to_text() {
    let resp = json(r#"{"choices": [{"index": 0, "message": {"content": "fallback", "tool_calls": []}}]}"#);
    assert_eq!(decode_response(&resp), ModelOutput::Text("fallback".into()));
}

#[test]
fn arguments_object_is_normalised_to_string() {
    let resp = native_response(r#"[{"id": "call_1", "function": {"name": "f", "arguments": {"a": 1}}}]"#);
    let ModelOutput::ToolCalls(calls) = decode_response(&resp) else {
        panic!("expected tool calls");
    };
    assert_eq!(calls[0].arguments, "{\"a\":1}");
}

#[test]
fn native_tool_calls_round_trip_through_canonical() {
    let native_text = r#"[{"id": "call_abc", "type": "function", "function": {"name": "get_weather", "arguments": "{\"city\":\"Paris\"}"}}]"#;
    let native = json(native_text);
    let resp = native_response(native_text);

    let ModelOutput::ToolCalls(calls) = decode_response(&resp) else {
        panic!("expected tool calls");
    };
    assert_eq!(canonical_tool_calls(&calls), native);
}

#[test]
fn canonical_mints_id_when_missing() {
    let calls = vec![ToolCall {
        id: None,
        name: "f".into(),
        arguments: "{}".into(),
    }];
    let canonical = canonical_tool_calls(&calls);
    assert_eq!(text_at(&canonical, &["0", "id"]), Some("call_0"));
    assert_eq!(text_at(&canonical, &["0", "type"]), Some("function"));
}

#[test]
fn response_with_tool_calls_preserves_template_fields() {
    let template = json(
        r#"{"id": "chatcmpl-7", "model": "local-model", "usage": {"total_tokens": 9}, "choices": [{"index": 0, "message": {"role": "assistant", "content": "junk"}}]}"#,
    );
    let calls = vec![ToolCall {
        id: Some("call_1".into()),
        name: "f".into(),
        arguments: "{\"a\":1}".into(),
    }];
    let out = response_with_tool_calls(&template, &calls);

    // Top-level metadata preserved.
    assert_eq!(text_at(&out, &["id"]), Some("chatcmpl-7"));
    assert_eq!(text_at(&out, &["model"]), Some("local-model"));
    assert_eq!(member(&out, &["usage", "total_tokens"]), Some(&JsonValue::Number("9".into())));
    // Message replaced with canonical tool calls.
    assert_eq!(text_at(&out, &["choices", "0", "finish_reason"]), Some("tool_calls"));
    assert_eq!(
        text_at(&out, &["choices", "0", "message", "tool_calls", "0", "function", "name"]),
        Some("f")
    );
    assert_eq!(member(&out, &["choices", "0", "message", "content"]), Some(&JsonValue::Null));
}

#[test]
fn response_with_text_sets_assistant_message() {
    let template = json(r#"{"id": "x", "choices": [{"index": 0, "message": {}}]}"#);
    let out = response_with_text(&template, "hello there");
    assert_eq!(text_at(&out, &["id"]), Some("x"));
    assert_eq!(text_at(&out, &["choices", "0", "message", "role"]), Some("assistant"));
    assert_eq!(text_at(&out, &["choices", "0", "message", "content"]), Some("hello there"));
    assert_eq!(text_at(&out, &["choices", "0", "finish_reason"]), Some("stop"));
}

// ── Further cases ───────────────────────────────────────────────────────────

#[test]
fn text_response_reads_back_as_text() {
    let template = json(r#"{"id": "x", "choices": [{"index": 0, "message": {"content": "old"}}]}"#);
    let out = response_with_text(&template, "new text");
    assert_eq!(decode_response(&out), ModelOutput::Text("new text".into()));
}

#[test]
fn tool_call_response_reads_back_with_minted_ids() {
    let template = json(r#"{"id": "x"}"#);
    let calls = vec![
        ToolCall { id: None, name: "a".into(), arguments: "{}".into() },
        ToolCall { id: Some("keep".into()), name: "b".into(), arguments: "{\"x\":2}".into() },
    ];
    let out = response_with_tool_calls(&template, &calls);
    assert_eq!(
        decode_response(&out),
        ModelOutput::ToolCalls(vec![
            ToolCall { id: Some("call_0".into()), name: "a".into(), arguments: "{}".into() },
            ToolCall { id: Some("keep".into()), name: "b".into(), arguments: "{\"x\":2}".into() },
        ])
    );
    // No choices in the template: one was synthesised.
    assert_eq!(member(&out, &["choices", "0", "index"]), Some(&JsonValue::Number("0".into())));
}

#[test]
fn null_template_gets_a_choices_array() {
    let out = response_with_text(&JsonValue::Null, "hi");
    assert_eq!(text_at(&out, &["choices", "0", "message", "content"]), Some("hi"));
    assert_eq!(text_at(&out, &["choices", "0", "finish_reason"]), Some("stop"));
}

#[test]
fn missing_fields_decode_to_empty_text() {
    assert_eq!(decode_response(&json("42")), ModelOutput::Text(String::new()));
    assert_eq!(decode_response(&json(r#"{"choices": []}"#)), ModelOutput::Text(String::new()));
    assert_eq!(
        decode_response(&json(r#"{"choices": [{"message": {"content": 5}}]}"#)),
        ModelOutput::Text(String::new())
    );
}

#[test]
fn tool_call_without_function_decodes_defaults() {
    let resp = native_response(r#"[{"id": 7}]"#);
    assert_eq!(
        decode_response(&resp),
        ModelOutput::ToolCalls(vec![ToolCall { id: None, name: String::new(), arguments: "{}".into() }])
    );
}

#[test]
fn canonical_ids_count_from_zero() {
    let calls = vec![
        ToolCall { id: None, name: "a".into(), arguments: "{}".into() },
        ToolCall { id: None, name: "b".into(), arguments: "{}".into() },
        ToolCall { id: None, name: "c".into(), arguments: "{}".into() },
    ];
    let canonical = canonical_tool_calls(&calls);
    assert_eq!(text_at(&canonical, &["2", "id"]), Some("call_2"));
    assert_eq!(text_at(&canonical, &["1", "function", "name"]), Some("b"));
}

#[test]
fn canonical_text_is_compact_and_ordered() {
    let calls = vec![ToolCall { id: Some("c1".into()), name: "f".into(), arguments: "{}".into() }];
    assert_eq!(
        canonical_tool_calls(&calls).to_text(),
        r#"[{"function":{"arguments":"{}","name":"f"},"id":"c1","type":"function"}]"#
    );
}

#[test]
fn parse_rejects_trailing_text() {
    assert!(JsonValue::parse("{} trailing").is_none());
    assert_eq!(JsonValue::parse(" [1, true] "), Some(JsonValue::Array(vec![
        JsonValue::Number("1".into()),
        JsonValue::Bool(true),
    ])));
}
