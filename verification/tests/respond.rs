use guardrail::{is_respond, message_text, respond_tool, JsonValue, ToolCall, RESPOND};

fn call(name: &str, arguments: &str) -> ToolCall {
    ToolCall {
        id: None,
        name: name.into(),
        arguments: arguments.into(),
    }
}

#[test]
fn respond_tool_is_a_valid_named_function() {
    let tool = respond_tool();
    assert_eq!(tool.kind, "function");
    assert_eq!(tool.function.name, RESPOND);
}

#[test]
fn detects_respond_call() {
    assert!(is_respond(&call("respond", "{}")));
    assert!(!is_respond(&call("get_weather", "{}")));
}

#[test]
fn extracts_message_and_aliases() {
    assert_eq!(message_text(&call("respond", "{\"message\":\"hi\"}")), "hi");
    assert_eq!(message_text(&call("respond", "{\"content\":\"yo\"}")), "yo");
    assert_eq!(message_text(&call("respond", "{\"text\":\"sup\"}")), "sup");
}

#[test]
fn missing_or_bad_arguments_yield_empty() {
    assert_eq!(message_text(&call("respond", "{}")), "");
    assert_eq!(message_text(&call("respond", "not json")), "");
}

// ── Further cases ───────────────────────────────────────────────────────────

#[test]
fn message_takes_precedence_and_non_strings_are_skipped() {
    assert_eq!(message_text(&call("respond", "{\"text\":\"t\",\"message\":\"m\"}")), "m");
    assert_eq!(message_text(&call("respond", "{\"message\":3,\"content\":\"c\"}")), "c");
    assert_eq!(message_text(&call("respond", "[\"message\"]")), "");
}

#[test]
fn respond_schema_requires_message() {
    let tool = respond_tool();
    assert_eq!(
        tool.function.parameters.to_text(),
        "{\"properties\":{\"message\":{\"description\":\"The message to show the user.\",\"type\":\"string\"}},\"required\":[\"message\"],\"type\":\"object\"}"
    );
    assert!(tool.function.description.starts_with("Reply to the user with a final natural-language message when"));
    assert!(matches!(tool.function.parameters, JsonValue::Object(_)));
}

#[test]
fn respond_detection_is_exact() {
    assert!(!is_respond(&call("Respond", "{}")));
    assert!(!is_respond(&call("respond ", "{}")));
}
