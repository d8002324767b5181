use guardrail::{GuardrailLoop, Guardrails, JsonValue, Step};

fn json(text: &str) -> JsonValue {
    JsonValue::parse(text).expect("test JSON is valid")
}

/// A request carrying one real tool, non-streamed: the guardrail path.
fn tool_request() -> JsonValue {
    json(
        r#"{"model": "local-model", "messages": [{"role": "user", "content": "weather in Paris?"}], "tools": [{"type": "function", "function": {"name": "get_weather", "parameters": {"type": "object"}}}]}"#,
    )
}

/// A backend response with a fixed assistant `content` string.
fn text_response(content: &str) -> JsonValue {
    let body = JsonValue::Object(vec![
        ("id".into(), JsonValue::Str("chatcmpl-1".into())),
        ("object".into(), JsonValue::Str("chat.completion".into())),
        (
            "choices".into(),
            JsonValue::Array(vec![JsonValue::Object(vec![
                ("index".into(), JsonValue::Number("0".into())),
                (
                    "message".into(),
                    JsonValue::Object(vec![
                        ("role".into(), JsonValue::Str("assistant".into())),
                        ("content".into(), JsonValue::Str(content.into())),
                    ]),
                ),
            ])]),
        ),
    ]);
    json(&body.to_text())
}

fn member<'a>(v: &'a JsonValue, keys: &[&str]) -> Option<&'a JsonValue> {
    let mut cur = v;
    for k in keys {
        cur = match k.parse::<usize>() {
            Ok(i) => cur.at(i)?,
            Err(_) => cur.get(k)?,
        };
    }
    Some(cur)
}

fn text_at<'a>(v: &'a JsonValue, keys: &[&str]) -> Option<&'a str> {
    member(v, keys).and_then(|x| x.as_str())
}

/// Runs the loop against a backend that answers with `bodies` in turn (the
/// last one repeated); returns the final step and the number of backend calls.
fn run(guardrails: Guardrails, request: &JsonValue, bodies: &[JsonValue]) -> (Step, usize) {
    let (mut guard, _first) = GuardrailLoop::start(&guardrails, request).expect("guarded request");
    let mut calls = 0;
    loop {
        let body = &bodies[calls.min(bodies.len() - 1)];
        calls += 1;
        match guard.on_response(Some(body)) {
            Step::Send(_) => continue,
            other => return (other, calls),
        }
    }
}

#[test]
fn respond_tool_call_is_stripped_to_text() {
    let resp = json(
        r#"{"id": "chatcmpl-1", "object": "chat.completion", "choices": [{"index": 0, "message": {"role": "assistant", "content": null, "tool_calls": [{"id": "call_1", "type": "function", "function": {"name": "respond", "arguments": "{\"message\":\"hello world\"}"}}]}, "finish_reason": "tool_calls"}]}"#,
    );
    let (step, _) = run(Guardrails::default(), &tool_request(), &[resp]);
    let Step::Reply(got) = step else { panic!("expected a reply") };
    assert_eq!(text_at(&got, &["choices", "0", "message", "content"]), Some("hello world"));
    assert_eq!(text_at(&got, &["choices", "0", "finish_reason"]), Some("stop"));
    assert!(member(&got, &["choices", "0", "message", "tool_calls"]).is_none());
}

#[test]
fn malformed_text_call_is_rescued_and_re_emitted() {
    let content =
        "<tool_call>{\"name\": \"get_weather\", \"arguments\": {\"city\": \"Paris\"}}</tool_call>";
    let (step, _) = run(Guardrails::default(), &tool_request(), &[text_response(content)]);
    let Step::Reply(got) = step else { panic!("expected a reply") };
    let call = member(&got, &["choices", "0", "message", "tool_calls", "0"]).unwrap();
    assert_eq!(text_at(call, &["function", "name"]), Some("get_weather"));
    assert_eq!(text_at(call, &["function", "arguments"]), Some("{\"city\":\"Paris\"}"));
    assert_eq!(text_at(&got, &["choices", "0", "finish_reason"]), Some("tool_calls"));
}

#[test]
fn invalid_tool_name_is_retried_then_succeeds() {
    let bad = text_response("<tool_call>{\"name\": \"get_wether\", \"arguments\": {}}</tool_call>");
    let good = text_response(
        "<tool_call>{\"name\": \"get_weather\", \"arguments\": {\"city\":\"Paris\"}}</tool_call>",
    );
    let (step, calls) = run(Guardrails::default(), &tool_request(), &[bad, good]);
    let Step::Reply(got) = step else { panic!("expected a reply") };
    assert_eq!(
        text_at(&got, &["choices", "0", "message", "tool_calls", "0", "function", "name"]),
        Some("get_weather")
    );
    // First attempt + one retry.
    assert_eq!(calls, 2);
}

#[test]
fn retry_exhaustion_falls_back_to_last_text() {
    let bad = "<tool_call>{\"name\": \"nope\", \"arguments\": {}}</tool_call>";
    let (step, calls) = run(Guardrails::default(), &tool_request(), &[text_response(bad)]);
    // Default budget is 2 retries: 3 backend calls in total.
    assert_eq!(calls, 3);
    let Step::Reply(got) = step else { panic!("expected a reply") };
    assert_eq!(text_at(&got, &["choices", "0", "finish_reason"]), Some("stop"));
    assert_eq!(text_at(&got, &["choices", "0", "message", "content"]), Some(bad));
}

#[test]
fn all_toggles_off_is_passthrough() {
    let off = Guardrails {
        rescue: false,
        respond: false,
        retry: false,
        max_retries: 0,
    };
    assert!(GuardrailLoop::start(&off, &tool_request()).is_none());
}

#[test]
fn native_tool_call_response_is_forwarded_unchanged() {
    let canned = json(
        r#"{"id": "chatcmpl-1", "object": "chat.completion", "choices": [{"index": 0, "message": {"role": "assistant", "content": null, "tool_calls": [{"id": "call_abc", "type": "function", "function": {"name": "get_weather", "arguments": "{\"city\":\"Paris\"}"}}]}, "finish_reason": "tool_calls"}]}"#,
    );
    let (step, calls) = run(Guardrails::default(), &tool_request(), &[canned]);
    assert!(matches!(step, Step::Forward));
    assert_eq!(calls, 1);
}

#[test]
fn undecodable_tool_response_is_still_forwarded() {
    let (mut guard, _) = GuardrailLoop::start(&Guardrails::default(), &tool_request()).unwrap();
    assert!(matches!(guard.on_response(None), Step::Forward));
}

// ── Further cases ───────────────────────────────────────────────────────────

#[test]
fn respond_tool_is_injected_into_the_first_request() {
    let (_, first) = GuardrailLoop::start(&Guardrails::default(), &tool_request()).unwrap();
    assert_eq!(text_at(&first, &["tools", "0", "function", "name"]), Some("get_weather"));
    assert_eq!(text_at(&first, &["tools", "1", "function", "name"]), Some("respond"));
    assert_eq!(text_at(&first, &["tools", "1", "type"]), Some("function"));
    assert_eq!(text_at(&first, &["model"]), Some("local-model"));

    let no_respond = Guardrails { respond: false, ..Guardrails::default() };
    let (_, first) = GuardrailLoop::start(&no_respond, &tool_request()).unwrap();
    assert!(member(&first, &["tools", "1"]).is_none());
}

#[test]
fn untooled_or_streamed_requests_pass_through() {
    let plain = json(r#"{"model": "m", "messages": []}"#);
    assert!(GuardrailLoop::start(&Guardrails::default(), &plain).is_none());
    let empty_tools = json(r#"{"model": "m", "messages": [], "tools": []}"#);
    assert!(GuardrailLoop::start(&Guardrails::default(), &empty_tools).is_none());
    let streamed = json(
        r#"{"stream": true, "tools": [{"type": "function", "function": {"name": "f"}}]}"#,
    );
    assert!(GuardrailLoop::start(&Guardrails::default(), &streamed).is_none());
}

#[test]
fn retry_request_carries_the_nudge_as_a_user_message() {
    let (mut guard, _) = GuardrailLoop::start(&Guardrails::default(), &tool_request()).unwrap();
    let bad = text_response("<tool_call>{\"name\": \"get_wether\", \"arguments\": {}}</tool_call>");
    let Step::Send(next) = guard.on_response(Some(&bad)) else { panic!("expected a retry") };
    assert_eq!(text_at(&next, &["messages", "0", "content"]), Some("weather in Paris?"));
    assert_eq!(text_at(&next, &["messages", "1", "role"]), Some("user"));
    let nudge = text_at(&next, &["messages", "1", "content"]).unwrap();
    assert!(nudge.contains("get_wether"));
    assert!(nudge.contains("get_weather"));
}

#[test]
fn retry_off_falls_back_at_once() {
    let no_retry = Guardrails { retry: false, ..Guardrails::default() };
    let bad = "<tool_call>{\"name\": \"nope\", \"arguments\": {}}</tool_call>";
    let (step, calls) = run(no_retry, &tool_request(), &[text_response(bad)]);
    assert_eq!(calls, 1);
    let Step::Reply(got) = step else { panic!("expected a reply") };
    assert_eq!(text_at(&got, &["choices", "0", "message", "content"]), Some(bad));
}

#[test]
fn plain_text_answer_is_forwarded() {
    let (step, _) = run(Guardrails::default(), &tool_request(), &[text_response("It is sunny.")]);
    assert!(matches!(step, Step::Forward));
}

#[test]
fn rescue_off_forwards_buried_calls() {
    let no_rescue = Guardrails { rescue: false, ..Guardrails::default() };
    let content = "<tool_call>{\"name\": \"get_weather\", \"arguments\": {}}</tool_call>";
    let (step, _) = run(no_rescue, &tool_request(), &[text_response(content)]);
    assert!(matches!(step, Step::Forward));
}
