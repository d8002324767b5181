use guardrail::{validate, ToolCall, Validation};

fn call(name: &str, arguments: &str) -> ToolCall {
    ToolCall {
        id: None,
        name: name.into(),
        arguments: arguments.into(),
    }
}

#[test]
fn valid_when_name_known_and_args_object() {
    let calls = [call("get_weather", "{\"city\":\"Paris\"}")];
    assert_eq!(validate(&calls, &["get_weather"]), Validation::Valid);
}

#[test]
fn empty_calls_are_vacuously_valid() {
    assert_eq!(validate(&[], &["get_weather"]), Validation::Valid);
}

#[test]
fn unknown_tool_needs_retry_and_lists_options() {
    let calls = [call("get_wether", "{}")];
    let Validation::NeedsRetry(nudge) = validate(&calls, &["get_weather", "search"]) else {
        panic!("expected NeedsRetry");
    };
    assert!(nudge.contains("get_wether"));
    assert!(nudge.contains("get_weather"));
    assert!(nudge.contains("search"));
}

#[test]
fn non_object_arguments_need_retry() {
    for bad in ["\"just a string\"", "[1,2,3]", "42", "not json"] {
        let calls = [call("get_weather", bad)];
        assert!(
            matches!(validate(&calls, &["get_weather"]), Validation::NeedsRetry(_)),
            "expected NeedsRetry for arguments {bad:?}"
        );
    }
}

#[test]
fn first_problem_wins() {
    let calls = [call("bad_name", "{}"), call("get_weather", "not json")];
    let Validation::NeedsRetry(nudge) = validate(&calls, &["get_weather"]) else {
        panic!("expected NeedsRetry");
    };
    assert!(nudge.contains("bad_name"));
}

// ── Further cases ───────────────────────────────────────────────────────────

#[test]
fn unknown_tool_nudge_text() {
    let calls = [call("x", "{}")];
    assert_eq!(
        validate(&calls, &["a", "b"]),
        Validation::NeedsRetry(
            "You called a tool named \"x\" which does not exist. Call one of the available tools instead: a, b."
                .into()
        )
    );
}

#[test]
fn bad_arguments_nudge_text() {
    let calls = [call("a", "[]")];
    assert_eq!(
        validate(&calls, &["a"]),
        Validation::NeedsRetry(
            "The arguments for tool \"a\" were not a valid JSON object. Reply with a single tool call whose arguments are a JSON object."
                .into()
        )
    );
}

#[test]
fn no_declared_tools_rejects_every_call() {
    let calls = [call("a", "{}")];
    assert_eq!(
        validate(&calls, &[]),
        Validation::NeedsRetry(
            "You called a tool named \"a\" which does not exist. Call one of the available tools instead: ."
                .into()
        )
    );
}

#[test]
fn later_calls_are_checked_too() {
    let calls = [call("a", "{}"), call("a", " { \"k\" : 1 } "), call("a", "{} {}")];
    let Validation::NeedsRetry(nudge) = validate(&calls, &["a"]) else {
        panic!("expected NeedsRetry");
    };
    assert!(nudge.starts_with("The arguments for tool \"a\""));
}
