use guardrail::{
    canonical_tool_calls, default_parsers, extract_tagged, rescue, BareJson, FencedJson, Hermes,
    JsonValue, Llama, Mistral, Qwen, QwenCoder, Rehearsal, RescueParser, ToolCall,
};

fn one(calls: &[ToolCall]) -> (&str, &str) {
    (calls[0].name.as_str(), calls[0].arguments.as_str())
}

#[test]
fn mistral_json_array() {
    let text = "[TOOL_CALLS][{\"name\": \"get_weather\", \"arguments\": {\"city\": \"Paris\"}}]";
    let calls = Mistral.try_parse(text).unwrap();
    assert_eq!(one(&calls), ("get_weather", "{\"city\":\"Paris\"}"));
}

#[test]
fn mistral_name_brace_args() {
    let text = "[TOOL_CALLS]get_weather{\"city\": \"Paris\"}";
    let calls = Mistral.try_parse(text).unwrap();
    assert_eq!(one(&calls), ("get_weather", "{\"city\":\"Paris\"}"));
}

#[test]
fn qwen_single_and_multiple() {
    let text = "<tool_call>{\"name\": \"a\", \"arguments\": {\"x\": 1}}</tool_call>\n\
                <tool_call>{\"name\": \"b\", \"arguments\": {}}</tool_call>";
    let calls = Qwen.try_parse(text).unwrap();
    assert_eq!(calls.len(), 2);
    assert_eq!(calls[0].name, "a");
    assert_eq!(calls[1].name, "b");
}

#[test]
fn hermes_function_call() {
    let text = "sure!<function_call>{\"name\": \"search\", \"arguments\": {\"q\": \"rust\"}}</function_call>";
    let calls = Hermes.try_parse(text).unwrap();
    assert_eq!(one(&calls), ("search", "{\"q\":\"rust\"}"));
}

#[test]
fn llama_python_tag_with_parameters_and_eom() {
    let text = "<|python_tag|>{\"name\": \"get_weather\", \"parameters\": {\"city\": \"Paris\"}}<|eom_id|>";
    let calls = Llama.try_parse(text).unwrap();
    assert_eq!(one(&calls), ("get_weather", "{\"city\":\"Paris\"}"));
}

#[test]
fn fenced_json_with_lang_tag() {
    let text = "Here you go:\n```json\n{\"name\": \"f\", \"arguments\": {\"a\": 1}}\n```";
    let calls = FencedJson.try_parse(text).unwrap();
    assert_eq!(one(&calls), ("f", "{\"a\":1}"));
}

#[test]
fn fenced_json_without_lang_tag() {
    let text = "```\n{\"name\": \"f\", \"arguments\": {}}\n```";
    let calls = FencedJson.try_parse(text).unwrap();
    assert_eq!(calls[0].name, "f");
}

#[test]
fn bare_json_openai_function_shape() {
    let text = "{\"type\": \"function\", \"function\": {\"name\": \"f\", \"arguments\": \"{\\\"a\\\":1}\"}}";
    let calls = BareJson.try_parse(text).unwrap();
    assert_eq!(one(&calls), ("f", "{\"a\":1}"));
}

#[test]
fn bare_json_forge_tool_args_shape() {
    let calls = BareJson
        .try_parse("{\"tool\": \"get_weather\", \"args\": {\"city\": \"Paris\"}}")
        .unwrap();
    assert_eq!(one(&calls), ("get_weather", "{\"city\":\"Paris\"}"));
}

#[test]
fn rehearsal_name_args_marker() {
    let calls = Rehearsal
        .try_parse("thinking... get_weather[ARGS]{\"city\": \"Paris\"}")
        .unwrap();
    assert_eq!(one(&calls), ("get_weather", "{\"city\":\"Paris\"}"));
}

#[test]
fn qwen_coder_function_parameter_xml() {
    let text = "<function=get_weather><parameter=city>Paris</parameter><parameter=days>3</parameter></function>";
    let calls = QwenCoder.try_parse(text).unwrap();
    assert_eq!(calls[0].name, "get_weather");
    // String value stays a string; numeric value is coerced.
    assert_eq!(calls[0].arguments, "{\"city\":\"Paris\",\"days\":3}");
}

#[test]
fn qwen_coder_parameter_without_closing_tag() {
    let text = "<function=f><parameter=x>hello</function>";
    let calls = QwenCoder.try_parse(text).unwrap();
    assert_eq!(calls[0].arguments, "{\"x\":\"hello\"}");
}

#[test]
fn rescue_prefers_qwen_coder_over_bare_json() {
    let (parser, _) =
        rescue("<function=get_weather><parameter=city>Paris</parameter></function>").unwrap();
    assert_eq!(parser, "qwen_coder");
}

#[test]
fn rescue_dispatches_and_reports_parser() {
    let (parser, calls) =
        rescue("<tool_call>{\"name\": \"a\", \"arguments\": {}}</tool_call>").unwrap();
    assert_eq!(parser, "qwen");
    assert_eq!(calls[0].name, "a");
}

#[test]
fn plain_prose_is_not_rescued() {
    assert!(rescue("I'm not sure which tool to use, can you clarify?").is_none());
    assert!(rescue("").is_none());
}

#[test]
fn json_without_a_name_is_not_a_tool_call() {
    assert!(BareJson.try_parse("{\"city\": \"Paris\"}").is_none());
}

#[test]
fn arguments_as_object_round_trip_through_canonical() {
    let calls = Qwen
        .try_parse("<tool_call>{\"name\": \"f\", \"arguments\": {\"a\": 1}}</tool_call>")
        .unwrap();
    let canonical = canonical_tool_calls(&calls);
    let function = canonical.at(0).and_then(|c| c.get("function")).unwrap();
    assert_eq!(function.get("name").and_then(|v| v.as_str()), Some("f"));
    assert_eq!(function.get("arguments").and_then(|v| v.as_str()), Some("{\"a\":1}"));
}

// ── Further cases ───────────────────────────────────────────────────────────

#[test]
fn default_parsers_are_in_documented_order() {
    let names: Vec<&str> = default_parsers().iter().map(|p| p.name()).collect();
    assert_eq!(
        names,
        vec!["mistral", "rehearsal", "qwen_coder", "qwen", "hermes", "llama", "fenced_json", "bare_json"]
    );
}

#[test]
fn mistral_wins_over_later_formats() {
    let (parser, calls) =
        rescue("[TOOL_CALLS]{\"name\": \"m\", \"arguments\": {}} <tool_call>{\"name\": \"q\"}</tool_call>").unwrap();
    assert_eq!(parser, "mistral");
    assert_eq!(calls[0].name, "m");
}

#[test]
fn mistral_name_with_space_is_rejected() {
    assert!(Mistral.try_parse("[TOOL_CALLS]get weather{\"a\": 1}").is_none());
}

#[test]
fn tool_calls_wrapper_and_arrays_are_unwrapped() {
    let calls = BareJson
        .try_parse("{\"tool_calls\": [{\"name\": \"a\"}, 3, {\"name\": \"  b  \", \"arguments\": [1]}]}")
        .unwrap();
    assert_eq!(calls.len(), 2);
    assert_eq!(one(&calls), ("a", "{}"));
    assert_eq!(calls[1].name, "b");
    assert_eq!(calls[1].arguments, "[1]");
}

#[test]
fn blank_name_is_not_a_call() {
    assert!(BareJson.try_parse("{\"name\": \"   \", \"arguments\": {}}").is_none());
    assert!(BareJson.try_parse("{\"name\": 5}").is_none());
}

#[test]
fn rehearsal_requires_object_arguments_and_a_name() {
    assert!(Rehearsal.try_parse("f[ARGS][1, 2]").is_none());
    assert!(Rehearsal.try_parse(" [ARGS]{}").is_none());
    let calls = Rehearsal.try_parse("étude_2[ARGS]{}").unwrap();
    assert_eq!(calls[0].name, "étude_2");
}

#[test]
fn qwen_coder_skips_nameless_blocks_and_later_values_win() {
    let text = "<function= ><parameter=a>1</parameter></function><function=g><parameter=k>1</parameter><parameter=k>[true]</parameter></function>";
    let calls = QwenCoder.try_parse(text).unwrap();
    assert_eq!(calls.len(), 1);
    assert_eq!(one(&calls), ("g", "{\"k\":[true]}"));
}

#[test]
fn unterminated_tag_is_ignored() {
    assert!(Qwen.try_parse("<tool_call>{\"name\": \"a\"}").is_none());
    let calls = Qwen.try_parse("x<tool_call> {\"name\": \"a\"} trailing </tool_call><tool_call>").unwrap();
    assert_eq!(one(&calls), ("a", "{}"));
}

#[test]
fn fenced_second_block_is_tried() {
    let text = "```\nnot json\n```\nand\n```json\n{\"name\": \"g\"}\n```";
    let calls = FencedJson.try_parse(text).unwrap();
    assert_eq!(calls[0].name, "g");
}

#[test]
fn llama_without_call_shape_fails() {
    assert!(Llama.try_parse("<|python_tag|>[1, 2]<|eot_id|>").is_none());
}

#[test]
fn parsed_json_keeps_number_text() {
    let v = JsonValue::parse("{\"b\": 1.5, \"a\": -3}").unwrap();
    assert_eq!(v.to_text(), "{\"a\":-3,\"b\":1.5}");
}

#[test]
fn tagged_blocks_read_back_between_gaps() {
    // Gaps may hold stray closing tags; each block's inner text is read once, in order.
    let text = "intro </function_call> <function_call>{\"name\": \"a\", \"arguments\": {}}</function_call> mid \
                <function_call>{\"name\": \"b\", \"arguments\": {\"k\": 2}}</function_call> end";
    let calls = Hermes.try_parse(text).unwrap();
    assert_eq!(calls.len(), 2);
    assert_eq!(one(&calls), ("a", "{}"));
    assert_eq!((calls[1].name.as_str(), calls[1].arguments.as_str()), ("b", "{\"k\":2}"));
}

#[test]
fn rescued_calls_have_no_id_and_trimmed_names() {
    let texts = [
        "[TOOL_CALLS]  get_weather {\"city\": \"Paris\"}",
        "<tool_call>{\"name\": \"  get_weather \", \"arguments\": {}}</tool_call>",
        "{\"function\": {\"name\": \" get_weather\", \"arguments\": {}}}",
        "<function= get_weather >\n<parameter=city>Paris</parameter>\n</function>",
        "call get_weather[ARGS]{\"city\": \"Paris\"}",
    ];
    for text in texts {
        let (_, calls) = rescue(text).unwrap();
        assert!(!calls.is_empty(), "{text}");
        for c in &calls {
            assert!(c.id.is_none(), "{text}");
            assert_eq!(c.name, "get_weather", "{text}");
        }
    }
}

#[test]
fn extract_tagged_reads_every_pair_in_order() {
    // Gaps hold a stray closing tag, an inner text holds an opening tag.
    let text = "g0 </t> <t>s1</t>g1<t> <t>s2 </t><t></t> g3";
    assert_eq!(extract_tagged(text, "t"), vec!["s1", " <t>s2 ", ""]);
    assert_eq!(extract_tagged("no tags here", "t"), Vec::<String>::new());
    assert_eq!(extract_tagged("", "t"), Vec::<String>::new());
}

#[test]
fn extract_tagged_stops_at_an_unclosed_tag() {
    assert_eq!(extract_tagged("<t>a</t> <t>b", "t"), vec!["a"]);
    assert_eq!(extract_tagged("<t>a</t><x>b</x>", "x"), vec!["b"]);
}
