//! The synthetic `respond` tool: injected so the model delivers a final
//! answer through the tool-call channel, then stripped back to text.
use vstd::prelude::*;

use crate::decode::ToolCall;
use crate::json::{array1, json_get, object1, object2, object3, parsed_json, string_value, Json, JsonValue};
use crate::model::{FunctionDef, Tool};

verus! {

/// Name of the injected tool.
pub const RESPOND: &'static str = "respond";

/// The description of the injected tool.
pub open spec fn respond_description() -> Seq<char> {
    "Reply to the user with a final natural-language message when no other tool is needed. Prefer this over answering in plain text."@
}

/// The JSON schema of the injected tool's parameters, members in the order
/// `serde_json` keeps them.
pub open spec fn respond_parameters() -> Json {
    Json::Object(
        seq![
            ("properties"@, Json::Object(seq![("message"@, Json::Object(seq![
                ("description"@, Json::Str("The message to show the user."@)),
                ("type"@, Json::Str("string"@)),
            ]))])),
            ("required"@, Json::Array(seq![Json::Str("message"@)])),
            ("type"@, Json::Str("object"@)),
        ],
    )
}

/// The tool definition to inject into a request's `tools` array.
pub fn respond_tool() -> (r: Tool)
    ensures
        r.kind@ == "function"@,
        r.function.name@ == "respond"@,
        r.function.description@ == respond_description(),
        r.function.parameters@ == respond_parameters(),
{
    let message = object2(
        "description",
        string_value("The message to show the user."),
        "type",
        string_value("string"),
    );
    let properties = object1("message", message);
    let required = array1(string_value("message"));
    let parameters = object3("properties", properties, "required", required, "type", string_value("object"));
    Tool {
        kind: "function".to_owned(),
        function: FunctionDef {
            name: RESPOND.to_owned(),
            description: "Reply to the user with a final natural-language message when no other tool is needed. Prefer this over answering in plain text.".to_owned(),
            parameters,
        },
    }
}

/// Whether a tool call targets the synthetic `respond` tool.
pub fn is_respond(call: &ToolCall) -> (r: bool)
    ensures
        r == (call@.name == "respond"@),
{
    crate::text::str_eq(call.name.as_str(), RESPOND)
}

/// The user-facing text of a `respond` call: the first of `message`,
/// `content`, `text` that is a string member of the parsed arguments, else
/// the empty string.
pub open spec fn respond_text(arguments: Seq<char>) -> Seq<char> {
    match parsed_json(arguments) {
        Some(v) => match json_get(v, "message"@) {
            Some(Json::Str(s)) => s,
            _ => match json_get(v, "content"@) {
                Some(Json::Str(s)) => s,
                _ => match json_get(v, "text"@) {
                    Some(Json::Str(s)) => s,
                    _ => Seq::empty(),
                },
            },
        },
        None => Seq::empty(),
    }
}

/// Extracts the user-facing text from a `respond` call's arguments, accepting
/// `message` and the `content`/`text` aliases; missing or unparseable
/// arguments give the empty string.
pub fn message_text(call: &ToolCall) -> (r: String)
    ensures
        r@ == respond_text(call@.arguments),
{
    match JsonValue::parse(call.arguments.as_str()) {
        Some(v) => {
            if let Some(JsonValue::Str(s)) = v.get("message") {
                return s.clone();
            }
            if let Some(JsonValue::Str(s)) = v.get("content") {
                return s.clone();
            }
            if let Some(JsonValue::Str(s)) = v.get("text") {
                return s.clone();
            }
            String::new()
        },
        None => String::new(),
    }
}

/// The message is delivered whole: when the arguments parse to a value whose
/// `message` member is a string, the extracted text is exactly that string.
pub proof fn law_message_delivered_whole(arguments: Seq<char>, v: Json, message: Seq<char>)
    requires
        parsed_json(arguments) == Some(v),
        json_get(v, "message"@) == Some(Json::Str(message)),
    ensures
        respond_text(arguments) == message,
{
}

/// The aliases are delivered whole too: without a string `message`, a string
/// `content` member is the text; without either, a string `text` member is.
pub proof fn law_alias_delivered_whole(arguments: Seq<char>, v: Json, key: Seq<char>, text: Seq<char>)
    requires
        parsed_json(arguments) == Some(v),
        !(json_get(v, "message"@) is Some && json_get(v, "message"@)->0 is Str),
        key == "content"@ || (key == "text"@ && !(json_get(v, "content"@) is Some && json_get(
            v,
            "content"@,
        )->0 is Str)),
        json_get(v, key) == Some(Json::Str(text)),
    ensures
        respond_text(arguments) == text,
{
}

/// Arguments that do not parse give the empty text.
pub proof fn law_unparsed_arguments_give_no_text(arguments: Seq<char>)
    requires
        parsed_json(arguments) is None,
    ensures
        respond_text(arguments) == Seq::<char>::empty(),
{
}

} // verus!
