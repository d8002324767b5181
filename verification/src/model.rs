//! The OpenAI request-side tool definition.
use vstd::prelude::*;

use crate::json::{object2, object3, Json, JsonValue};

verus! {

/// A function the model may call: its name, description and JSON-schema
/// parameters.
#[derive(Debug, PartialEq)]
pub struct FunctionDef {
    pub name: String,
    pub description: String,
    pub parameters: JsonValue,
}

/// An entry of a request's `tools` array (`{"type": ..., "function": ...}`).
#[derive(Debug, PartialEq)]
pub struct Tool {
    pub kind: String,
    pub function: FunctionDef,
}

/// The JSON form of a tool definition, members in the order `serde_json`
/// keeps them.
pub open spec fn tool_json(kind: Seq<char>, name: Seq<char>, description: Seq<char>, parameters: Json) -> Json {
    Json::Object(
        seq![
            ("function"@, Json::Object(seq![
                ("description"@, Json::Str(description)),
                ("name"@, Json::Str(name)),
                ("parameters"@, parameters),
            ])),
            ("type"@, Json::Str(kind)),
        ],
    )
}

impl Tool {
    /// The JSON form of this tool, as it stands in a request's `tools` array.
    pub fn to_json(&self) -> (r: JsonValue)
        ensures
            r@ == tool_json(self.kind@, self.function.name@, self.function.description@, self.function.parameters@),
    {
        let function = object3(
            "description",
            JsonValue::Str(self.function.description.clone()),
            "name",
            JsonValue::Str(self.function.name.clone()),
            "parameters",
            self.function.parameters.copy(),
        );
        object2("function", function, "type", JsonValue::Str(self.kind.clone()))
    }
}

} // verus!
