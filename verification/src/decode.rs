//! Decoding an OpenAI chat-completions response into the [`ModelOutput`] the
//! guardrails reason about, and re-emitting tool calls in canonical OpenAI
//! form.
use vstd::prelude::*;

use crate::json::{
    array1, entries_view, items_view, json_at, json_get, json_text, lemma_get_absent,
    lemma_get_member, lemma_items_view, lemma_set_entry, object2, object3, opt_get, opt_str,
    set_entry, set_member, string_value, Json, JsonValue,
};
use crate::text::{concat, decimal, decimal_string, from_chars, to_chars};

verus! {

/// A single tool call. `arguments` is the raw JSON-encoded string OpenAI uses,
/// so that re-emitting it is lossless; `id` is kept when the backend sent one.
#[derive(Debug, Clone, PartialEq)]
pub struct ToolCall {
    pub id: Option<String>,
    pub name: String,
    pub arguments: String,
}

/// The model of a [`ToolCall`].
pub struct CallView {
    pub id: Option<Seq<char>>,
    pub name: Seq<char>,
    pub arguments: Seq<char>,
}

impl View for ToolCall {
    type V = CallView;

    open spec fn view(&self) -> CallView {
        CallView {
            id: match self.id {
                Some(s) => Some(s@),
                None => None,
            },
            name: self.name@,
            arguments: self.arguments@,
        }
    }
}

/// The models of a sequence of calls.
pub open spec fn calls_view(s: Seq<ToolCall>) -> Seq<CallView> {
    s.map_values(|c: ToolCall| c@)
}

/// What the model produced: native tool calls, or text (which rescue may
/// still turn into tool calls).
#[derive(Debug, Clone, PartialEq)]
pub enum ModelOutput {
    ToolCalls(Vec<ToolCall>),
    Text(String),
}

/// The model of a [`ModelOutput`].
pub enum OutputView {
    ToolCalls(Seq<CallView>),
    Text(Seq<char>),
}

impl View for ModelOutput {
    type V = OutputView;

    open spec fn view(&self) -> OutputView {
        match self {
            ModelOutput::ToolCalls(calls) => OutputView::ToolCalls(calls_view(calls@)),
            ModelOutput::Text(t) => OutputView::Text(t@),
        }
    }
}

// ── Decoding ────────────────────────────────────────────────────────────────

/// The `message` of the first choice of a response.
pub open spec fn first_message(body: Json) -> Option<Json> {
    match json_get(body, "choices"@) {
        Some(choices) => match json_at(choices, 0) {
            Some(choice) => json_get(choice, "message"@),
            None => None,
        },
        None => None,
    }
}

/// A string member, or the empty string.
pub open spec fn str_or_empty(v: Option<Json>) -> Seq<char> {
    match opt_str(v) {
        Some(s) => s,
        None => Seq::empty(),
    }
}

/// Tool-call arguments as a JSON-encoded string: a string is kept, any other
/// value is printed, a missing one is `{}`.
pub open spec fn arguments_text(args: Option<Json>) -> Seq<char> {
    match args {
        Some(Json::Str(s)) => s,
        Some(other) => json_text(other),
        None => "{}"@,
    }
}

/// One entry of a `tool_calls` array, decoded.
pub open spec fn decode_call(call: Json) -> CallView {
    let function = json_get(call, "function"@);
    CallView {
        id: opt_str(json_get(call, "id"@)),
        name: str_or_empty(opt_get(function, "name"@)),
        arguments: arguments_text(opt_get(function, "arguments"@)),
    }
}

/// A response body, decoded: the first choice's non-empty `tool_calls` array,
/// else its `content` as text (empty when missing or not a string).
pub open spec fn decode_body(body: Json) -> OutputView {
    let message = first_message(body);
    match opt_get(message, "tool_calls"@) {
        Some(Json::Array(calls)) => if calls.len() > 0 {
            OutputView::ToolCalls(calls.map_values(|c: Json| decode_call(c)))
        } else {
            OutputView::Text(str_or_empty(opt_get(message, "content"@)))
        },
        _ => OutputView::Text(str_or_empty(opt_get(message, "content"@))),
    }
}

/// An owned copy of an optional string member, or the empty string.
fn owned_str_or_empty(v: Option<&JsonValue>) -> (r: String)
    ensures
        r@ == str_or_empty(v.deep_view()),
{
    match v {
        Some(x) => match x.as_str() {
            Some(s) => s.to_owned(),
            None => String::new(),
        },
        None => String::new(),
    }
}

fn decode_tool_call(call: &JsonValue) -> (r: ToolCall)
    ensures
        r@ == decode_call(call@),
{
    let id = match call.get("id") {
        Some(v) => match v.as_str() {
            Some(s) => Some(s.to_owned()),
            None => None,
        },
        None => None,
    };
    let function = call.get("function");
    let name = match function {
        Some(f) => owned_str_or_empty(f.get("name")),
        None => String::new(),
    };
    let args = match function {
        Some(f) => f.get("arguments"),
        None => None,
    };
    let arguments = match args {
        Some(JsonValue::Str(s)) => s.clone(),
        Some(other) => other.to_text(),
        None => "{}".to_owned(),
    };
    ToolCall { id, name, arguments }
}

/// Decodes a full OpenAI chat-completion response body. Decoding is
/// best-effort: malformed or missing fields give empty text, never an error.
pub fn decode_response(body: &JsonValue) -> (r: ModelOutput)
    ensures
        r@ == decode_body(body@),
{
    let message = match body.get("choices") {
        Some(choices) => match choices.at(0) {
            Some(choice) => choice.get("message"),
            None => None,
        },
        None => None,
    };
    let tool_calls = match message {
        Some(m) => m.get("tool_calls"),
        None => None,
    };
    if let Some(JsonValue::Array(calls)) = tool_calls {
        if calls.len() > 0 {
            proof {
                lemma_items_view(calls@);
            }
            let mut out: Vec<ToolCall> = Vec::new();
            let mut i: usize = 0;
            while i < calls.len()
                invariant
                    i <= calls.len(),
                    items_view(calls@).len() == calls@.len(),
                    forall|j: int| 0 <= j < calls@.len() ==> #[trigger] items_view(calls@)[j] == calls@[j]@,
                    out@.len() == i,
                    forall|j: int| 0 <= j < i ==> #[trigger] out@[j]@ == decode_call(calls@[j]@),
                decreases calls.len() - i,
            {
                out.push(decode_tool_call(&calls[i]));
                i = i + 1;
            }
            let r = ModelOutput::ToolCalls(out);
            assert(calls_view(out@) =~= items_view(calls@).map_values(|c: Json| decode_call(c)));
            return r;
        }
    }
    let content = match message {
        Some(m) => m.get("content"),
        None => None,
    };
    ModelOutput::Text(owned_str_or_empty(content))
}

// ── Canonical re-emit ───────────────────────────────────────────────────────

/// The id a call is re-emitted with: its own, or `call_<index>`.
pub open spec fn minted_id(c: CallView, i: nat) -> Seq<char> {
    match c.id {
        Some(id) => id,
        None => "call_"@ + decimal(i),
    }
}

/// A canonical OpenAI `tool_calls` entry, members in the order `serde_json`
/// keeps them.
pub open spec fn canonical_call(c: CallView, i: nat) -> Json {
    Json::Object(
        seq![
            ("function"@, Json::Object(seq![("arguments"@, Json::Str(c.arguments)), ("name"@, Json::Str(c.name))])),
            ("id"@, Json::Str(minted_id(c, i))),
            ("type"@, Json::Str("function"@)),
        ],
    )
}

/// A canonical OpenAI `tool_calls` array.
pub open spec fn canonical_json(calls: Seq<CallView>) -> Json {
    Json::Array(Seq::new(calls.len(), |i: int| canonical_call(calls[i], i as nat)))
}

impl ToolCall {
    /// The canonical OpenAI `tool_calls` entry for this call, minting the id
    /// `call_<index>` when the backend supplied none.
    fn to_canonical(&self, index: usize) -> (r: JsonValue)
        ensures
            r@ == canonical_call(self@, index as nat),
    {
        let id = match &self.id {
            Some(id) => id.clone(),
            None => {
                let prefix = to_chars("call_");
                let digits = decimal_string(index);
                from_chars(concat(prefix.as_slice(), digits.as_slice()).as_slice())
            },
        };
        let function = object2(
            "arguments",
            JsonValue::Str(self.arguments.clone()),
            "name",
            JsonValue::Str(self.name.clone()),
        );
        object3("function", function, "id", JsonValue::Str(id), "type", string_value("function"))
    }
}

/// Renders tool calls as a canonical OpenAI `tool_calls` array.
pub fn canonical_tool_calls(calls: &[ToolCall]) -> (r: JsonValue)
    ensures
        r@ == canonical_json(calls_view(calls@)),
{
    let mut out: Vec<JsonValue> = Vec::new();
    let mut i: usize = 0;
    while i < calls.len()
        invariant
            i <= calls.len(),
            out@.len() == i,
            forall|j: int| 0 <= j < i ==> #[trigger] out@[j]@ == canonical_call(calls@[j]@, j as nat),
        decreases calls.len() - i,
    {
        out.push(calls[i].to_canonical(i));
        i = i + 1;
    }
    proof {
        lemma_items_view(out@);
        assert(items_view(out@) =~= Seq::new(
            calls_view(calls@).len(),
            |j: int| canonical_call(calls_view(calls@)[j], j as nat),
        ));
    }
    JsonValue::Array(out)
}

// ── Rebuilding a response ───────────────────────────────────────────────────

/// `value[k] = x` on a JSON value: an object gets member `k` set, null first
/// becomes an empty object.
pub open spec fn index_set(v: Json, k: Seq<char>, x: Json) -> Json {
    match v {
        Json::Object(e) => Json::Object(set_entry(e, k, x)),
        _ => Json::Object(set_entry(Seq::empty(), k, x)),
    }
}

/// `value[k] = x` is defined (it panics on anything but an object or null).
pub open spec fn can_index_set(v: Json) -> bool {
    v is Object || v is Null
}

/// The first element of a response's `choices` array.
pub open spec fn first_choice(resp: Json) -> Option<Json> {
    match json_get(resp, "choices"@) {
        Some(c) => json_at(c, 0),
        None => None,
    }
}

/// A choice with its `message` and `finish_reason` replaced.
pub open spec fn filled_choice(c: Json, message: Json, finish: Seq<char>) -> Json {
    index_set(index_set(c, "message"@, message), "finish_reason"@, Json::Str(finish))
}

/// The `choices` array synthesised when a template has no first choice.
pub open spec fn new_choices(message: Json, finish: Seq<char>) -> Json {
    Json::Array(
        seq![
            Json::Object(
                seq![
                    ("finish_reason"@, Json::Str(finish)),
                    ("index"@, Json::Number("0"@)),
                    ("message"@, message),
                ],
            ),
        ],
    )
}

/// A response with its first choice's `message` and `finish_reason` replaced,
/// or with a one-choice `choices` array where it has no first choice.
pub open spec fn with_first_choice(resp: Json, message: Json, finish: Seq<char>) -> Json {
    match json_get(resp, "choices"@) {
        Some(Json::Array(items)) => if items.len() > 0 {
            index_set(
                resp,
                "choices"@,
                Json::Array(items.update(0, filled_choice(items[0], message, finish))),
            )
        } else {
            index_set(resp, "choices"@, new_choices(message, finish))
        },
        _ => index_set(resp, "choices"@, new_choices(message, finish)),
    }
}

/// Rebuilding `resp` does not panic: the first choice, or else `resp`
/// itself, is an object or null.
pub open spec fn first_choice_settable(resp: Json) -> bool {
    match first_choice(resp) {
        Some(c) => can_index_set(c),
        None => can_index_set(resp),
    }
}

/// The assistant message carrying canonical tool calls.
pub open spec fn tool_calls_message(calls: Seq<CallView>) -> Json {
    Json::Object(
        seq![
            ("content"@, Json::Null),
            ("role"@, Json::Str("assistant"@)),
            ("tool_calls"@, canonical_json(calls)),
        ],
    )
}

/// The plain assistant text message.
pub open spec fn text_message(text: Seq<char>) -> Json {
    Json::Object(seq![("content"@, Json::Str(text)), ("role"@, Json::Str("assistant"@))])
}

pub(crate) fn index_set_value(v: JsonValue, key: &str, x: JsonValue) -> (r: JsonValue)
    requires
        can_index_set(v@),
    ensures
        r@ == index_set(v@, key@, x@),
{
    match v {
        JsonValue::Object(e) => {
            let mut e = e;
            set_member(&mut e, key, x);
            JsonValue::Object(e)
        },
        _ => {
            let mut e: Vec<(String, JsonValue)> = Vec::new();
            proof {
                assert(entries_view(e@) =~= Seq::empty());
            }
            set_member(&mut e, key, x);
            JsonValue::Object(e)
        },
    }
}

/// Replaces the first choice's `message` and `finish_reason`, synthesising the
/// `choices` array if the template lacks one.
fn set_first_choice_message(resp: JsonValue, message: JsonValue, finish_reason: &str) -> (r: JsonValue)
    requires
        first_choice_settable(resp@),
    ensures
        r@ == with_first_choice(resp@, message@, finish_reason@),
{
    let choices = match resp.get("choices") {
        Some(c) => Some(c.copy()),
        None => None,
    };
    if let Some(JsonValue::Array(items)) = choices {
        if items.len() > 0 {
            let mut items = items;
            proof {
                lemma_items_view(items@);
            }
            let ghost old_items = items@;
            let c0 = items[0].copy();
            let c1 = index_set_value(c0, "message", message);
            let c2 = index_set_value(c1, "finish_reason", string_value(finish_reason));
            items.set(0, c2);
            proof {
                lemma_items_view(items@);
                assert(items_view(items@) =~= items_view(old_items).update(
                    0,
                    filled_choice(items_view(old_items)[0], message@, finish_reason@),
                ));
            }
            return index_set_value(resp, "choices", JsonValue::Array(items));
        }
    }
    let choice = object3(
        "finish_reason",
        string_value(finish_reason),
        "index",
        JsonValue::Number("0".to_owned()),
        "message",
        message,
    );
    index_set_value(resp, "choices", array1(choice))
}

/// Rebuilds a response with canonical `tool_calls`, keeping everything else
/// of `template` (id, model, usage, ...).
pub fn response_with_tool_calls(template: &JsonValue, calls: &[ToolCall]) -> (r: JsonValue)
    requires
        first_choice_settable(template@),
    ensures
        r@ == with_first_choice(template@, tool_calls_message(calls_view(calls@)), "tool_calls"@),
{
    let message = object3(
        "content",
        JsonValue::Null,
        "role",
        string_value("assistant"),
        "tool_calls",
        canonical_tool_calls(calls),
    );
    set_first_choice_message(template.copy(), message, "tool_calls")
}

/// Rebuilds a response carrying a plain assistant text message.
pub fn response_with_text(template: &JsonValue, text: &str) -> (r: JsonValue)
    requires
        first_choice_settable(template@),
    ensures
        r@ == with_first_choice(template@, text_message(text@), "stop"@),
{
    let message = object2("content", string_value(text), "role", string_value("assistant"));
    set_first_choice_message(template.copy(), message, "stop")
}

// ── Laws ────────────────────────────────────────────────────────────────────

/// The calls as canonical re-emit names them: each with its own id or the
/// minted `call_<index>`.
pub open spec fn with_minted_ids(calls: Seq<CallView>) -> Seq<CallView> {
    Seq::new(
        calls.len(),
        |i: int| CallView { id: Some(minted_id(calls[i], i as nat)), name: calls[i].name, arguments: calls[i].arguments },
    )
}

/// Re-emitting keeps every call, in order, with its name and arguments: a
/// call keeps its own id, and a call without one gets `call_<index>`.
pub proof fn law_minted_ids_keep_calls(calls: Seq<CallView>)
    ensures
        with_minted_ids(calls).len() == calls.len(),
        forall|i: int|
            0 <= i < calls.len() ==> {
                &&& (#[trigger] with_minted_ids(calls)[i]).name == calls[i].name
                &&& with_minted_ids(calls)[i].arguments == calls[i].arguments
                &&& calls[i].id is Some ==> with_minted_ids(calls)[i].id == calls[i].id
                &&& calls[i].id is None ==> with_minted_ids(calls)[i].id == Some(
                    "call_"@ + decimal(i as nat),
                )
            },
{
}

proof fn lemma_decode_canonical_call(c: CallView, i: nat)
    ensures
        decode_call(canonical_call(c, i)) == (CallView {
            id: Some(minted_id(c, i)),
            name: c.name,
            arguments: c.arguments,
        }),
{
    reveal_strlit("function");
    reveal_strlit("id");
    reveal_strlit("type");
    reveal_strlit("arguments");
    reveal_strlit("name");
    let f = Json::Object(seq![("arguments"@, Json::Str(c.arguments)), ("name"@, Json::Str(c.name))]);
    let e = seq![("function"@, f), ("id"@, Json::Str(minted_id(c, i))), ("type"@, Json::Str("function"@))];
    assert(canonical_call(c, i) == Json::Object(e));
    lemma_get_member(e, "function"@, 0);
    assert(e[0].0 == "function"@);
    assert("function"@.len() == 8 && "id"@.len() == 2);
    lemma_get_member(e, "id"@, 1);
    let fe = seq![("arguments"@, Json::Str(c.arguments)), ("name"@, Json::Str(c.name))];
    lemma_get_member(fe, "arguments"@, 0);
    assert(fe[0].0 == "arguments"@);
    assert("arguments"@.len() == 9 && "name"@.len() == 4);
    lemma_get_member(fe, "name"@, 1);
}

/// Member `k` of `index_set(v, k2, x)` for a different key `k`.
pub proof fn lemma_index_set_other(v: Json, k2: Seq<char>, x: Json, k: Seq<char>)
    requires
        can_index_set(v),
    ensures
        json_get(index_set(v, k2, x), k2) == Some(x),
        k != k2 ==> json_get(index_set(v, k2, x), k) == json_get(v, k),
{
    match v {
        Json::Object(e) => {
            lemma_set_entry(e, k2, x, k);
        },
        _ => {
            lemma_set_entry(Seq::empty(), k2, x, k);
            assert(json_get(Json::Object(Seq::empty()), k) is None);
        },
    }
}

/// After rebuilding, the first choice's message is the new one.
proof fn lemma_first_message(resp: Json, message: Json, finish: Seq<char>)
    requires
        first_choice_settable(resp),
    ensures
        first_message(with_first_choice(resp, message, finish)) == Some(message),
{
    reveal_strlit("choices");
    reveal_strlit("message");
    reveal_strlit("finish_reason");
    reveal_strlit("index");
    assert("message"@.len() == 7 && "finish_reason"@.len() == 13 && "index"@.len() == 5);
    let ne = seq![
        ("finish_reason"@, Json::Str(finish)),
        ("index"@, Json::Number("0"@)),
        ("message"@, message),
    ];
    assert(ne[0].0 == "finish_reason"@ && ne[1].0 == "index"@);
    assert(new_choices(message, finish) == Json::Array(seq![Json::Object(ne)]));
    lemma_get_member(ne, "message"@, 2);
    match json_get(resp, "choices"@) {
        Some(Json::Array(items)) => {
            if items.len() > 0 {
                let c = items[0];
                assert(first_choice(resp) == Some(c));
                let a = Json::Array(items.update(0, filled_choice(c, message, finish)));
                lemma_index_set_other(resp, "choices"@, a, "choices"@);
                let x = index_set(c, "message"@, message);
                lemma_index_set_other(c, "message"@, message, "message"@);
                lemma_index_set_other(x, "finish_reason"@, Json::Str(finish), "message"@);
                assert(json_at(a, 0) == Some(filled_choice(c, message, finish)));
            } else {
                assert(first_choice(resp) is None);
                lemma_index_set_other(resp, "choices"@, new_choices(message, finish), "choices"@);
            }
        },
        Some(other) => {
            assert(first_choice(resp) is None);
            lemma_index_set_other(resp, "choices"@, new_choices(message, finish), "choices"@);
        },
        None => {
            assert(first_choice(resp) is None);
            lemma_index_set_other(resp, "choices"@, new_choices(message, finish), "choices"@);
        },
    }
}

/// What a text rebuild writes, decoding reads back: decoding
/// `response_with_text(template, text)` gives `Text(text)`.
pub proof fn law_text_reads_back(template: Json, text: Seq<char>)
    requires
        first_choice_settable(template),
    ensures
        decode_body(with_first_choice(template, text_message(text), "stop"@)) == OutputView::Text(text),
{
    reveal_strlit("content");
    reveal_strlit("role");
    reveal_strlit("tool_calls");
    lemma_first_message(template, text_message(text), "stop"@);
    let e = seq![("content"@, Json::Str(text)), ("role"@, Json::Str("assistant"@))];
    assert(e[0].0 == "content"@);
    assert(e[1].0 == "role"@);
    assert("content"@ != "tool_calls"@);
    assert("role"@ != "tool_calls"@);
    lemma_get_absent(e, "tool_calls"@);
    lemma_get_member(e, "content"@, 0);
}

/// What a tool-call rebuild writes, decoding reads back: decoding
/// `response_with_tool_calls(template, calls)` gives the same calls, each
/// with its own id or the minted `call_<index>`.
pub proof fn law_tool_calls_read_back(template: Json, calls: Seq<CallView>)
    requires
        first_choice_settable(template),
        calls.len() > 0,
    ensures
        decode_body(with_first_choice(template, tool_calls_message(calls), "tool_calls"@))
            == OutputView::ToolCalls(with_minted_ids(calls)),
{
    reveal_strlit("content");
    reveal_strlit("role");
    reveal_strlit("tool_calls");
    lemma_first_message(template, tool_calls_message(calls), "tool_calls"@);
    let e = seq![
        ("content"@, Json::Null),
        ("role"@, Json::Str("assistant"@)),
        ("tool_calls"@, canonical_json(calls)),
    ];
    assert(e[0].0 == "content"@);
    assert(e[1].0 == "role"@);
    assert("content"@ != "tool_calls"@);
    assert("role"@ != "tool_calls"@);
    lemma_get_member(e, "tool_calls"@, 2);
    let arr = Seq::new(calls.len(), |i: int| canonical_call(calls[i], i as nat));
    assert forall|i: int| 0 <= i < calls.len() implies #[trigger] decode_call(arr[i]) == with_minted_ids(calls)[i] by {
        lemma_decode_canonical_call(calls[i], i as nat);
    }
    assert(arr.map_values(|c: Json| decode_call(c)) =~= with_minted_ids(calls));
}

/// Canonical re-emit is lossless: minting ids does not change the canonical
/// form, so decoding a canonical `tool_calls` array and re-emitting it gives
/// the array back unchanged.
pub proof fn law_canonical_round_trip(body: Json, calls: Seq<CallView>)
    requires
        opt_get(first_message(body), "tool_calls"@) == Some(canonical_json(calls)),
        calls.len() > 0,
    ensures
        decode_body(body) == OutputView::ToolCalls(with_minted_ids(calls)),
        canonical_json(with_minted_ids(calls)) == canonical_json(calls),
{
    let arr = Seq::new(calls.len(), |i: int| canonical_call(calls[i], i as nat));
    assert forall|i: int| 0 <= i < calls.len() implies #[trigger] decode_call(arr[i]) == with_minted_ids(calls)[i] by {
        lemma_decode_canonical_call(calls[i], i as nat);
    }
    assert(arr.map_values(|c: Json| decode_call(c)) =~= with_minted_ids(calls));
    assert(canonical_json(with_minted_ids(calls)) =~= canonical_json(calls)) by {
        let m = with_minted_ids(calls);
        assert forall|i: int| 0 <= i < calls.len() implies canonical_call(m[i], i as nat) == canonical_call(calls[i], i as nat) by {}
        assert(Seq::new(m.len(), |i: int| canonical_call(m[i], i as nat)) =~= arr);
    }
}


/// Rebuilding a response keeps the template's other top-level members (id,
/// model, usage, ...): only `choices` changes.
pub proof fn law_template_members_kept(template: Json, message: Json, finish: Seq<char>, k: Seq<char>)
    requires
        first_choice_settable(template),
        k != "choices"@,
    ensures
        json_get(with_first_choice(template, message, finish), k) == json_get(template, k),
{
    match json_get(template, "choices"@) {
        Some(Json::Array(items)) => {
            if items.len() > 0 {
                let a = Json::Array(items.update(0, filled_choice(items[0], message, finish)));
                lemma_index_set_other(template, "choices"@, a, k);
            } else {
                assert(first_choice(template) is None);
                lemma_index_set_other(template, "choices"@, new_choices(message, finish), k);
            }
        },
        _ => {
            assert(first_choice(template) is None);
            lemma_index_set_other(template, "choices"@, new_choices(message, finish), k);
        },
    }
}

} // verus!
