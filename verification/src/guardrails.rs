//! The guardrail loop: what the proxy does with each backend response to a
//! tool-enabled, non-streamed chat request.
//!
//! The loop injects the synthetic `respond` tool, then for each response
//! decides: forward it unchanged, reply with a repaired response (a `respond`
//! call stripped to text, rescued calls re-emitted canonically, or the last
//! text once retries are exhausted), or send the request again with a
//! corrective nudge. The HTTP exchange itself is done by the caller.
use vstd::prelude::*;

use crate::decode::{
    calls_view, can_index_set, decode_body, decode_response, first_choice_settable, first_message,
    index_set, index_set_value, law_text_reads_back, law_tool_calls_read_back, str_or_empty,
    text_message, tool_calls_message, with_first_choice, with_minted_ids, CallView, ModelOutput,
    OutputView, ToolCall,
};
use crate::json::{
    array1, items_view, json_get, lemma_items_view, opt_get, opt_str, Json, JsonValue,
};
use crate::model::tool_json;
use crate::rescue::{default_order, first_match, rescue};
use crate::respond::{
    is_respond, message_text, respond_description, respond_parameters, respond_text, respond_tool,
};
use crate::retry::{fresh, nudge_message, recorded, within_budget, ErrorTracker, TrackerView};
use crate::validate::{names_view, validate, validation_of, Validation, ValidationView};

verus! {

/// Which guardrails are on, and the retry budget.
#[derive(Debug, Clone, Copy, PartialEq, Eq)]
pub struct Guardrails {
    pub rescue: bool,
    pub respond: bool,
    pub retry: bool,
    pub max_retries: u32,
}

impl Default for Guardrails {
    /// Every guardrail on, with a budget of two retries.
    fn default() -> (r: Self)
        ensures
            r.rescue && r.respond && r.retry && r.max_retries == 2,
    {
        Guardrails { rescue: true, respond: true, retry: true, max_retries: 2 }
    }
}

// ── The request ─────────────────────────────────────────────────────────────

/// The request's `tools` array.
pub open spec fn tools_of(req: Json) -> Option<Seq<Json>> {
    match json_get(req, "tools"@) {
        Some(Json::Array(items)) => Some(items),
        _ => None,
    }
}

/// The request asks for a streamed response.
pub open spec fn streaming(req: Json) -> bool {
    json_get(req, "stream"@) == Some(Json::Bool(true))
}

/// Some guardrail is on.
pub open spec fn any_on(g: Guardrails) -> bool {
    g.rescue || g.respond || g.retry
}

/// The request goes through the guardrail loop: some guardrail is on, it
/// declares tools, and it is not streamed. Every other request passes
/// through untouched.
pub open spec fn guarded(g: Guardrails, req: Json) -> bool {
    &&& any_on(g)
    &&& match tools_of(req) {
        Some(t) => t.len() > 0,
        None => false,
    }
    &&& !streaming(req)
}

/// The name of a declared tool (`{"function": {"name": ...}}`).
pub open spec fn tool_name(t: Json) -> Option<Seq<char>> {
    opt_str(opt_get(json_get(t, "function"@), "name"@))
}

/// The names of the declared tools, in order.
pub open spec fn declared_names(tools: Seq<Json>) -> Seq<Seq<char>>
    decreases tools.len(),
{
    if tools.len() == 0 {
        Seq::empty()
    } else {
        match tool_name(tools[0]) {
            Some(n) => seq![n] + declared_names(tools.drop_first()),
            None => declared_names(tools.drop_first()),
        }
    }
}

/// The JSON definition of the `respond` tool.
pub open spec fn respond_tool_json() -> Json {
    tool_json("function"@, "respond"@, respond_description(), respond_parameters())
}

/// The request first sent: with the `respond` tool appended to its tools
/// when that guardrail is on.
pub open spec fn prepared_request(g: Guardrails, req: Json) -> Json {
    if g.respond {
        match tools_of(req) {
            Some(t) => index_set(req, "tools"@, Json::Array(t.push(respond_tool_json()))),
            None => req,
        }
    } else {
        req
    }
}

/// The request with one more message at the end of its `messages`.
pub open spec fn with_message(req: Json, m: Json) -> Json {
    match json_get(req, "messages"@) {
        Some(Json::Array(items)) => index_set(req, "messages"@, Json::Array(items.push(m))),
        _ => index_set(req, "messages"@, Json::Array(seq![m])),
    }
}

/// The corrective nudge as a `user` message.
pub open spec fn nudge_json(nudge: Seq<char>) -> Json {
    Json::Object(seq![("content"@, Json::Str(nudge)), ("role"@, Json::Str("user"@))])
}

// ── The loop's state ────────────────────────────────────────────────────────

/// One guardrail loop over a single client request.
pub struct GuardrailLoop {
    rescue: bool,
    respond: bool,
    tracker: ErrorTracker,
    request: JsonValue,
    tool_names: Vec<String>,
}

impl GuardrailLoop {
    /// Every loop keeps an object request and stays within its retry budget.
    #[verifier::type_invariant]
    spec fn well_formed(self) -> bool {
        loop_ok(self@)
    }
}

/// The model of a [`GuardrailLoop`].
pub struct LoopView {
    pub rescue: bool,
    pub respond: bool,
    pub tracker: TrackerView,
    pub request: Json,
    pub names: Seq<Seq<char>>,
}

impl View for GuardrailLoop {
    type V = LoopView;

    closed spec fn view(&self) -> LoopView {
        LoopView {
            rescue: self.rescue,
            respond: self.respond,
            tracker: self.tracker@,
            request: self.request@,
            names: self.tool_names@.map_values(|n: String| n@),
        }
    }
}

/// The loop as it starts on a guarded request.
pub open spec fn initial_loop(g: Guardrails, req: Json) -> LoopView {
    LoopView {
        rescue: g.rescue,
        respond: g.respond,
        tracker: fresh(if g.retry { g.max_retries as nat } else { 0 }),
        request: prepared_request(g, req),
        names: declared_names(tools_of(req)->0),
    }
}

/// The loop's request is an object.
pub open spec fn loop_ok(l: LoopView) -> bool {
    l.request is Object && l.tracker.attempts <= l.tracker.max_retries
}

fn declared_tool_names(tools: &Vec<JsonValue>) -> (r: Vec<String>)
    ensures
        r@.map_values(|n: String| n@) == declared_names(items_view(tools@)),
{
    proof {
        lemma_items_view(tools@);
    }
    let ghost tv = items_view(tools@);
    let mut names: Vec<String> = Vec::new();
    let mut i: usize = 0;
    assert(tv.skip(0) =~= tv);
    while i < tools.len()
        invariant
            i <= tools.len(),
            tv == items_view(tools@),
            tv.len() == tools@.len(),
            forall|j: int| 0 <= j < tools@.len() ==> #[trigger] tv[j] == tools@[j]@,
            declared_names(tv) == names@.map_values(|n: String| n@) + declared_names(tv.skip(i as int)),
        decreases tools.len() - i,
    {
        assert(tv.skip(i as int)[0] == tools@[i as int]@);
        assert(tv.skip(i as int).drop_first() =~= tv.skip(i + 1));
        let ghost before = names@.map_values(|n: String| n@);
        let name = match tools[i].get("function") {
            Some(f) => match f.get("name") {
                Some(n) => n.as_str(),
                None => None,
            },
            None => None,
        };
        if let Some(n) = name {
            names.push(n.to_owned());
            assert(names@.map_values(|n: String| n@) =~= before + seq![n@]);
            assert(names@.map_values(|n: String| n@) + declared_names(tv.skip(i + 1)) =~= before + (seq![n@]
                + declared_names(tv.skip(i + 1))));
        }
        i = i + 1;
    }
    assert(tv.skip(tools.len() as int) =~= Seq::<Json>::empty());
    assert(names@.map_values(|n: String| n@) + Seq::<Seq<char>>::empty() =~= names@.map_values(|n: String| n@));
    names
}

/// The request's `tools` array, if it has one.
fn tools_array(req: &JsonValue) -> (r: Option<&Vec<JsonValue>>)
    ensures
        match r {
            Some(t) => tools_of(req@) == Some(items_view(t@)),
            None => tools_of(req@) is None,
        },
{
    match req.get("tools") {
        Some(JsonValue::Array(items)) => Some(items),
        _ => None,
    }
}

/// `value[k]` appended with `item`, where `value[k]` is an array (or missing).
fn push_member(v: JsonValue, key: &str, item: JsonValue) -> (r: JsonValue)
    requires
        can_index_set(v@),
    ensures
        r@ == match json_get(v@, key@) {
            Some(Json::Array(items)) => index_set(v@, key@, Json::Array(items.push(item@))),
            _ => index_set(v@, key@, Json::Array(seq![item@])),
        },
{
    let current = match v.get(key) {
        Some(x) => Some(x.copy()),
        None => None,
    };
    match current {
        Some(JsonValue::Array(items)) => {
            let mut items = items;
            let ghost before = items@;
            items.push(item);
            proof {
                lemma_items_view(before);
                lemma_items_view(items@);
                assert(items_view(items@) =~= items_view(before).push(items@[items@.len() - 1]@));
            }
            index_set_value(v, key, JsonValue::Array(items))
        },
        _ => index_set_value(v, key, array1(item)),
    }
}

impl GuardrailLoop {
    /// Starts the loop on a client request, or `None` when the request passes
    /// through untouched. Also gives the first request to send.
    pub fn start(g: &Guardrails, request: &JsonValue) -> (r: Option<(GuardrailLoop, JsonValue)>)
        ensures
            r is None <==> !guarded(*g, request@),
            match r {
                Some((l, first)) => l@ == initial_loop(*g, request@) && first@ == l@.request && loop_ok(l@),
                None => true,
            },
    {
        if !(g.rescue || g.respond || g.retry) {
            return None;
        }
        let tools = match tools_array(request) {
            Some(t) => t,
            None => {
                return None;
            },
        };
        if tools.len() == 0 {
            proof {
                lemma_items_view(tools@);
            }
            return None;
        }
        proof {
            lemma_items_view(tools@);
        }
        if let Some(JsonValue::Bool(b)) = request.get("stream") {
            if *b {
                return None;
            }
        }
        let names = declared_tool_names(tools);
        let prepared = if g.respond {
            push_member(request.copy(), "tools", respond_tool().to_json())
        } else {
            request.copy()
        };
        let budget = if g.retry { g.max_retries } else { 0 };
        let l = GuardrailLoop {
            rescue: g.rescue,
            respond: g.respond,
            tracker: ErrorTracker::new(budget),
            request: prepared.copy(),
            tool_names: names,
        };
        Some((l, prepared))
    }
}

// ── Responses ───────────────────────────────────────────────────────────────

/// The calls to act on in a decoded response: native ones, or (with rescue
/// on) those rescued from its text; the flag tells whether they were rescued.
pub open spec fn found_calls(rescue_on: bool, out: OutputView) -> Option<(Seq<CallView>, bool)> {
    match out {
        OutputView::ToolCalls(c) => Some((c, false)),
        OutputView::Text(t) => if rescue_on {
            match first_match(default_order(), t) {
                Some((_, c)) => Some((c, true)),
                None => None,
            }
        } else {
            None
        },
    }
}

/// The calls found in a response, or none.
pub open spec fn found_list(l: LoopView, b: Json) -> Seq<CallView> {
    match found_calls(l.rescue, decode_body(b)) {
        Some((c, _)) => c,
        None => Seq::empty(),
    }
}

/// The index of the first call to the `respond` tool, searching from `i`.
pub open spec fn respond_index_from(calls: Seq<CallView>, i: nat) -> Option<nat>
    decreases calls.len() - i,
{
    if i >= calls.len() {
        None
    } else if calls[i as int].name == "respond"@ {
        Some(i)
    } else {
        respond_index_from(calls, i + 1)
    }
}

/// The text the loop falls back to: the response's message content.
pub open spec fn fallback_text(b: Json) -> Seq<char> {
    str_or_empty(opt_get(first_message(b), "content"@))
}

/// What the loop makes of one response.
pub enum Verdict {
    /// Relay the response as the backend sent it.
    Forward,
    /// Answer the client with this response.
    Reply(Json),
    /// Ask again with this nudge; once the budget is spent, answer with the
    /// fallback response instead.
    Retry(Seq<char>, Json),
}

/// The verdict on a response body: a `respond` call is stripped to its text;
/// valid calls are forwarded when native and re-emitted when rescued; invalid
/// ones ask for a retry, falling back to the response's text.
pub open spec fn verdict(l: LoopView, b: Json) -> Verdict {
    match found_calls(l.rescue, decode_body(b)) {
        None => Verdict::Forward,
        Some((calls, rescued)) => if !first_choice_settable(b) {
            Verdict::Forward
        } else {
            match (if l.respond { respond_index_from(calls, 0) } else { None }) {
                Some(i) => Verdict::Reply(
                    with_first_choice(b, text_message(respond_text(calls[i as int].arguments)), "stop"@),
                ),
                None => match validation_of(calls, l.names) {
                    ValidationView::Valid => if rescued {
                        Verdict::Reply(with_first_choice(b, tool_calls_message(calls), "tool_calls"@))
                    } else {
                        Verdict::Forward
                    },
                    ValidationView::NeedsRetry(n) => Verdict::Retry(
                        n,
                        with_first_choice(b, text_message(fallback_text(b)), "stop"@),
                    ),
                },
            }
        },
    }
}

/// What the caller does next.
pub enum Step {
    /// Send this request to the backend and hand its response back.
    Send(JsonValue),
    /// Answer the client with this body.
    Reply(JsonValue),
    /// Relay the last backend response unchanged.
    Forward,
}

/// The model of a [`Step`].
pub enum StepView {
    Send(Json),
    Reply(Json),
    Forward,
}

impl View for Step {
    type V = StepView;

    open spec fn view(&self) -> StepView {
        match self {
            Step::Send(j) => StepView::Send(j@),
            Step::Reply(j) => StepView::Reply(j@),
            Step::Forward => StepView::Forward,
        }
    }
}

/// The loop's next state and step on a response body (`None` when the body
/// is not JSON, which is relayed unchanged).
pub open spec fn step(l: LoopView, body: Option<Json>) -> (LoopView, StepView) {
    match body {
        None => (l, StepView::Forward),
        Some(b) => match verdict(l, b) {
            Verdict::Forward => (l, StepView::Forward),
            Verdict::Reply(j) => (l, StepView::Reply(j)),
            Verdict::Retry(n, fallback) => if within_budget(l.tracker) {
                let req = with_message(l.request, nudge_json(n));
                (
                    LoopView {
                        rescue: l.rescue,
                        respond: l.respond,
                        tracker: recorded(l.tracker),
                        request: req,
                        names: l.names,
                    },
                    StepView::Send(req),
                )
            } else {
                (l, StepView::Reply(fallback))
            },
        },
    }
}

/// Whether rebuilding `b` is defined (`first_choice_settable`).
fn can_rebuild(b: &JsonValue) -> (r: bool)
    ensures
        r == first_choice_settable(b@),
{
    if let Some(c) = b.get("choices") {
        if let Some(c0) = c.at(0) {
            return match c0 {
                JsonValue::Object(_) | JsonValue::Null => true,
                _ => false,
            };
        }
    }
    match b {
        JsonValue::Object(_) | JsonValue::Null => true,
        _ => false,
    }
}

fn respond_index(calls: &Vec<ToolCall>) -> (r: Option<usize>)
    ensures
        match r {
            Some(i) => respond_index_from(calls_view(calls@), 0) == Some(i as nat) && i < calls@.len(),
            None => respond_index_from(calls_view(calls@), 0) is None,
        },
{
    let ghost cv = calls_view(calls@);
    let mut i: usize = 0;
    while i < calls.len()
        invariant
            i <= calls.len(),
            cv == calls_view(calls@),
            respond_index_from(cv, 0) == respond_index_from(cv, i as nat),
        decreases calls.len() - i,
    {
        if is_respond(&calls[i]) {
            return Some(i);
        }
        i = i + 1;
    }
    None
}

fn fallback_text_of(b: &JsonValue) -> (r: String)
    ensures
        r@ == fallback_text(b@),
{
    let message = match b.get("choices") {
        Some(c) => match c.at(0) {
            Some(c0) => c0.get("message"),
            None => None,
        },
        None => None,
    };
    let content = match message {
        Some(m) => m.get("content"),
        None => None,
    };
    match content {
        Some(x) => match x.as_str() {
            Some(s) => s.to_owned(),
            None => String::new(),
        },
        None => String::new(),
    }
}

impl GuardrailLoop {
    /// Decides what to do with a backend response body (`None` when it is
    /// not JSON).
    pub fn on_response(&mut self, body: Option<&JsonValue>) -> (r: Step)
        ensures
            (final(self)@, r@) == step(old(self)@, body.deep_view()),
            loop_ok(final(self)@),
    {
        proof {
            use_type_invariant(&*self);
        }
        let b = match body {
            Some(b) => b,
            None => {
                return Step::Forward;
            },
        };
        let (calls, rescued) = match decode_response(b) {
            ModelOutput::ToolCalls(c) => (c, false),
            ModelOutput::Text(t) => {
                if !self.rescue {
                    return Step::Forward;
                }
                match rescue(t.as_str()) {
                    Some((_, c)) => (c, true),
                    None => {
                        return Step::Forward;
                    },
                }
            },
        };
        if !can_rebuild(b) {
            return Step::Forward;
        }
        if self.respond {
            if let Some(i) = respond_index(&calls) {
                let text = message_text(&calls[i]);
                return Step::Reply(crate::decode::response_with_text(b, text.as_str()));
            }
        }
        let mut names: Vec<&str> = Vec::new();
        let mut k: usize = 0;
        while k < self.tool_names.len()
            invariant
                k <= self.tool_names.len(),
                names@.len() == k,
                names_view(names@) == self.tool_names@.map_values(|n: String| n@).take(k as int),
            decreases self.tool_names.len() - k,
        {
            let ghost before = names@;
            let name = self.tool_names[k].as_str();
            names.push(name);
            assert(names@ == before.push(name));
            assert(name@ == self.tool_names@[k as int]@);
            let ghost tv = self.tool_names@.map_values(|n: String| n@);
            assert forall|j: int| 0 <= j < k + 1 implies #[trigger] names_view(names@)[j] == tv.take(k + 1)[j] by {
                if j < k {
                    assert(names@[j] == before[j]);
                    assert(names_view(before)[j] == tv.take(k as int)[j]);
                }
            }
            k = k + 1;
            assert(names_view(names@) =~= self.tool_names@.map_values(|n: String| n@).take(k as int));
        }
        assert(self.tool_names@.map_values(|n: String| n@).take(self.tool_names.len() as int)
            =~= self.tool_names@.map_values(|n: String| n@));
        match validate(calls.as_slice(), names.as_slice()) {
            Validation::Valid => {
                if rescued {
                    Step::Reply(crate::decode::response_with_tool_calls(b, calls.as_slice()))
                } else {
                    Step::Forward
                }
            },
            Validation::NeedsRetry(n) => {
                proof {
                    self.tracker.lemma_bounds();
                }
                if self.tracker.can_retry() {
                    self.tracker.record_retry();
                    let req = push_member(self.request.copy(), "messages", nudge_message(n.as_str()));
                    self.request = req.copy();
                    Step::Send(req)
                } else {
                    let fallback = fallback_text_of(b);
                    Step::Reply(crate::decode::response_with_text(b, fallback.as_str()))
                }
            },
        }
    }
}

// ── Laws ────────────────────────────────────────────────────────────────────

/// With every guardrail off the proxy degrades to a passthrough: no request
/// enters the loop.
pub proof fn law_all_off_is_passthrough(g: Guardrails, req: Json)
    requires
        !g.rescue && !g.respond && !g.retry,
    ensures
        !guarded(g, req),
{
}

/// The number of requests the loop sends again, fed the response bodies
/// `bodies` one after another, until it stops sending.
pub open spec fn resends(l: LoopView, bodies: Seq<Option<Json>>) -> nat
    decreases bodies.len(),
{
    if bodies.len() == 0 {
        0
    } else {
        match step(l, bodies[0]).1 {
            StepView::Send(_) => 1 + resends(step(l, bodies[0]).0, bodies.drop_first()),
            _ => 0,
        }
    }
}

/// The retry budget is respected: whatever the backend answers, the loop
/// sends again at most as many times as its budget has left (so a request
/// reaches the backend at most `1 + max_retries` times, once with retry off).
pub proof fn law_retries_bounded(l: LoopView, bodies: Seq<Option<Json>>)
    requires
        loop_ok(l),
    ensures
        resends(l, bodies) <= l.tracker.max_retries - l.tracker.attempts,
    decreases bodies.len(),
{
    if bodies.len() > 0 {
        let (l2, st) = step(l, bodies[0]);
        if st is Send {
            let b = bodies[0]->0;
            assert(within_budget(l.tracker));
            assert(l2.tracker == recorded(l.tracker));
            assert(l2.request == with_message(l.request, nudge_json(verdict(l, b)->Retry_0)));
            assert(l2.request is Object);
            law_retries_bounded(l2, bodies.drop_first());
        }
    }
}

/// A `respond` call is stripped to text: the loop answers with a response
/// that decodes to the call's message text.
pub proof fn law_respond_stripped_to_text(l: LoopView, b: Json)
    requires
        l.respond,
        found_calls(l.rescue, decode_body(b)) is Some,
        first_choice_settable(b),
        respond_index_from(found_list(l, b), 0) is Some,
    ensures
        step(l, Some(b)).0 == l,
        step(l, Some(b)).1 matches StepView::Reply(j) && decode_body(j) == OutputView::Text(
            respond_text(
                found_list(l, b)[respond_index_from(found_list(l, b), 0)->0 as int].arguments,
            ),
        ),
{
    let calls = found_list(l, b);
    let i = respond_index_from(calls, 0)->0;
    law_text_reads_back(b, respond_text(calls[i as int].arguments));
}

/// Valid rescued calls are re-emitted: the loop answers with a response that
/// decodes to those calls (with minted ids).
pub proof fn law_rescued_calls_re_emitted(l: LoopView, b: Json)
    requires
        found_calls(l.rescue, decode_body(b)) matches Some((_, rescued)) && rescued,
        first_choice_settable(b),
        !l.respond || respond_index_from(found_list(l, b), 0) is None,
        validation_of(found_list(l, b), l.names) == ValidationView::Valid,
    ensures
        step(l, Some(b)).0 == l,
        step(l, Some(b)).1 matches StepView::Reply(j) && decode_body(j) == OutputView::ToolCalls(
            with_minted_ids(found_list(l, b)),
        ),
{
    let calls = found_list(l, b);
    if let OutputView::Text(t) = decode_body(b) {
        crate::rescue::law_rescued_batch(default_order(), t);
    }
    law_tool_calls_read_back(b, calls);
}

/// Valid native calls are forwarded as the backend sent them.
pub proof fn law_native_valid_forwarded(l: LoopView, b: Json)
    requires
        found_calls(l.rescue, decode_body(b)) matches Some((_, rescued)) && !rescued,
        !l.respond || respond_index_from(found_list(l, b), 0) is None,
        validation_of(found_list(l, b), l.names) == ValidationView::Valid,
    ensures
        step(l, Some(b)) == (l, StepView::Forward),
{
}

/// An invalid batch within budget is sent again with the corrective nudge
/// appended as the last `user` message; the budget is then one retry less.
pub proof fn law_retry_appends_nudge(l: LoopView, b: Json, n: Seq<char>, msgs: Seq<Json>)
    requires
        loop_ok(l),
        verdict(l, b) == Verdict::Retry(n, with_first_choice(b, text_message(fallback_text(b)), "stop"@)),
        within_budget(l.tracker),
        json_get(l.request, "messages"@) == Some(Json::Array(msgs)),
    ensures
        step(l, Some(b)).0.tracker == recorded(l.tracker),
        step(l, Some(b)).1 matches StepView::Send(req) && json_get(req, "messages"@) == Some(
            Json::Array(msgs.push(nudge_json(n))),
        ),
{
    crate::decode::lemma_index_set_other(
        l.request,
        "messages"@,
        Json::Array(msgs.push(nudge_json(n))),
        "messages"@,
    );
}

/// Once the budget is spent, an invalid batch falls back to the last text:
/// the loop answers with a response that decodes to the response's content.
pub proof fn law_exhaustion_falls_back_to_text(l: LoopView, b: Json, n: Seq<char>)
    requires
        verdict(l, b) == Verdict::Retry(n, with_first_choice(b, text_message(fallback_text(b)), "stop"@)),
        !within_budget(l.tracker),
    ensures
        step(l, Some(b)).0 == l,
        step(l, Some(b)).1 matches StepView::Reply(j) && decode_body(j) == OutputView::Text(fallback_text(b)),
{
    assert(found_calls(l.rescue, decode_body(b)) is Some);
    assert(first_choice_settable(b));
    law_text_reads_back(b, fallback_text(b));
}

/// Invalid calls are never forwarded: when the calls found in a response
/// (native or rescued) fail validation and no `respond` call applies, the
/// loop asks again while budget remains, appending the validation's nudge as
/// a `user` message and recording one retry; once the budget is spent it
/// answers with the response's text.
pub proof fn law_invalid_calls_retried(l: LoopView, b: Json)
    requires
        found_calls(l.rescue, decode_body(b)) is Some,
        first_choice_settable(b),
        !l.respond || respond_index_from(found_list(l, b), 0) is None,
        validation_of(found_list(l, b), l.names) is NeedsRetry,
    ensures
        !(step(l, Some(b)).1 is Forward),
        l.tracker.attempts < l.tracker.max_retries ==> {
            &&& step(l, Some(b)).0.tracker.attempts == l.tracker.attempts + 1
            &&& step(l, Some(b)).0.tracker.max_retries == l.tracker.max_retries
            &&& step(l, Some(b)).1 == StepView::Send(
                with_message(
                    l.request,
                    nudge_json(validation_of(found_list(l, b), l.names)->NeedsRetry_0),
                ),
            )
            &&& step(l, Some(b)).0.request == with_message(
                l.request,
                nudge_json(validation_of(found_list(l, b), l.names)->NeedsRetry_0),
            )
        },
        l.tracker.attempts >= l.tracker.max_retries ==> {
            &&& step(l, Some(b)).0 == l
            &&& step(l, Some(b)).1 matches StepView::Reply(j) && decode_body(j) == OutputView::Text(
                fallback_text(b),
            )
        },
{
    law_text_reads_back(b, fallback_text(b));
}

/// The retry message is the validation's nudge as a `user` message appended
/// after the request's existing messages, which are kept as they were.
pub proof fn law_invalid_calls_nudge_appended(l: LoopView, b: Json, msgs: Seq<Json>)
    requires
        loop_ok(l),
        found_calls(l.rescue, decode_body(b)) is Some,
        first_choice_settable(b),
        !l.respond || respond_index_from(found_list(l, b), 0) is None,
        validation_of(found_list(l, b), l.names) is NeedsRetry,
        l.tracker.attempts < l.tracker.max_retries,
        json_get(l.request, "messages"@) == Some(Json::Array(msgs)),
    ensures
        step(l, Some(b)).1 matches StepView::Send(req) && json_get(req, "messages"@) == Some(
            Json::Array(
                msgs.push(
                    Json::Object(
                        seq![
                            ("content"@, Json::Str(validation_of(found_list(l, b), l.names)->NeedsRetry_0)),
                            ("role"@, Json::Str("user"@)),
                        ],
                    ),
                ),
            ),
        ),
{
    let n = validation_of(found_list(l, b), l.names)->NeedsRetry_0;
    assert(verdict(l, b) == Verdict::Retry(n, with_first_choice(b, text_message(fallback_text(b)), "stop"@)));
    law_retry_appends_nudge(l, b, n, msgs);
}

} // verus!
