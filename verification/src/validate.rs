//! Validating decoded tool calls against the tools a request declared.
//!
//! A call is valid when its name is one the request declared and its
//! arguments parse as a JSON object; otherwise the first problem yields the
//! corrective nudge the retry loop feeds back to the model.
use vstd::prelude::*;

use crate::decode::{CallView, ToolCall};
use crate::json::{parsed_json, Json, JsonValue};
use crate::text::str_eq;

verus! {

/// Outcome of validating a batch of tool calls.
#[derive(Debug, Clone, PartialEq)]
pub enum Validation {
    /// Every call names a declared tool and carries object arguments.
    Valid,
    /// Some call is malformed; carries the nudge to feed back.
    NeedsRetry(String),
}

/// The model of a [`Validation`].
pub enum ValidationView {
    Valid,
    NeedsRetry(Seq<char>),
}

impl View for Validation {
    type V = ValidationView;

    open spec fn view(&self) -> ValidationView {
        match self {
            Validation::Valid => ValidationView::Valid,
            Validation::NeedsRetry(n) => ValidationView::NeedsRetry(n@),
        }
    }
}

/// The declared tool names, as character sequences.
pub open spec fn names_view(names: Seq<&str>) -> Seq<Seq<char>> {
    names.map_values(|n: &str| n@)
}

/// `items` joined with `sep` between them (`[&str]::join`).
pub open spec fn join(items: Seq<Seq<char>>, sep: Seq<char>) -> Seq<char>
    decreases items.len(),
{
    if items.len() == 0 {
        Seq::empty()
    } else if items.len() == 1 {
        items[0]
    } else {
        join(items.drop_last(), sep) + sep + items.last()
    }
}

/// The arguments text parses as a JSON object.
pub open spec fn arguments_object(arguments: Seq<char>) -> bool {
    match parsed_json(arguments) {
        Some(Json::Object(_)) => true,
        _ => false,
    }
}

/// The nudge for a call to a tool that was not declared.
pub open spec fn unknown_tool_text(name: Seq<char>, names: Seq<Seq<char>>) -> Seq<char> {
    "You called a tool named \""@ + name
        + "\" which does not exist. Call one of the available tools instead: "@ + join(names, ", "@)
        + "."@
}

/// The nudge for a call whose arguments are not a JSON object.
pub open spec fn bad_arguments_text(name: Seq<char>) -> Seq<char> {
    "The arguments for tool \""@ + name
        + "\" were not a valid JSON object. Reply with a single tool call whose arguments are a JSON object."@
}

/// The problem with one call, if any: an undeclared name comes first, then
/// arguments that are not an object.
pub open spec fn call_problem(c: CallView, names: Seq<Seq<char>>) -> Option<Seq<char>> {
    if !names.contains(c.name) {
        Some(unknown_tool_text(c.name, names))
    } else if !arguments_object(c.arguments) {
        Some(bad_arguments_text(c.name))
    } else {
        None
    }
}

/// The problem with the first call that has one.
pub open spec fn first_problem(calls: Seq<CallView>, names: Seq<Seq<char>>) -> Option<Seq<char>>
    decreases calls.len(),
{
    if calls.len() == 0 {
        None
    } else {
        match call_problem(calls[0], names) {
            Some(n) => Some(n),
            None => first_problem(calls.drop_first(), names),
        }
    }
}

/// The outcome of validating `calls` against `names`.
pub open spec fn validation_of(calls: Seq<CallView>, names: Seq<Seq<char>>) -> ValidationView {
    match first_problem(calls, names) {
        Some(n) => ValidationView::NeedsRetry(n),
        None => ValidationView::Valid,
    }
}

fn name_declared(name: &str, tool_names: &[&str]) -> (r: bool)
    ensures
        r == names_view(tool_names@).contains(name@),
{
    let mut i: usize = 0;
    while i < tool_names.len()
        invariant
            i <= tool_names.len(),
            forall|j: int| 0 <= j < i ==> tool_names@[j]@ != name@,
        decreases tool_names.len() - i,
    {
        if str_eq(tool_names[i], name) {
            assert(names_view(tool_names@)[i as int] == name@);
            return true;
        }
        i = i + 1;
    }
    proof {
        if names_view(tool_names@).contains(name@) {
            let j = choose|j: int| 0 <= j < names_view(tool_names@).len() && names_view(tool_names@)[j] == name@;
            assert(tool_names@[j]@ == name@);
        }
    }
    false
}

/// Arguments must be a JSON object: a bare string, array, number, or invalid
/// JSON all fail.
fn arguments_are_object(arguments: &str) -> (r: bool)
    ensures
        r == arguments_object(arguments@),
{
    match JsonValue::parse(arguments) {
        Some(v) => v.is_object(),
        None => false,
    }
}

fn join_names(tool_names: &[&str]) -> (r: String)
    ensures
        r@ == join(names_view(tool_names@), ", "@),
{
    let mut s = String::new();
    let mut i: usize = 0;
    while i < tool_names.len()
        invariant
            i <= tool_names.len(),
            s@ == join(names_view(tool_names@).take(i as int), ", "@),
        decreases tool_names.len() - i,
    {
        let ghost before = s@;
        if i > 0 {
            s.append(", ");
        }
        s.append(tool_names[i]);
        assert(names_view(tool_names@).take(i + 1).drop_last() =~= names_view(tool_names@).take(i as int));
        assert(i == 0 ==> names_view(tool_names@).take(1) =~= seq![tool_names@[0]@]);
        i = i + 1;
    }
    assert(names_view(tool_names@).take(tool_names.len() as int) =~= names_view(tool_names@));
    s
}

fn unknown_tool_nudge(name: &str, tool_names: &[&str]) -> (r: String)
    ensures
        r@ == unknown_tool_text(name@, names_view(tool_names@)),
{
    let mut s = String::new();
    s.append("You called a tool named \"");
    s.append(name);
    s.append("\" which does not exist. Call one of the available tools instead: ");
    let joined = join_names(tool_names);
    s.append(joined.as_str());
    s.append(".");
    s
}

fn bad_arguments_nudge(name: &str) -> (r: String)
    ensures
        r@ == bad_arguments_text(name@),
{
    let mut s = String::new();
    s.append("The arguments for tool \"");
    s.append(name);
    s.append(
        "\" were not a valid JSON object. Reply with a single tool call whose arguments are a JSON object.",
    );
    s
}

/// Validates `calls` against the declared `tool_names`: `NeedsRetry` with the
/// nudge for the first problem found, else `Valid`. No calls at all is
/// vacuously valid.
pub fn validate(calls: &[ToolCall], tool_names: &[&str]) -> (r: Validation)
    ensures
        r@ == validation_of(crate::decode::calls_view(calls@), names_view(tool_names@)),
{
    let ghost cv = crate::decode::calls_view(calls@);
    let ghost names = names_view(tool_names@);
    let mut i: usize = 0;
    assert(cv.skip(0) =~= cv);
    while i < calls.len()
        invariant
            i <= calls.len(),
            cv == crate::decode::calls_view(calls@),
            names == names_view(tool_names@),
            first_problem(cv, names) == first_problem(cv.skip(i as int), names),
        decreases calls.len() - i,
    {
        let call = &calls[i];
        assert(cv.skip(i as int)[0] == call@);
        assert(cv.skip(i as int).drop_first() =~= cv.skip(i + 1));
        if !name_declared(call.name.as_str(), tool_names) {
            return Validation::NeedsRetry(unknown_tool_nudge(call.name.as_str(), tool_names));
        }
        if !arguments_are_object(call.arguments.as_str()) {
            return Validation::NeedsRetry(bad_arguments_nudge(call.name.as_str()));
        }
        i = i + 1;
    }
    Validation::Valid
}

/// A batch is valid exactly when every call names a declared tool and carries
/// object arguments.
pub proof fn law_valid_iff_every_call_ok(calls: Seq<CallView>, names: Seq<Seq<char>>)
    ensures
        (validation_of(calls, names) == ValidationView::Valid) <==> (forall|i: int|
            0 <= i < calls.len() ==> names.contains(#[trigger] calls[i].name) && arguments_object(
                calls[i].arguments,
            )),
    decreases calls.len(),
{
    if calls.len() > 0 {
        law_valid_iff_every_call_ok(calls.drop_first(), names);
        assert forall|i: int| 1 <= i < calls.len() implies #[trigger] calls[i] == calls.drop_first()[i - 1] by {}
        if call_problem(calls[0], names) is None {
            if !(forall|i: int|
                0 <= i < calls.len() ==> names.contains(#[trigger] calls[i].name) && arguments_object(
                    calls[i].arguments,
                )) {
                let i = choose|i: int|
                    0 <= i < calls.len() && !(names.contains(#[trigger] calls[i].name)
                        && arguments_object(calls[i].arguments));
                assert(calls.drop_first()[i - 1] == calls[i]);
            }
        }
    }
}

/// The first problem wins: the nudge is that of the first call with a problem.
pub proof fn law_first_problem_wins(calls: Seq<CallView>, names: Seq<Seq<char>>, i: int)
    requires
        0 <= i < calls.len(),
        call_problem(calls[i], names) is Some,
        forall|j: int| 0 <= j < i ==> call_problem(#[trigger] calls[j], names) is None,
    ensures
        validation_of(calls, names) == ValidationView::NeedsRetry(call_problem(calls[i], names)->0),
    decreases i,
{
    if i > 0 {
        assert forall|j: int| 0 <= j < i - 1 implies call_problem(#[trigger] calls.drop_first()[j], names) is None by {
            assert(calls.drop_first()[j] == calls[j + 1]);
        }
        law_first_problem_wins(calls.drop_first(), names, i - 1);
        assert(call_problem(calls[0], names) is None);
    }
}

/// Any JSON object is acceptable arguments, whatever its members: arguments
/// are accepted exactly when they parse to an object.
pub proof fn law_object_arguments_accepted(arguments: Seq<char>)
    ensures
        arguments_object(arguments) <==> (parsed_json(arguments) matches Some(Json::Object(_))),
{
}

/// A batch is valid exactly when every call names a declared tool and its
/// arguments parse to a JSON object, of any size.
pub proof fn law_valid_iff_declared_objects(calls: Seq<CallView>, names: Seq<Seq<char>>)
    ensures
        (validation_of(calls, names) == ValidationView::Valid) <==> (forall|i: int|
            0 <= i < calls.len() ==> names.contains(#[trigger] calls[i].name) && (parsed_json(
                calls[i].arguments,
            ) matches Some(Json::Object(_)))),
{
    law_valid_iff_every_call_ok(calls, names);
    if validation_of(calls, names) == ValidationView::Valid {
        assert forall|i: int| 0 <= i < calls.len() implies names.contains(#[trigger] calls[i].name)
            && (parsed_json(calls[i].arguments) matches Some(Json::Object(_))) by {
            assert(names.contains(calls[i].name) && arguments_object(calls[i].arguments));
        }
    } else {
        if forall|i: int|
            0 <= i < calls.len() ==> names.contains(#[trigger] calls[i].name) && (parsed_json(
                calls[i].arguments,
            ) matches Some(Json::Object(_))) {
            assert forall|i: int| 0 <= i < calls.len() implies names.contains(
                #[trigger] calls[i].name,
            ) && arguments_object(calls[i].arguments) by {
                law_object_arguments_accepted(calls[i].arguments);
            }
        }
    }
}

/// The nudge names the first failing call: when every call before `i` names a
/// declared tool with object arguments, an undeclared name at `i` gives the
/// unknown-tool nudge, and a declared name whose arguments do not parse to an
/// object gives the bad-arguments nudge.
pub proof fn law_first_failing_call_nudged(calls: Seq<CallView>, names: Seq<Seq<char>>, i: int)
    requires
        0 <= i < calls.len(),
        forall|j: int|
            0 <= j < i ==> names.contains(#[trigger] calls[j].name) && (parsed_json(
                calls[j].arguments,
            ) matches Some(Json::Object(_))),
    ensures
        !names.contains(calls[i].name) ==> validation_of(calls, names) == ValidationView::NeedsRetry(
            unknown_tool_text(calls[i].name, names),
        ),
        names.contains(calls[i].name) && !(parsed_json(calls[i].arguments) matches Some(
            Json::Object(_),
        )) ==> validation_of(calls, names) == ValidationView::NeedsRetry(
            bad_arguments_text(calls[i].name),
        ),
{
    assert forall|j: int| 0 <= j < i implies call_problem(#[trigger] calls[j], names) is None by {
        assert(names.contains(calls[j].name));
    }
    if call_problem(calls[i], names) is Some {
        law_first_problem_wins(calls, names, i);
    }
}

} // verus!
