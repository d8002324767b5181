//! Rescue parsing: recovering tool calls that a model wrote into its text
//! instead of the native `tool_calls` field.
//!
//! Each parser recognises one model family's format; [`rescue`] tries them in
//! a fixed order and reports the first that matches:
//!
//! | Parser | Format |
//! |---|---|
//! | [`Mistral`] | `[TOOL_CALLS][{...}]` or `[TOOL_CALLS]name{args}` |
//! | [`Rehearsal`] | `name[ARGS]{...}` |
//! | [`QwenCoder`] | `<function=name><parameter=k>v</parameter></function>` |
//! | [`Qwen`] | `<tool_call>{...}</tool_call>` |
//! | [`Hermes`] | `<function_call>{...}</function_call>` |
//! | [`Llama`] | `<|python_tag|>{...}` |
//! | [`FencedJson`] | a fenced code block |
//! | [`BareJson`] | the whole text is a tool-call JSON value |
use vstd::prelude::*;

use crate::decode::{arguments_text, calls_view, CallView, ToolCall};
use crate::json::{
    first_json, first_json_value, json_get, json_text, lemma_entries_view, lemma_items_view,
    find_member, lookup_index, opt_str, Json, JsonValue,
};
use crate::json::{lemma_set_entry, parse_chars, parsed_json, set_entry, set_member};
use crate::text::{
    alphanumeric, ascii_alnum, before, before_chars, concat, contains_whitespace, find, find_char,
    find_in, free_of, from_chars, has_ws, is_alphanumeric, is_ascii_alphanumeric, is_ws,
    lead_unique, lemma_find, lemma_find_after_free, lemma_find_free, lemma_split_after_free,
    lemma_split_free, matches_at, slice_of, split, split_chars, to_chars, trim, trim_chars, trim_end,
    trim_start, trim_start_chars, views,
};

verus! {

// ── Shared JSON interpretation ──────────────────────────────────────────────

/// The models of optional calls.
pub open spec fn opt_calls(r: Option<Vec<ToolCall>>) -> Option<Seq<CallView>> {
    match r {
        Some(v) => Some(calls_view(v@)),
        None => None,
    }
}

/// The first of two optional members that is present (`Option::or_else`).
pub open spec fn or_else(a: Option<Json>, b: Option<Json>) -> Option<Json> {
    match a {
        Some(x) => Some(x),
        None => b,
    }
}

/// One JSON object read as one tool call: OpenAI's `{function: {name,
/// arguments}}`, the flat `{name, arguments|args|parameters}` or forge's
/// `{tool, args}`. The name must be a string, non-empty once trimmed.
pub open spec fn call_from_json(v: Json) -> Option<CallView> {
    match v {
        Json::Object(_) => {
            let (name, args) = match json_get(v, "function"@) {
                Some(Json::Object(fe)) => (
                    json_get(Json::Object(fe), "name"@),
                    json_get(Json::Object(fe), "arguments"@),
                ),
                _ => (
                    or_else(json_get(v, "name"@), json_get(v, "tool"@)),
                    or_else(
                        json_get(v, "arguments"@),
                        or_else(json_get(v, "args"@), json_get(v, "parameters"@)),
                    ),
                ),
            };
            match opt_str(name) {
                Some(n) => if trim(n).len() == 0 {
                    None
                } else {
                    Some(CallView { id: None, name: trim(n), arguments: arguments_text(args) })
                },
                None => None,
            }
        },
        _ => None,
    }
}

/// The calls read from the elements of an array that are call-shaped, in
/// order.
pub open spec fn calls_from_items(items: Seq<Json>) -> Seq<CallView>
    decreases items.len(),
{
    if items.len() == 0 {
        Seq::empty()
    } else {
        match call_from_json(items[0]) {
            Some(c) => seq![c] + calls_from_items(items.drop_first()),
            None => calls_from_items(items.drop_first()),
        }
    }
}

/// One or more tool calls read from a JSON value: an array of calls, a
/// `{tool_calls: ...}` wrapper, or a single call object.
pub open spec fn calls_from_json(v: Json) -> Option<Seq<CallView>>
    decreases v,
{
    match v {
        Json::Array(items) => {
            let cs = calls_from_items(items);
            if cs.len() > 0 {
                Some(cs)
            } else {
                None
            }
        },
        Json::Object(e) => match lookup_index(e, "tool_calls"@) {
            Some(i) => if i < e.len() {
                calls_from_json(e[i as int].1)
            } else {
                None
            },
            None => match call_from_json(v) {
                Some(c) => Some(seq![c]),
                None => None,
            },
        },
        _ => None,
    }
}

/// `calls_from_json` of the first JSON value in a text.
pub open spec fn calls_in_first_json(s: Seq<char>) -> Option<Seq<CallView>> {
    match first_json(s) {
        Some(v) => calls_from_json(v),
        None => None,
    }
}

fn tool_call_from_value(v: &JsonValue) -> (r: Option<ToolCall>)
    ensures
        match r {
            Some(c) => call_from_json(v@) == Some(c@),
            None => call_from_json(v@) is None,
        },
{
    if !v.is_object() {
        return None;
    }
    let func = match v.get("function") {
        Some(f) => if f.is_object() {
            Some(f)
        } else {
            None
        },
        None => None,
    };
    let (name, args) = match func {
        Some(f) => (f.get("name"), f.get("arguments")),
        None => {
            let n = match v.get("name") {
                Some(x) => Some(x),
                None => v.get("tool"),
            };
            let a = match v.get("arguments") {
                Some(x) => Some(x),
                None => match v.get("args") {
                    Some(x) => Some(x),
                    None => v.get("parameters"),
                },
            };
            (n, a)
        },
    };
    let raw = match name {
        Some(x) => match x.as_str() {
            Some(s) => s,
            None => {
                return None;
            },
        },
        None => {
            return None;
        },
    };
    let chars = crate::text::to_chars(raw);
    let trimmed = trim_chars(chars.as_slice());
    if trimmed.len() == 0 {
        return None;
    }
    let arguments = match args {
        Some(JsonValue::Str(s)) => s.clone(),
        Some(other) => other.to_text(),
        None => "{}".to_owned(),
    };
    Some(ToolCall { id: None, name: crate::text::from_chars(trimmed.as_slice()), arguments })
}

fn tool_calls_from_value(v: &JsonValue) -> (r: Option<Vec<ToolCall>>)
    ensures
        opt_calls(r) == calls_from_json(v@),
    decreases v,
{
    match v {
        JsonValue::Array(items) => {
            proof {
                lemma_items_view(items@);
            }
            let ghost iv = crate::json::items_view(items@);
            let mut out: Vec<ToolCall> = Vec::new();
            let mut i: usize = 0;
            assert(iv.skip(0) =~= iv);
            while i < items.len()
                invariant
                    i <= items.len(),
                    iv == crate::json::items_view(items@),
                    iv.len() == items@.len(),
                    forall|j: int| 0 <= j < items@.len() ==> #[trigger] iv[j] == items@[j]@,
                    calls_from_items(iv) == calls_view(out@) + calls_from_items(iv.skip(i as int)),
                decreases items.len() - i,
            {
                let ghost before = out@;
                assert(iv.skip(i as int).drop_first() =~= iv.skip(i + 1));
                assert(iv.skip(i as int)[0] == items@[i as int]@);
                match tool_call_from_value(&items[i]) {
                    Some(c) => {
                        out.push(c);
                        assert(calls_view(out@) =~= calls_view(before) + seq![c@]);
                        assert(calls_view(out@) + calls_from_items(iv.skip(i + 1)) =~= calls_view(before)
                            + (seq![c@] + calls_from_items(iv.skip(i + 1))));
                    },
                    None => {},
                }
                i = i + 1;
            }
            assert(iv.skip(items.len() as int) =~= Seq::<Json>::empty());
            assert(calls_view(out@) + Seq::<CallView>::empty() =~= calls_view(out@));
            if out.len() > 0 {
                Some(out)
            } else {
                None
            }
        },
        JsonValue::Object(entries) => {
            let key = crate::text::to_chars("tool_calls");
            proof {
                lemma_entries_view(entries@);
            }
            match find_member(entries, key.as_slice()) {
                Some(i) => {
                    proof {
                        assert(decreases_to!(*v => v->Object_0));
                        assert(decreases_to!(v->Object_0 => v->Object_0@));
                        assert(decreases_to!(v->Object_0@ => v->Object_0@[i as int]));
                        assert(decreases_to!(v->Object_0@[i as int] => v->Object_0@[i as int].1));
                    }
                    tool_calls_from_value(&entries[i].1)
                },
                None => match tool_call_from_value(v) {
                    Some(c) => {
                        let mut out: Vec<ToolCall> = Vec::new();
                        out.push(c);
                        assert(calls_view(out@) =~= seq![c@]);
                        Some(out)
                    },
                    None => None,
                },
            }
        },
        _ => None,
    }
}

fn calls_in_first_value(cs: &[char]) -> (r: Option<Vec<ToolCall>>)
    ensures
        opt_calls(r) == calls_in_first_json(cs@),
{
    match first_json_value(cs) {
        Some(v) => tool_calls_from_value(&v),
        None => None,
    }
}

/// A one-call batch.
fn single(name: &[char], args: &JsonValue) -> (r: Option<Vec<ToolCall>>)
    ensures
        opt_calls(r) == Some(seq![CallView { id: None, name: name@, arguments: json_text(args@) }]),
{
    let mut out: Vec<ToolCall> = Vec::new();
    out.push(ToolCall { id: None, name: from_chars(name), arguments: args.to_text() });
    assert(calls_view(out@) =~= seq![CallView { id: None, name: name@, arguments: json_text(args@) }]);
    Some(out)
}

// ── Mistral ─────────────────────────────────────────────────────────────────

/// Mistral: `[TOOL_CALLS]` followed by JSON calls, or else by `name{args}`.
pub open spec fn mistral_calls(t: Seq<char>) -> Option<Seq<CallView>> {
    match find(t, "[TOOL_CALLS]"@) {
        None => None,
        Some(idx) => {
            let rest = trim_start(t.skip((idx + "[TOOL_CALLS]"@.len()) as int));
            match calls_in_first_json(rest) {
                Some(calls) => Some(calls),
                None => match find(rest, seq!['{']) {
                    None => None,
                    Some(brace) => {
                        let name = trim(rest.take(brace as int));
                        if name.len() == 0 || has_ws(name) {
                            None
                        } else {
                            match first_json(rest.skip(brace as int)) {
                                Some(args) => Some(
                                    seq![CallView { id: None, name, arguments: json_text(args) }],
                                ),
                                None => None,
                            }
                        }
                    },
                },
            }
        },
    }
}

fn mistral_parse(text: &[char]) -> (r: Option<Vec<ToolCall>>)
    ensures
        opt_calls(r) == mistral_calls(text@),
{
    let token = to_chars("[TOOL_CALLS]");
    let idx = match find_in(text, token.as_slice()) {
        Some(i) => i,
        None => {
            return None;
        },
    };
    proof {
        lemma_find(text@, token@);
    }
    assert(idx + token@.len() <= text@.len());
    assert(token.len() == token@.len());
    assert(text.len() == text@.len());
    let tail = slice_of(text, idx + token.len(), text.len());
    assert(tail@ =~= text@.skip((idx + token@.len()) as int));
    let rest = trim_start_chars(tail.as_slice());
    if let Some(calls) = calls_in_first_value(rest.as_slice()) {
        return Some(calls);
    }
    let brace = match find_char(rest.as_slice(), '{') {
        Some(b) => b,
        None => {
            return None;
        },
    };
    proof {
        lemma_find(rest@, seq!['{']);
    }
    let head = slice_of(rest.as_slice(), 0, brace);
    assert(head@ =~= rest@.take(brace as int));
    let name = trim_chars(head.as_slice());
    if name.len() == 0 || contains_whitespace(name.as_slice()) {
        return None;
    }
    let body = slice_of(rest.as_slice(), brace, rest.len());
    assert(body@ =~= rest@.skip(brace as int));
    match first_json_value(body.as_slice()) {
        Some(args) => single(name.as_slice(), &args),
        None => None,
    }
}

// ── Rehearsal ───────────────────────────────────────────────────────────────

/// A character of an identifier: `_`, or one that `char::is_alphanumeric`
/// accepts (never a whitespace character, as its wrapper states).
pub open spec fn ident_char(c: char) -> bool {
    (alphanumeric(c) && !is_ws(c)) || c == '_'
}

/// The identifier that ends `s`: its longest suffix of identifier characters.
pub open spec fn ident_suffix(s: Seq<char>) -> Seq<char>
    decreases s.len(),
{
    if s.len() > 0 && ident_char(s.last()) {
        ident_suffix(s.drop_last()).push(s.last())
    } else {
        Seq::empty()
    }
}

/// Rehearsal syntax: `name[ARGS]{...}`, the name being the identifier right
/// before `[ARGS]` and the arguments a JSON object.
pub open spec fn rehearsal_calls(t: Seq<char>) -> Option<Seq<CallView>> {
    match find(t, "[ARGS]"@) {
        None => None,
        Some(m) => {
            let name = ident_suffix(t.take(m as int));
            if name.len() == 0 {
                None
            } else {
                match first_json(trim_start(t.skip((m + "[ARGS]"@.len()) as int))) {
                    Some(args) => if args is Object {
                        Some(seq![CallView { id: None, name, arguments: json_text(args) }])
                    } else {
                        None
                    },
                    None => None,
                }
            }
        },
    }
}

fn rehearsal_parse(text: &[char]) -> (r: Option<Vec<ToolCall>>)
    ensures
        opt_calls(r) == rehearsal_calls(text@),
{
    let marker_text = to_chars("[ARGS]");
    let marker = match find_in(text, marker_text.as_slice()) {
        Some(i) => i,
        None => {
            return None;
        },
    };
    proof {
        lemma_find(text@, marker_text@);
    }
    let mut j: usize = marker;
    assert(text@.subrange(marker as int, marker as int) =~= Seq::<char>::empty());
    assert(ident_suffix(text@.take(marker as int)) =~= ident_suffix(text@.take(marker as int))
        + Seq::<char>::empty());
    while j > 0 && (is_alphanumeric(text[j - 1]) || text[j - 1] == '_')
        invariant
            j <= marker <= text.len(),
            ident_suffix(text@.take(marker as int)) == ident_suffix(text@.take(j as int))
                + text@.subrange(j as int, marker as int),
        decreases j,
    {
        assert(text@.take(j as int).drop_last() =~= text@.take(j - 1));
        assert(text@.take(j as int).last() == text@[j - 1]);
        assert(text@.subrange(j - 1, marker as int) =~= seq![text@[j - 1]] + text@.subrange(
            j as int,
            marker as int,
        ));
        assert(ident_suffix(text@.take(j - 1)).push(text@[j - 1]) + text@.subrange(j as int, marker as int)
            =~= ident_suffix(text@.take(j - 1)) + text@.subrange(j - 1, marker as int));
        j = j - 1;
    }
    assert(ident_suffix(text@.take(j as int)) =~= Seq::<char>::empty());
    let name = slice_of(text, j, marker);
    assert(name@ =~= ident_suffix(text@.take(marker as int)));
    if name.len() == 0 {
        return None;
    }
    let tail = slice_of(text, marker + marker_text.len(), text.len());
    assert(tail@ =~= text@.skip((marker + marker_text@.len()) as int));
    let rest = trim_start_chars(tail.as_slice());
    match first_json_value(rest.as_slice()) {
        Some(args) => if args.is_object() {
            single(name.as_slice(), &args)
        } else {
            None
        },
        None => None,
    }
}

// ── Tagged blocks (Qwen, Hermes) ────────────────────────────────────────────

/// The inner text of every `open ... close` pair in `t`, left to right; an
/// `open` without a later `close` ends the search.
pub open spec fn tag_blocks(t: Seq<char>, open: Seq<char>, close: Seq<char>) -> Seq<Seq<char>>
    decreases t.len(),
{
    if open.len() == 0 {
        Seq::empty()
    } else {
        match find(t, open) {
            None => Seq::empty(),
            Some(start) => if start + open.len() <= t.len() {
                let after = t.skip((start + open.len()) as int);
                match find(after, close) {
                    None => Seq::empty(),
                    Some(end) => if end + close.len() <= after.len() {
                        seq![after.take(end as int)] + tag_blocks(
                            after.skip((end + close.len()) as int),
                            open,
                            close,
                        )
                    } else {
                        Seq::empty()
                    },
                }
            } else {
                Seq::empty()
            },
        }
    }
}

/// The inner text of every `<tag>...</tag>` pair.
pub open spec fn tagged(t: Seq<char>, tag: Seq<char>) -> Seq<Seq<char>> {
    tag_blocks(t, "<"@ + tag + ">"@, "</"@ + tag + ">"@)
}

/// The text `gaps[0] open inners[0] close gaps[1] ... open inners[n-1] close
/// gaps[n]`, for `n` inner texts and `n + 1` gaps.
pub open spec fn assemble_blocks(
    gaps: Seq<Seq<char>>,
    inners: Seq<Seq<char>>,
    open: Seq<char>,
    close: Seq<char>,
) -> Seq<char>
    decreases inners.len(),
{
    if inners.len() == 0 {
        gaps[0]
    } else {
        gaps[0] + open + inners[0] + close + assemble_blocks(
            gaps.drop_first(),
            inners.drop_first(),
            open,
            close,
        )
    }
}

/// Blocks read back: in a text assembled from gaps free of `open` and inner
/// texts free of `close`, `tag_blocks` finds exactly the inner texts, in
/// order (for markers no other character of which equals their first).
pub proof fn law_tag_blocks_read_back(
    gaps: Seq<Seq<char>>,
    inners: Seq<Seq<char>>,
    open: Seq<char>,
    close: Seq<char>,
)
    requires
        lead_unique(open),
        lead_unique(close),
        gaps.len() == inners.len() + 1,
        forall|i: int| 0 <= i < gaps.len() ==> free_of(#[trigger] gaps[i], open),
        forall|i: int| 0 <= i < inners.len() ==> free_of(#[trigger] inners[i], close),
    ensures
        tag_blocks(assemble_blocks(gaps, inners, open, close), open, close) == inners,
    decreases inners.len(),
{
    if inners.len() == 0 {
        assert(free_of(gaps[0], open));
        lemma_find_free(gaps[0], open);
        assert(inners =~= Seq::<Seq<char>>::empty());
    } else {
        let g = gaps[0];
        let inner = inners[0];
        let rest = assemble_blocks(gaps.drop_first(), inners.drop_first(), open, close);
        let t = assemble_blocks(gaps, inners, open, close);
        let tail = open + (inner + (close + rest));
        assert(t =~= g + tail);
        assert(free_of(g, open));
        assert(tail.take(open.len() as int) =~= open);
        lemma_find_after_free(g, tail, open);
        let after = t.skip((g.len() + open.len()) as int);
        assert(after =~= inner + (close + rest));
        assert(free_of(inner, close));
        assert((close + rest).take(close.len() as int) =~= close);
        lemma_find_after_free(inner, close + rest, close);
        assert(after.take(inner.len() as int) =~= inner);
        assert(after.skip((inner.len() + close.len()) as int) =~= rest);
        assert forall|i: int| 0 <= i < gaps.drop_first().len() implies free_of(
            #[trigger] gaps.drop_first()[i],
            open,
        ) by {
            assert(gaps.drop_first()[i] == gaps[i + 1]);
        }
        assert forall|i: int| 0 <= i < inners.drop_first().len() implies free_of(
            #[trigger] inners.drop_first()[i],
            close,
        ) by {
            assert(inners.drop_first()[i] == inners[i + 1]);
        }
        law_tag_blocks_read_back(gaps.drop_first(), inners.drop_first(), open, close);
        assert(seq![inner] + inners.drop_first() =~= inners);
    }
}

/// Tagged text reads back: for a tag without `<`, a text assembled as
/// `gaps[0] <tag>inners[0]</tag> gaps[1] ... <tag>inners[n-1]</tag> gaps[n]`,
/// whose gaps hold no `<tag>` and whose inner texts hold no `</tag>`, yields
/// exactly the inner texts, in order.
pub proof fn law_tagged_reads_back(tag: Seq<char>, gaps: Seq<Seq<char>>, inners: Seq<Seq<char>>)
    requires
        forall|k: int| 0 <= k < tag.len() ==> #[trigger] tag[k] != '<',
        gaps.len() == inners.len() + 1,
        forall|i: int| 0 <= i < gaps.len() ==> free_of(#[trigger] gaps[i], "<"@ + tag + ">"@),
        forall|i: int| 0 <= i < inners.len() ==> free_of(#[trigger] inners[i], "</"@ + tag + ">"@),
    ensures
        tagged(assemble_blocks(gaps, inners, "<"@ + tag + ">"@, "</"@ + tag + ">"@), tag) == inners,
{
    reveal_strlit("<");
    reveal_strlit("</");
    reveal_strlit(">");
    let open = "<"@ + tag + ">"@;
    let close = "</"@ + tag + ">"@;
    assert forall|k: int| 0 < k < open.len() implies #[trigger] open[k] != open[0] by {
        if k <= tag.len() {
            assert(open[k] == tag[k - 1]);
        } else {
            assert(open[k] == '>');
        }
    }
    assert forall|k: int| 0 < k < close.len() implies #[trigger] close[k] != close[0] by {
        if k == 1 {
            assert(close[k] == '/');
        } else if k <= tag.len() + 1 {
            assert(close[k] == tag[k - 2]);
        } else {
            assert(close[k] == '>');
        }
    }
    law_tag_blocks_read_back(gaps, inners, open, close);
}

/// The calls read from the first JSON value of each (trimmed) block, in order.
pub open spec fn calls_in_blocks(blocks: Seq<Seq<char>>) -> Seq<CallView>
    decreases blocks.len(),
{
    if blocks.len() == 0 {
        Seq::empty()
    } else {
        match calls_in_first_json(trim(blocks[0])) {
            Some(found) => found + calls_in_blocks(blocks.drop_first()),
            None => calls_in_blocks(blocks.drop_first()),
        }
    }
}

/// Some calls, or none when there are none.
pub open spec fn non_empty(calls: Seq<CallView>) -> Option<Seq<CallView>> {
    if calls.len() > 0 {
        Some(calls)
    } else {
        None
    }
}

/// Every `<tag>JSON</tag>` block read as tool calls.
pub open spec fn tagged_calls(t: Seq<char>, tag: Seq<char>) -> Option<Seq<CallView>> {
    non_empty(calls_in_blocks(tagged(t, tag)))
}

/// The inner text of every `<tag>...</tag>` pair in `text`, as characters.
fn tagged_blocks_in(text: &[char], tag: &str) -> (r: Vec<Vec<char>>)
    ensures
        views(r@) == tagged(text@, tag@),
{
    let lt = to_chars("<");
    let lt_slash = to_chars("</");
    let gt = to_chars(">");
    let tag_chars = to_chars(tag);
    let open = concat(concat(lt.as_slice(), tag_chars.as_slice()).as_slice(), gt.as_slice());
    let close = concat(concat(lt_slash.as_slice(), tag_chars.as_slice()).as_slice(), gt.as_slice());
    proof {
        reveal_strlit("<");
        assert(open@.len() > 0);
    }
    let mut out: Vec<Vec<char>> = Vec::new();
    let mut rest = slice_of(text, 0, text.len());
    assert(rest@ =~= text@);
    loop
        invariant
            open@.len() > 0,
            tagged(text@, tag@) == views(out@) + tag_blocks(rest@, open@, close@),
            open@ == "<"@ + tag@ + ">"@,
            close@ == "</"@ + tag@ + ">"@,
        decreases rest.len(),
    {
        let start = match find_in(rest.as_slice(), open.as_slice()) {
            Some(s) => s,
            None => {
                assert(views(out@) + Seq::<Seq<char>>::empty() =~= views(out@));
                return out;
            },
        };
        proof {
            lemma_find(rest@, open@);
        }
        let after = slice_of(rest.as_slice(), start + open.len(), rest.len());
        assert(after@ =~= rest@.skip((start + open@.len()) as int));
        let end = match find_in(after.as_slice(), close.as_slice()) {
            Some(e) => e,
            None => {
                assert(views(out@) + Seq::<Seq<char>>::empty() =~= views(out@));
                return out;
            },
        };
        proof {
            lemma_find(after@, close@);
        }
        let inner = slice_of(after.as_slice(), 0, end);
        let next = slice_of(after.as_slice(), end + close.len(), after.len());
        assert(next@ =~= after@.skip((end + close@.len()) as int));
        assert(inner@ =~= after@.take(end as int));
        let ghost before = out@;
        out.push(inner);
        assert(views(out@) =~= views(before) + seq![inner@]);
        assert(views(out@) + tag_blocks(next@, open@, close@) =~= views(before) + (seq![inner@]
            + tag_blocks(next@, open@, close@)));
        rest = next;
    }
}

/// The characters of each string.
pub open spec fn string_views(v: Seq<String>) -> Seq<Seq<char>> {
    v.map_values(|b: String| b@)
}

/// Collects the inner text of every `<tag>...</tag>` pair in `text`, left to
/// right; an opening tag without a later closing tag ends the search.
pub fn extract_tagged(text: &str, tag: &str) -> (r: Vec<String>)
    ensures
        string_views(r@) == tagged(text@, tag@),
{
    let chars = to_chars(text);
    let blocks = tagged_blocks_in(chars.as_slice(), tag);
    let ghost bv = views(blocks@);
    let mut out: Vec<String> = Vec::new();
    let mut i: usize = 0;
    while i < blocks.len()
        invariant
            i <= blocks.len(),
            bv == views(blocks@),
            out@.len() == i,
            string_views(out@) == bv.take(i as int),
        decreases blocks.len() - i,
    {
        let ghost before = out@;
        let piece = from_chars(blocks[i].as_slice());
        out.push(piece);
        assert(string_views(out@) =~= bv.take(i + 1)) by {
            assert forall|j: int| 0 <= j < i + 1 implies #[trigger] string_views(out@)[j] == bv.take(i + 1)[j] by {
                if j < i {
                    assert(out@[j] == before[j]);
                    assert(string_views(before)[j] == bv.take(i as int)[j]);
                } else {
                    assert(out@[j] == piece);
                }
            }
        }
        i = i + 1;
    }
    assert(bv.take(blocks.len() as int) =~= bv);
    out
}

/// Reads every `<tag>JSON</tag>` block as tool calls (Qwen, Hermes).
fn parse_tagged(text: &[char], tag: &str) -> (r: Option<Vec<ToolCall>>)
    ensures
        opt_calls(r) == tagged_calls(text@, tag@),
{
    let blocks = tagged_blocks_in(text, tag);
    let ghost bv = views(blocks@);
    let mut calls: Vec<ToolCall> = Vec::new();
    let mut i: usize = 0;
    assert(bv.skip(0) =~= bv);
    while i < blocks.len()
        invariant
            i <= blocks.len(),
            bv == views(blocks@),
            calls_in_blocks(bv) == calls_view(calls@) + calls_in_blocks(bv.skip(i as int)),
        decreases blocks.len() - i,
    {
        assert(bv.skip(i as int).drop_first() =~= bv.skip(i + 1));
        assert(bv.skip(i as int)[0] == blocks@[i as int]@);
        let inner = trim_chars(blocks[i].as_slice());
        match calls_in_first_value(inner.as_slice()) {
            Some(found) => {
                let ghost before = calls@;
                let mut found = found;
                let ghost fv = calls_view(found@);
                calls.append(&mut found);
                assert(calls_view(calls@) =~= calls_view(before) + fv);
                assert(calls_view(calls@) + calls_in_blocks(bv.skip(i + 1)) =~= calls_view(before) + (fv
                    + calls_in_blocks(bv.skip(i + 1))));
            },
            None => {},
        }
        i = i + 1;
    }
    assert(bv.skip(blocks.len() as int) =~= Seq::<Seq<char>>::empty());
    assert(calls_view(calls@) + Seq::<CallView>::empty() =~= calls_view(calls@));
    if calls.len() > 0 {
        Some(calls)
    } else {
        None
    }
}

// ── Qwen-Coder ──────────────────────────────────────────────────────────────

/// `(name, inner)` of each `<function=name>inner</function>` block, left to
/// right; blocks with an empty name are skipped, and an unterminated block
/// ends the search.
pub open spec fn function_blocks(t: Seq<char>) -> Seq<(Seq<char>, Seq<char>)>
    decreases t.len(),
{
    match find(t, "<function="@) {
        None => Seq::empty(),
        Some(start) => if start + "<function="@.len() <= t.len() {
            let after = t.skip((start + "<function="@.len()) as int);
            match find(after, seq!['>']) {
                None => Seq::empty(),
                Some(gt) => if gt + 1 <= after.len() {
                    let name = trim(after.take(gt as int));
                    let body = after.skip((gt + 1) as int);
                    match find(body, "</function>"@) {
                        None => Seq::empty(),
                        Some(end) => if end + "</function>"@.len() <= body.len() {
                            let here = if name.len() > 0 {
                                seq![(name, body.take(end as int))]
                            } else {
                                Seq::empty()
                            };
                            here + function_blocks(body.skip((end + "</function>"@.len()) as int))
                        } else {
                            Seq::empty()
                        },
                    }
                } else {
                    Seq::empty()
                },
            }
        } else {
            Seq::empty()
        },
    }
}

/// A parameter value as JSON: a text that parses stays typed, anything else
/// becomes a string.
pub open spec fn coerce_value(value: Seq<char>) -> Json {
    match parsed_json(value) {
        Some(v) => v,
        None => Json::Str(value),
    }
}

/// Adds the parameter of one `<parameter=` chunk (`key>value[</parameter>]`)
/// to `e`; a chunk without `>` adds nothing.
pub open spec fn add_param(e: Seq<(Seq<char>, Json)>, chunk: Seq<char>) -> Seq<(Seq<char>, Json)> {
    match find(chunk, seq!['>']) {
        Some(p) => if p + 1 <= chunk.len() {
            set_entry(
                e,
                trim(chunk.take(p as int)),
                coerce_value(trim(before(chunk.skip((p + 1) as int), "</parameter>"@))),
            )
        } else {
            e
        },
        None => e,
    }
}

/// The parameters of the chunks, added in order.
pub open spec fn params_from(e: Seq<(Seq<char>, Json)>, chunks: Seq<Seq<char>>) -> Seq<(Seq<char>, Json)>
    decreases chunks.len(),
{
    if chunks.len() == 0 {
        e
    } else {
        params_from(add_param(e, chunks[0]), chunks.drop_first())
    }
}

/// The arguments object of a `<function=...>` block's inner text.
pub open spec fn function_args(inner: Seq<char>) -> Json {
    Json::Object(params_from(Seq::empty(), split(inner, "<parameter="@).skip(1)))
}

/// Qwen-Coder XML: one call per `<function=name>` block.
pub open spec fn qwen_coder_calls(t: Seq<char>) -> Option<Seq<CallView>> {
    let blocks = function_blocks(t);
    if blocks.len() == 0 {
        None
    } else {
        Some(
            Seq::new(
                blocks.len(),
                |i: int| CallView { id: None, name: blocks[i].0, arguments: json_text(function_args(blocks[i].1)) },
            ),
        )
    }
}

/// A text with no `<function=` holds no Qwen-Coder calls.
pub proof fn law_qwen_coder_needs_a_block(t: Seq<char>)
    requires
        free_of(t, "<function="@),
    ensures
        qwen_coder_calls(t) is None,
{
    lemma_find_free(t, "<function="@);
}

/// One call per block, in order: a text that opens with a complete
/// `<function=name>body</function>` block (a name without `>` that is not
/// blank, a body without `</function>`) reads as that block's call, with the
/// trimmed name and the body's parameters as arguments, followed by every
/// call of the rest of the text.
pub proof fn law_qwen_coder_block_then_rest(name: Seq<char>, body: Seq<char>, rest: Seq<char>)
    requires
        forall|k: int| 0 <= k < name.len() ==> #[trigger] name[k] != '>',
        trim(name).len() > 0,
        free_of(body, "</function>"@),
    ensures
        qwen_coder_calls("<function="@ + name + seq!['>'] + body + "</function>"@ + rest) == Some(
            seq![CallView { id: None, name: trim(name), arguments: json_text(function_args(body)) }]
                + match qwen_coder_calls(rest) {
                Some(c) => c,
                None => Seq::empty(),
            },
        ),
{
    reveal_strlit("<function=");
    reveal_strlit("</function>");
    let open = "<function="@;
    let close = "</function>"@;
    let gt = seq!['>'];
    let t = open + name + gt + body + close + rest;
    let after_open = name + (gt + (body + (close + rest)));
    assert(t =~= Seq::<char>::empty() + (open + after_open));
    assert(lead_unique(open));
    assert(lead_unique(close));
    assert(lead_unique(gt));
    assert(free_of(Seq::<char>::empty(), open));
    assert((open + after_open).take(open.len() as int) =~= open);
    lemma_find_after_free(Seq::<char>::empty(), open + after_open, open);
    assert(t.skip(open.len() as int) =~= after_open);
    assert forall|j: int| !matches_at(name, j, gt) by {
        if matches_at(name, j, gt) {
            assert(name.subrange(j, j + 1)[0] == name[j]);
        }
    }
    assert((gt + (body + (close + rest))).take(1) =~= gt);
    lemma_find_after_free(name, gt + (body + (close + rest)), gt);
    assert(after_open.take(name.len() as int) =~= name);
    let after_gt = body + (close + rest);
    assert(after_open.skip((name.len() + 1) as int) =~= after_gt);
    assert((close + rest).take(close.len() as int) =~= close);
    lemma_find_after_free(body, close + rest, close);
    assert(after_gt.take(body.len() as int) =~= body);
    assert(after_gt.skip((body.len() + close.len()) as int) =~= rest);
    let blocks = function_blocks(t);
    assert(blocks =~= seq![(trim(name), body)] + function_blocks(rest));
    let first = CallView { id: None, name: trim(name), arguments: json_text(function_args(body)) };
    let tail = match qwen_coder_calls(rest) {
        Some(c) => c,
        None => Seq::empty(),
    };
    let rb = function_blocks(rest);
    assert(tail =~= Seq::new(
        rb.len(),
        |i: int| CallView { id: None, name: rb[i].0, arguments: json_text(function_args(rb[i].1)) },
    ));
    assert(qwen_coder_calls(t)->0 =~= seq![first] + tail);
}

/// One `<parameter=key>value</parameter>rest` chunk, as it follows
/// `<parameter=` in a block's inner text.
pub open spec fn parameter_chunk(key: Seq<char>, value: Seq<char>, rest: Seq<char>) -> Seq<char> {
    key + seq!['>'] + value + "</parameter>"@ + rest
}

/// A chunk is read as the member `trim(key)` set to the trimmed value, coerced.
proof fn lemma_parameter_chunk(
    e: Seq<(Seq<char>, Json)>,
    key: Seq<char>,
    value: Seq<char>,
    rest: Seq<char>,
)
    requires
        forall|k: int| 0 <= k < key.len() ==> #[trigger] key[k] != '>',
        free_of(value, "</parameter>"@),
    ensures
        add_param(e, parameter_chunk(key, value, rest)) == set_entry(
            e,
            trim(key),
            coerce_value(trim(value)),
        ),
{
    reveal_strlit("</parameter>");
    let gt = seq!['>'];
    let close = "</parameter>"@;
    let chunk = parameter_chunk(key, value, rest);
    assert(chunk =~= key + (gt + (value + (close + rest))));
    assert(lead_unique(gt));
    assert(lead_unique(close));
    assert forall|j: int| !matches_at(key, j, gt) by {
        if matches_at(key, j, gt) {
            assert(key.subrange(j, j + 1)[0] == key[j]);
        }
    }
    assert((gt + (value + (close + rest))).take(1) =~= gt);
    lemma_find_after_free(key, gt + (value + (close + rest)), gt);
    assert(chunk.take(key.len() as int) =~= key);
    assert(chunk.skip((key.len() + 1) as int) =~= value + (close + rest));
    assert((close + rest).take(close.len() as int) =~= close);
    lemma_find_after_free(value, close + rest, close);
    assert((value + (close + rest)).take(value.len() as int) =~= value);
}

/// Parameters are read whole and in order: in a block's inner text holding
/// two parameter chunks after a preamble, each parameter becomes the member
/// named by its trimmed key, holding its trimmed value coerced to JSON; when
/// both keys are the same, the later value wins.
pub proof fn law_qwen_coder_parameters(
    pre: Seq<char>,
    k1: Seq<char>,
    v1: Seq<char>,
    g1: Seq<char>,
    k2: Seq<char>,
    v2: Seq<char>,
    g2: Seq<char>,
)
    requires
        free_of(pre, "<parameter="@),
        free_of(parameter_chunk(k1, v1, g1), "<parameter="@),
        free_of(parameter_chunk(k2, v2, g2), "<parameter="@),
        forall|k: int| 0 <= k < k1.len() ==> #[trigger] k1[k] != '>',
        forall|k: int| 0 <= k < k2.len() ==> #[trigger] k2[k] != '>',
        free_of(v1, "</parameter>"@),
        free_of(v2, "</parameter>"@),
    ensures
        json_get(
            function_args(
                pre + "<parameter="@ + parameter_chunk(k1, v1, g1) + "<parameter="@ + parameter_chunk(
                    k2,
                    v2,
                    g2,
                ),
            ),
            trim(k2),
        ) == Some(coerce_value(trim(v2))),
        trim(k1) != trim(k2) ==> json_get(
            function_args(
                pre + "<parameter="@ + parameter_chunk(k1, v1, g1) + "<parameter="@ + parameter_chunk(
                    k2,
                    v2,
                    g2,
                ),
            ),
            trim(k1),
        ) == Some(coerce_value(trim(v1))),
{
    reveal_strlit("<parameter=");
    let p = "<parameter="@;
    let c1 = parameter_chunk(k1, v1, g1);
    let c2 = parameter_chunk(k2, v2, g2);
    let body = pre + p + c1 + p + c2;
    assert(lead_unique(p));
    assert(body =~= pre + (p + (c1 + (p + c2))));
    lemma_split_after_free(pre, c1 + (p + c2), p);
    lemma_split_after_free(c1, c2, p);
    lemma_split_free(c2, p);
    let pieces = split(body, p);
    assert(pieces =~= seq![pre, c1, c2]);
    assert(pieces.skip(1) =~= seq![c1, c2]);
    assert(seq![c1, c2].drop_first() =~= seq![c2]);
    assert(seq![c2].drop_first() =~= Seq::<Seq<char>>::empty());
    let e0 = Seq::<(Seq<char>, Json)>::empty();
    lemma_parameter_chunk(e0, k1, v1, g1);
    let e1 = add_param(e0, c1);
    lemma_parameter_chunk(e1, k2, v2, g2);
    let e2 = add_param(e1, c2);
    assert(params_from(e0, seq![c1, c2]) == params_from(e1, seq![c2]));
    assert(params_from(e1, seq![c2]) == params_from(e2, Seq::<Seq<char>>::empty()));
    assert(function_args(body) == Json::Object(e2));
    lemma_set_entry(e1, trim(k2), coerce_value(trim(v2)), trim(k1));
    lemma_set_entry(e0, trim(k1), coerce_value(trim(v1)), trim(k1));
}

pub open spec fn pair_views(v: Seq<(Vec<char>, Vec<char>)>) -> Seq<(Seq<char>, Seq<char>)> {
    v.map_values(|p: (Vec<char>, Vec<char>)| (p.0@, p.1@))
}

/// Collects `(name, inner)` for each `<function=name>...</function>` block.
fn extract_function_blocks(text: &[char]) -> (r: Vec<(Vec<char>, Vec<char>)>)
    ensures
        pair_views(r@) == function_blocks(text@),
{
    let open = to_chars("<function=");
    let close = to_chars("</function>");
    let mut out: Vec<(Vec<char>, Vec<char>)> = Vec::new();
    let mut rest = slice_of(text, 0, text.len());
    assert(rest@ =~= text@);
    assert(pair_views(out@) =~= Seq::<(Seq<char>, Seq<char>)>::empty());
    loop
        invariant
            open@ == "<function="@,
            close@ == "</function>"@,
            function_blocks(text@) == pair_views(out@) + function_blocks(rest@),
        decreases rest.len(),
    {
        let ghost done = pair_views(out@);
        let start = match find_in(rest.as_slice(), open.as_slice()) {
            Some(s) => s,
            None => {
                assert(done + Seq::<(Seq<char>, Seq<char>)>::empty() =~= done);
                return out;
            },
        };
        proof {
            lemma_find(rest@, open@);
        }
        let after = slice_of(rest.as_slice(), start + open.len(), rest.len());
        assert(after@ =~= rest@.skip((start + open@.len()) as int));
        let gt = match find_char(after.as_slice(), '>') {
            Some(g) => g,
            None => {
                assert(done + Seq::<(Seq<char>, Seq<char>)>::empty() =~= done);
                return out;
            },
        };
        proof {
            lemma_find(after@, seq!['>']);
        }
        let raw_name = slice_of(after.as_slice(), 0, gt);
        assert(raw_name@ =~= after@.take(gt as int));
        let name = trim_chars(raw_name.as_slice());
        let body = slice_of(after.as_slice(), gt + 1, after.len());
        assert(body@ =~= after@.skip(gt + 1));
        let end = match find_in(body.as_slice(), close.as_slice()) {
            Some(e) => e,
            None => {
                assert(done + Seq::<(Seq<char>, Seq<char>)>::empty() =~= done);
                return out;
            },
        };
        proof {
            lemma_find(body@, close@);
        }
        let inner = slice_of(body.as_slice(), 0, end);
        assert(inner@ =~= body@.take(end as int));
        let next = slice_of(body.as_slice(), end + close.len(), body.len());
        assert(next@ =~= body@.skip((end + close@.len()) as int));
        if name.len() > 0 {
            let ghost nv = name@;
            let ghost iv = inner@;
            out.push((name, inner));
            assert(pair_views(out@) =~= done + seq![(nv, iv)]);
            assert(pair_views(out@) + function_blocks(next@) =~= done + (seq![(nv, iv)] + function_blocks(next@)));
        } else {
            assert(done + function_blocks(next@) =~= done + (Seq::<(Seq<char>, Seq<char>)>::empty() + function_blocks(next@)));
        }
        rest = next;
    }
}

/// A parameter value as JSON: a parseable value stays typed, anything else
/// becomes a string.
fn coerce_param(value: &[char]) -> (r: JsonValue)
    ensures
        r@ == coerce_value(value@),
{
    match parse_chars(value) {
        Some(v) => v,
        None => JsonValue::Str(from_chars(value)),
    }
}

/// The arguments object of a `<function=...>` block's inner text.
fn function_arguments(inner: &[char]) -> (r: JsonValue)
    ensures
        r@ == function_args(inner@),
{
    let marker = to_chars("<parameter=");
    let end_marker = to_chars("</parameter>");
    proof {
        reveal_strlit("<parameter=");
        assert(marker@.len() > 0);
    }
    let chunks = split_chars(inner, marker.as_slice());
    let ghost cv = views(chunks@);
    let mut e: Vec<(String, JsonValue)> = Vec::new();
    assert(crate::json::entries_view(e@) =~= Seq::<(Seq<char>, Json)>::empty());
    let mut i: usize = 1;
    proof {
        reveal_with_fuel(split, 2);
        crate::text::lemma_find(inner@, marker@);
    }
    assert(cv.len() >= 1);
    assert(cv.skip(1).skip(0) =~= cv.skip(1));
    while i < chunks.len()
        invariant
            1 <= i <= chunks.len(),
            cv == views(chunks@),
            cv.len() >= 1,
            end_marker@ == "</parameter>"@,
            params_from(Seq::empty(), cv.skip(1)) == params_from(
                crate::json::entries_view(e@),
                cv.skip(i as int),
            ),
        decreases chunks.len() - i,
    {
        let chunk = &chunks[i];
        assert(cv.skip(i as int)[0] == chunk@);
        assert(cv.skip(i as int).drop_first() =~= cv.skip(i + 1));
        let ghost ev = crate::json::entries_view(e@);
        match find_char(chunk.as_slice(), '>') {
            Some(p) => {
                proof {
                    lemma_find(chunk@, seq!['>']);
                }
                assert(p + 1 <= chunk@.len());
                assert(chunk.len() == chunk@.len());
                let raw_key = slice_of(chunk.as_slice(), 0, p);
                assert(raw_key@ =~= chunk@.take(p as int));
                let key = trim_chars(raw_key.as_slice());
                let after = slice_of(chunk.as_slice(), p + 1, chunk.len());
                assert(after@ =~= chunk@.skip(p + 1));
                let raw_value = before_chars(after.as_slice(), end_marker.as_slice());
                let value = trim_chars(raw_value.as_slice());
                let key_string = from_chars(key.as_slice());
                set_member(&mut e, key_string.as_str(), coerce_param(value.as_slice()));
            },
            None => {},
        }
        i = i + 1;
    }
    assert(cv.skip(chunks.len() as int) =~= Seq::<Seq<char>>::empty());
    JsonValue::Object(e)
}

fn qwen_coder_parse(text: &[char]) -> (r: Option<Vec<ToolCall>>)
    ensures
        opt_calls(r) == qwen_coder_calls(text@),
{
    let blocks = extract_function_blocks(text);
    let ghost bv = pair_views(blocks@);
    let mut calls: Vec<ToolCall> = Vec::new();
    let mut i: usize = 0;
    while i < blocks.len()
        invariant
            i <= blocks.len(),
            bv == pair_views(blocks@),
            calls@.len() == i,
            forall|j: int| 0 <= j < i ==> #[trigger] calls@[j]@ == (CallView {
                id: None,
                name: bv[j].0,
                arguments: json_text(function_args(bv[j].1)),
            }),
        decreases blocks.len() - i,
    {
        let args = function_arguments(blocks[i].1.as_slice());
        calls.push(ToolCall { id: None, name: from_chars(blocks[i].0.as_slice()), arguments: args.to_text() });
        i = i + 1;
    }
    if calls.len() > 0 {
        assert(calls_view(calls@) =~= qwen_coder_calls(text@)->0);
        Some(calls)
    } else {
        None
    }
}

// ── Llama ───────────────────────────────────────────────────────────────────

/// Llama 3.x: `<|python_tag|>` followed by a JSON call, cut at the next
/// special token (`<|...`).
pub open spec fn llama_calls(t: Seq<char>) -> Option<Seq<CallView>> {
    match find(t, "<|python_tag|>"@) {
        None => None,
        Some(idx) => calls_in_first_json(
            trim(before(t.skip((idx + "<|python_tag|>"@.len()) as int), "<|"@)),
        ),
    }
}

fn llama_parse(text: &[char]) -> (r: Option<Vec<ToolCall>>)
    ensures
        opt_calls(r) == llama_calls(text@),
{
    let tag = to_chars("<|python_tag|>");
    let special = to_chars("<|");
    let idx = match find_in(text, tag.as_slice()) {
        Some(i) => i,
        None => {
            return None;
        },
    };
    proof {
        lemma_find(text@, tag@);
    }
    assert(idx + tag@.len() <= text@.len());
    assert(tag.len() == tag@.len());
    assert(text.len() == text@.len());
    let rest = slice_of(text, idx + tag.len(), text.len());
    assert(rest@ =~= text@.skip((idx + tag@.len()) as int));
    let cut = before_chars(rest.as_slice(), special.as_slice());
    let json_part = trim_chars(cut.as_slice());
    calls_in_first_value(json_part.as_slice())
}

// ── Fenced code blocks ──────────────────────────────────────────────────────

/// Every character is an ASCII letter or digit.
pub open spec fn all_ascii_alnum(s: Seq<char>) -> bool {
    forall|i: int| 0 <= i < s.len() ==> ascii_alnum(#[trigger] s[i])
}

/// The body of a fenced segment: without its first line when that line,
/// trimmed, is a non-empty language tag of ASCII letters and digits.
pub open spec fn fence_body(seg: Seq<char>) -> Seq<char> {
    match find(seg, seq!['\n']) {
        Some(nl) => {
            let first = trim(seg.take(nl as int));
            if first.len() > 0 && all_ascii_alnum(first) {
                seg.skip((nl + 1) as int)
            } else {
                seg
            }
        },
        None => seg,
    }
}

/// The body of each ``` fenced block: the odd-numbered pieces of the text
/// split on ```.
pub open spec fn fenced(t: Seq<char>) -> Seq<Seq<char>> {
    let parts = split(t, "```"@);
    Seq::new(parts.len() / 2, |k: int| fence_body(parts[2 * k + 1]))
}

/// The calls of the first block whose first JSON value is call-shaped.
pub open spec fn first_block_calls(blocks: Seq<Seq<char>>) -> Option<Seq<CallView>>
    decreases blocks.len(),
{
    if blocks.len() == 0 {
        None
    } else {
        match calls_in_first_json(trim(blocks[0])) {
            Some(calls) => Some(calls),
            None => first_block_calls(blocks.drop_first()),
        }
    }
}

/// A fenced code block containing tool-call JSON.
pub open spec fn fenced_calls(t: Seq<char>) -> Option<Seq<CallView>> {
    first_block_calls(fenced(t))
}

fn all_ascii_alphanumeric(s: &[char]) -> (r: bool)
    ensures
        r == all_ascii_alnum(s@),
{
    let mut i: usize = 0;
    while i < s.len()
        invariant
            i <= s.len(),
            forall|j: int| 0 <= j < i ==> ascii_alnum(#[trigger] s@[j]),
        decreases s.len() - i,
    {
        if !is_ascii_alphanumeric(s[i]) {
            return false;
        }
        i = i + 1;
    }
    true
}

/// Returns the body of each ``` fenced block, stripping an optional language
/// tag line.
fn fenced_blocks(text: &[char]) -> (r: Vec<Vec<char>>)
    ensures
        views(r@) == fenced(text@),
{
    let fence = to_chars("```");
    proof {
        reveal_strlit("```");
        assert(fence@.len() > 0);
    }
    let parts = split_chars(text, fence.as_slice());
    let ghost pv = views(parts@);
    let mut blocks: Vec<Vec<char>> = Vec::new();
    let mut i: usize = 1;
    while i < parts.len()
        invariant
            pv == views(parts@),
            pv == split(text@, "```"@),
            i % 2 == 1,
            blocks@.len() == (i - 1) / 2,
            i <= parts.len() + 1,
            forall|k: int| 0 <= k < blocks@.len() ==> #[trigger] blocks@[k]@ == fence_body(pv[2 * k + 1]),
        decreases parts.len() + 1 - i,
    {
        let seg = &parts[i];
        assert(seg@ == pv[i as int]);
        let body = match find_char(seg.as_slice(), '\n') {
            Some(nl) => {
                proof {
                    lemma_find(seg@, seq!['\n']);
                }
                assert(nl + 1 <= seg@.len());
                assert(seg.len() == seg@.len());
                let head = slice_of(seg.as_slice(), 0, nl);
                assert(head@ =~= seg@.take(nl as int));
                let first = trim_chars(head.as_slice());
                if first.len() > 0 && all_ascii_alphanumeric(first.as_slice()) {
                    let b = slice_of(seg.as_slice(), nl + 1, seg.len());
                    assert(b@ =~= seg@.skip(nl + 1));
                    b
                } else {
                    slice_of(seg.as_slice(), 0, seg.len())
                }
            },
            None => slice_of(seg.as_slice(), 0, seg.len()),
        };
        assert(body@ =~= fence_body(pv[i as int]));
        blocks.push(body);
        i = i + 2;
    }
    assert(views(blocks@) =~= fenced(text@));
    blocks
}

fn fenced_parse(text: &[char]) -> (r: Option<Vec<ToolCall>>)
    ensures
        opt_calls(r) == fenced_calls(text@),
{
    let blocks = fenced_blocks(text);
    let ghost bv = views(blocks@);
    let mut i: usize = 0;
    assert(bv.skip(0) =~= bv);
    while i < blocks.len()
        invariant
            i <= blocks.len(),
            bv == views(blocks@),
            bv == fenced(text@),
            first_block_calls(bv) == first_block_calls(bv.skip(i as int)),
        decreases blocks.len() - i,
    {
        assert(bv.skip(i as int)[0] == blocks@[i as int]@);
        assert(bv.skip(i as int).drop_first() =~= bv.skip(i + 1));
        let inner = trim_chars(blocks[i].as_slice());
        if let Some(calls) = calls_in_first_value(inner.as_slice()) {
            return Some(calls);
        }
        i = i + 1;
    }
    None
}

// ── Bare JSON ───────────────────────────────────────────────────────────────

/// The entire (trimmed) text starts with a tool-call JSON value.
pub open spec fn bare_calls(t: Seq<char>) -> Option<Seq<CallView>> {
    calls_in_first_json(trim(t))
}

fn bare_parse(text: &[char]) -> (r: Option<Vec<ToolCall>>)
    ensures
        opt_calls(r) == bare_calls(text@),
{
    let t = trim_chars(text);
    calls_in_first_value(t.as_slice())
}

// ── Parsers ─────────────────────────────────────────────────────────────────

/// A format-specific recogniser for tool calls embedded in model text.
/// Parsers are cheap to try and return `None` when the text is not in their
/// format.
pub trait RescueParser: Send + Sync {
    /// The parser's stable identifier.
    spec fn spec_name(&self) -> Seq<char>;

    /// The calls the parser reads from a text, if the text is in its format.
    spec fn spec_parse(&self, text: Seq<char>) -> Option<Seq<CallView>>;

    /// Stable identifier, used in logs to record which parser fired.
    fn name(&self) -> (r: &'static str)
        ensures
            r@ == self.spec_name(),
    ;

    /// Attempts to extract tool calls from `text`.
    fn try_parse(&self, text: &str) -> (r: Option<Vec<ToolCall>>)
        ensures
            opt_calls(r) == self.spec_parse(text@),
    ;
}

/// Mistral: `[TOOL_CALLS]` followed by a JSON list/object, or the flatter
/// `[TOOL_CALLS]name{args}` form.
pub struct Mistral;

/// Rehearsal syntax used by some reasoning models: `name[ARGS]{...}`.
pub struct Rehearsal;

/// Qwen-Coder XML: `<function=name><parameter=key>value</parameter>...</function>`.
pub struct QwenCoder;

/// Qwen: one or more `<tool_call>{...}</tool_call>` blocks.
pub struct Qwen;

/// Hermes (legacy): `<function_call>{...}</function_call>` blocks.
pub struct Hermes;

/// Llama 3.x: `<|python_tag|>` followed by a JSON call.
pub struct Llama;

/// A fenced code block (```json ... ``` or bare ``` ... ```) holding tool-call
/// JSON.
pub struct FencedJson;

/// The entire text is a tool-call JSON value. Most permissive; tried last.
pub struct BareJson;

impl RescueParser for Mistral {
    open spec fn spec_name(&self) -> Seq<char> {
        "mistral"@
    }

    open spec fn spec_parse(&self, text: Seq<char>) -> Option<Seq<CallView>> {
        mistral_calls(text)
    }

    fn name(&self) -> (r: &'static str) {
        "mistral"
    }

    fn try_parse(&self, text: &str) -> (r: Option<Vec<ToolCall>>) {
        let t = to_chars(text);
        mistral_parse(t.as_slice())
    }
}

impl RescueParser for Rehearsal {
    open spec fn spec_name(&self) -> Seq<char> {
        "rehearsal"@
    }

    open spec fn spec_parse(&self, text: Seq<char>) -> Option<Seq<CallView>> {
        rehearsal_calls(text)
    }

    fn name(&self) -> (r: &'static str) {
        "rehearsal"
    }

    fn try_parse(&self, text: &str) -> (r: Option<Vec<ToolCall>>) {
        let t = to_chars(text);
        rehearsal_parse(t.as_slice())
    }
}

impl RescueParser for QwenCoder {
    open spec fn spec_name(&self) -> Seq<char> {
        "qwen_coder"@
    }

    open spec fn spec_parse(&self, text: Seq<char>) -> Option<Seq<CallView>> {
        qwen_coder_calls(text)
    }

    fn name(&self) -> (r: &'static str) {
        "qwen_coder"
    }

    fn try_parse(&self, text: &str) -> (r: Option<Vec<ToolCall>>) {
        let t = to_chars(text);
        qwen_coder_parse(t.as_slice())
    }
}

impl RescueParser for Qwen {
    open spec fn spec_name(&self) -> Seq<char> {
        "qwen"@
    }

    open spec fn spec_parse(&self, text: Seq<char>) -> Option<Seq<CallView>> {
        tagged_calls(text, "tool_call"@)
    }

    fn name(&self) -> (r: &'static str) {
        "qwen"
    }

    fn try_parse(&self, text: &str) -> (r: Option<Vec<ToolCall>>) {
        let t = to_chars(text);
        parse_tagged(t.as_slice(), "tool_call")
    }
}

impl RescueParser for Hermes {
    open spec fn spec_name(&self) -> Seq<char> {
        "hermes"@
    }

    open spec fn spec_parse(&self, text: Seq<char>) -> Option<Seq<CallView>> {
        tagged_calls(text, "function_call"@)
    }

    fn name(&self) -> (r: &'static str) {
        "hermes"
    }

    fn try_parse(&self, text: &str) -> (r: Option<Vec<ToolCall>>) {
        let t = to_chars(text);
        parse_tagged(t.as_slice(), "function_call")
    }
}

impl RescueParser for Llama {
    open spec fn spec_name(&self) -> Seq<char> {
        "llama"@
    }

    open spec fn spec_parse(&self, text: Seq<char>) -> Option<Seq<CallView>> {
        llama_calls(text)
    }

    fn name(&self) -> (r: &'static str) {
        "llama"
    }

    fn try_parse(&self, text: &str) -> (r: Option<Vec<ToolCall>>) {
        let t = to_chars(text);
        llama_parse(t.as_slice())
    }
}

impl RescueParser for FencedJson {
    open spec fn spec_name(&self) -> Seq<char> {
        "fenced_json"@
    }

    open spec fn spec_parse(&self, text: Seq<char>) -> Option<Seq<CallView>> {
        fenced_calls(text)
    }

    fn name(&self) -> (r: &'static str) {
        "fenced_json"
    }

    fn try_parse(&self, text: &str) -> (r: Option<Vec<ToolCall>>) {
        let t = to_chars(text);
        fenced_parse(t.as_slice())
    }
}

impl RescueParser for BareJson {
    open spec fn spec_name(&self) -> Seq<char> {
        "bare_json"@
    }

    open spec fn spec_parse(&self, text: Seq<char>) -> Option<Seq<CallView>> {
        bare_calls(text)
    }

    fn name(&self) -> (r: &'static str) {
        "bare_json"
    }

    fn try_parse(&self, text: &str) -> (r: Option<Vec<ToolCall>>) {
        let t = to_chars(text);
        bare_parse(t.as_slice())
    }
}

/// One of the built-in parsers.
pub enum AnyParser {
    Mistral(Mistral),
    Rehearsal(Rehearsal),
    QwenCoder(QwenCoder),
    Qwen(Qwen),
    Hermes(Hermes),
    Llama(Llama),
    FencedJson(FencedJson),
    BareJson(BareJson),
}

impl RescueParser for AnyParser {
    open spec fn spec_name(&self) -> Seq<char> {
        match self {
            AnyParser::Mistral(p) => p.spec_name(),
            AnyParser::Rehearsal(p) => p.spec_name(),
            AnyParser::QwenCoder(p) => p.spec_name(),
            AnyParser::Qwen(p) => p.spec_name(),
            AnyParser::Hermes(p) => p.spec_name(),
            AnyParser::Llama(p) => p.spec_name(),
            AnyParser::FencedJson(p) => p.spec_name(),
            AnyParser::BareJson(p) => p.spec_name(),
        }
    }

    open spec fn spec_parse(&self, text: Seq<char>) -> Option<Seq<CallView>> {
        match self {
            AnyParser::Mistral(p) => p.spec_parse(text),
            AnyParser::Rehearsal(p) => p.spec_parse(text),
            AnyParser::QwenCoder(p) => p.spec_parse(text),
            AnyParser::Qwen(p) => p.spec_parse(text),
            AnyParser::Hermes(p) => p.spec_parse(text),
            AnyParser::Llama(p) => p.spec_parse(text),
            AnyParser::FencedJson(p) => p.spec_parse(text),
            AnyParser::BareJson(p) => p.spec_parse(text),
        }
    }

    fn name(&self) -> (r: &'static str) {
        match self {
            AnyParser::Mistral(p) => p.name(),
            AnyParser::Rehearsal(p) => p.name(),
            AnyParser::QwenCoder(p) => p.name(),
            AnyParser::Qwen(p) => p.name(),
            AnyParser::Hermes(p) => p.name(),
            AnyParser::Llama(p) => p.name(),
            AnyParser::FencedJson(p) => p.name(),
            AnyParser::BareJson(p) => p.name(),
        }
    }

    fn try_parse(&self, text: &str) -> (r: Option<Vec<ToolCall>>) {
        match self {
            AnyParser::Mistral(p) => p.try_parse(text),
            AnyParser::Rehearsal(p) => p.try_parse(text),
            AnyParser::QwenCoder(p) => p.try_parse(text),
            AnyParser::Qwen(p) => p.try_parse(text),
            AnyParser::Hermes(p) => p.try_parse(text),
            AnyParser::Llama(p) => p.try_parse(text),
            AnyParser::FencedJson(p) => p.try_parse(text),
            AnyParser::BareJson(p) => p.try_parse(text),
        }
    }
}

/// The order in which the parsers are tried: distinctive delimiters first,
/// the permissive bare JSON last.
pub open spec fn default_order() -> Seq<AnyParser> {
    seq![
        AnyParser::Mistral(Mistral),
        AnyParser::Rehearsal(Rehearsal),
        AnyParser::QwenCoder(QwenCoder),
        AnyParser::Qwen(Qwen),
        AnyParser::Hermes(Hermes),
        AnyParser::Llama(Llama),
        AnyParser::FencedJson(FencedJson),
        AnyParser::BareJson(BareJson),
    ]
}

/// The parsers tried, in order.
pub fn default_parsers() -> (r: Vec<AnyParser>)
    ensures
        r@ == default_order(),
{
    let mut v: Vec<AnyParser> = Vec::new();
    v.push(AnyParser::Mistral(Mistral));
    v.push(AnyParser::Rehearsal(Rehearsal));
    v.push(AnyParser::QwenCoder(QwenCoder));
    v.push(AnyParser::Qwen(Qwen));
    v.push(AnyParser::Hermes(Hermes));
    v.push(AnyParser::Llama(Llama));
    v.push(AnyParser::FencedJson(FencedJson));
    v.push(AnyParser::BareJson(BareJson));
    assert(v@ =~= default_order());
    v
}

/// The name and calls of the first parser in `ps` that reads `t`.
pub open spec fn first_match(ps: Seq<AnyParser>, t: Seq<char>) -> Option<(Seq<char>, Seq<CallView>)>
    decreases ps.len(),
{
    if ps.len() == 0 {
        None
    } else {
        match ps[0].spec_parse(t) {
            Some(calls) => Some((ps[0].spec_name(), calls)),
            None => first_match(ps.drop_first(), t),
        }
    }
}

/// Tries every parser of [`default_parsers`] in order and returns the first
/// match, with the parser's name.
pub fn rescue(text: &str) -> (r: Option<(&'static str, Vec<ToolCall>)>)
    ensures
        match r {
            Some((n, calls)) => first_match(default_order(), text@) == Some((n@, calls_view(calls@))),
            None => first_match(default_order(), text@) is None,
        },
        r matches Some((_, calls)) ==> rescued_batch(calls_view(calls@)),
{
    proof {
        law_rescued_batch(default_order(), text@);
    }
    let parsers = default_parsers();
    let ghost ps = parsers@;
    let mut i: usize = 0;
    assert(ps.skip(0) =~= ps);
    while i < parsers.len()
        invariant
            i <= parsers.len(),
            ps == parsers@,
            ps == default_order(),
            first_match(ps, text@) == first_match(ps.skip(i as int), text@),
            first_match(ps, text@) matches Some((_, c)) ==> rescued_batch(c),
        decreases parsers.len() - i,
    {
        let parser = &parsers[i];
        assert(ps.skip(i as int)[0] == *parser);
        assert(ps.skip(i as int).drop_first() =~= ps.skip(i + 1));
        if let Some(calls) = parser.try_parse(text) {
            return Some((parser.name(), calls));
        }
        i = i + 1;
    }
    None
}

/// Rescue tries the formats in a fixed order and takes the first that reads
/// the text: Mistral, rehearsal, Qwen-Coder, Qwen, Hermes, Llama, fenced JSON,
/// bare JSON.
pub proof fn law_rescue_order(t: Seq<char>)
    ensures
        first_match(default_order(), t) == (if let Some(c) = mistral_calls(t) {
            Some(("mistral"@, c))
        } else if let Some(c) = rehearsal_calls(t) {
            Some(("rehearsal"@, c))
        } else if let Some(c) = qwen_coder_calls(t) {
            Some(("qwen_coder"@, c))
        } else if let Some(c) = tagged_calls(t, "tool_call"@) {
            Some(("qwen"@, c))
        } else if let Some(c) = tagged_calls(t, "function_call"@) {
            Some(("hermes"@, c))
        } else if let Some(c) = llama_calls(t) {
            Some(("llama"@, c))
        } else if let Some(c) = fenced_calls(t) {
            Some(("fenced_json"@, c))
        } else if let Some(c) = bare_calls(t) {
            Some(("bare_json"@, c))
        } else {
            None
        }),
{
    reveal_with_fuel(first_match, 9);
}

// ── The shape of a rescued batch ────────────────────────────────────────────

/// A rescued call's name: non-empty and trimmed.
pub open spec fn plain_name(n: Seq<char>) -> bool {
    n.len() > 0 && trim(n) == n
}

/// A rescued call: no id (one is minted on re-emit) and a plain name.
pub open spec fn rescued_call(c: CallView) -> bool {
    c.id is None && plain_name(c.name)
}

/// Every call of `calls` is a rescued call.
pub open spec fn all_rescued(calls: Seq<CallView>) -> bool {
    forall|i: int| 0 <= i < calls.len() ==> rescued_call(#[trigger] calls[i])
}

/// A rescued batch: at least one call, each a rescued call.
pub open spec fn rescued_batch(calls: Seq<CallView>) -> bool {
    calls.len() > 0 && all_rescued(calls)
}

proof fn lemma_all_rescued_add(a: Seq<CallView>, b: Seq<CallView>)
    requires
        all_rescued(a),
        all_rescued(b),
    ensures
        all_rescued(a + b),
{
    assert forall|i: int| 0 <= i < (a + b).len() implies rescued_call(#[trigger] (a + b)[i]) by {
        if i < a.len() {
            assert((a + b)[i] == a[i]);
        } else {
            assert((a + b)[i] == b[i - a.len()]);
        }
    }
}

proof fn lemma_call_from_json(v: Json)
    ensures
        call_from_json(v) matches Some(c) ==> rescued_call(c),
{
    if v is Object {
        let name = match json_get(v, "function"@) {
            Some(Json::Object(fe)) => json_get(Json::Object(fe), "name"@),
            _ => or_else(json_get(v, "name"@), json_get(v, "tool"@)),
        };
        if let Some(n) = opt_str(name) {
            crate::text::lemma_trim_idempotent(n);
        }
    }
}

proof fn lemma_calls_from_items(items: Seq<Json>)
    ensures
        all_rescued(calls_from_items(items)),
    decreases items.len(),
{
    if items.len() > 0 {
        lemma_calls_from_items(items.drop_first());
        lemma_call_from_json(items[0]);
        if let Some(c) = call_from_json(items[0]) {
            lemma_all_rescued_add(seq![c], calls_from_items(items.drop_first()));
        }
    }
}

proof fn lemma_calls_from_json(v: Json)
    ensures
        calls_from_json(v) matches Some(c) ==> rescued_batch(c),
    decreases v,
{
    match v {
        Json::Array(items) => {
            lemma_calls_from_items(items);
        },
        Json::Object(e) => {
            match lookup_index(e, "tool_calls"@) {
                Some(i) => {
                    if i < e.len() {
                        lemma_calls_from_json(e[i as int].1);
                    }
                },
                None => {
                    lemma_call_from_json(v);
                },
            }
        },
        _ => {},
    }
}

proof fn lemma_calls_in_first_json(s: Seq<char>)
    ensures
        calls_in_first_json(s) matches Some(c) ==> rescued_batch(c),
{
    if let Some(v) = first_json(s) {
        lemma_calls_from_json(v);
    }
}

proof fn lemma_calls_in_blocks(blocks: Seq<Seq<char>>)
    ensures
        all_rescued(calls_in_blocks(blocks)),
    decreases blocks.len(),
{
    if blocks.len() > 0 {
        lemma_calls_in_blocks(blocks.drop_first());
        lemma_calls_in_first_json(trim(blocks[0]));
        if let Some(found) = calls_in_first_json(trim(blocks[0])) {
            lemma_all_rescued_add(found, calls_in_blocks(blocks.drop_first()));
        }
    }
}

proof fn lemma_first_block_calls(blocks: Seq<Seq<char>>)
    ensures
        first_block_calls(blocks) matches Some(c) ==> rescued_batch(c),
    decreases blocks.len(),
{
    if blocks.len() > 0 {
        lemma_calls_in_first_json(trim(blocks[0]));
        lemma_first_block_calls(blocks.drop_first());
    }
}

proof fn lemma_function_blocks(t: Seq<char>)
    ensures
        forall|i: int|
            0 <= i < function_blocks(t).len() ==> (#[trigger] function_blocks(t)[i]).0.len() > 0
                && trim(function_blocks(t)[i].0) == function_blocks(t)[i].0,
    decreases t.len(),
{
    match find(t, "<function="@) {
        None => {},
        Some(start) => if start + "<function="@.len() <= t.len() {
            let after = t.skip((start + "<function="@.len()) as int);
            match find(after, seq!['>']) {
                None => {},
                Some(gt) => if gt + 1 <= after.len() {
                    let name = trim(after.take(gt as int));
                    let body = after.skip((gt + 1) as int);
                    match find(body, "</function>"@) {
                        None => {},
                        Some(end) => if end + "</function>"@.len() <= body.len() {
                            let rest = body.skip((end + "</function>"@.len()) as int);
                            lemma_function_blocks(rest);
                            crate::text::lemma_trim_idempotent(after.take(gt as int));
                            let here = if name.len() > 0 {
                                seq![(name, body.take(end as int))]
                            } else {
                                Seq::empty()
                            };
                            let all = function_blocks(t);
                            assert(all == here + function_blocks(rest));
                            assert forall|i: int| 0 <= i < all.len() implies (#[trigger] all[i]).0.len() > 0
                                && trim(all[i].0) == all[i].0 by {
                                if i < here.len() {
                                    assert(all[i] == here[i]);
                                } else {
                                    assert(all[i] == function_blocks(rest)[i - here.len()]);
                                }
                            }
                        },
                    }
                },
            }
        },
    }
}

proof fn lemma_ident_suffix(s: Seq<char>)
    ensures
        forall|i: int| 0 <= i < ident_suffix(s).len() ==> ident_char(#[trigger] ident_suffix(s)[i]),
    decreases s.len(),
{
    if s.len() > 0 && ident_char(s.last()) {
        lemma_ident_suffix(s.drop_last());
        let prev = ident_suffix(s.drop_last());
        assert forall|i: int| 0 <= i < ident_suffix(s).len() implies ident_char(
            #[trigger] ident_suffix(s)[i],
        ) by {
            if i < prev.len() {
                assert(ident_suffix(s)[i] == prev[i]);
            } else {
                assert(ident_suffix(s)[i] == s.last());
            }
        }
    }
}

proof fn lemma_single_rescued(c: CallView)
    requires
        rescued_call(c),
    ensures
        rescued_batch(seq![c]),
{
    assert(seq![c][0] == c);
}

/// Every built-in parser reads a rescued batch: at least one call, none with
/// an id, every name non-empty and trimmed.
pub proof fn law_parser_reads_rescued_batch(p: AnyParser, t: Seq<char>)
    ensures
        p.spec_parse(t) matches Some(c) ==> rescued_batch(c),
{
    match p {
        AnyParser::Mistral(_) => {
            if let Some(idx) = find(t, "[TOOL_CALLS]"@) {
                let rest = trim_start(t.skip((idx + "[TOOL_CALLS]"@.len()) as int));
                lemma_calls_in_first_json(rest);
                if calls_in_first_json(rest) is None {
                    if let Some(brace) = find(rest, seq!['{']) {
                        let name = trim(rest.take(brace as int));
                        crate::text::lemma_trim_idempotent(rest.take(brace as int));
                        if let Some(args) = first_json(rest.skip(brace as int)) {
                            if name.len() > 0 {
                                lemma_single_rescued(CallView { id: None, name, arguments: json_text(args) });
                            }
                        }
                    }
                }
            }
        },
        AnyParser::Rehearsal(_) => {
            if let Some(m) = find(t, "[ARGS]"@) {
                let name = ident_suffix(t.take(m as int));
                lemma_ident_suffix(t.take(m as int));
                if name.len() > 0 {
                    assert(ident_char(name[0]));
                    assert(ident_char(name.last()));
                    assert(trim_start(name) == name);
                    assert(trim_end(name) == name);
                }
                if let Some(args) = first_json(trim_start(t.skip((m + "[ARGS]"@.len()) as int))) {
                    if name.len() > 0 {
                        lemma_single_rescued(CallView { id: None, name, arguments: json_text(args) });
                    }
                }
            }
        },
        AnyParser::QwenCoder(_) => {
            lemma_function_blocks(t);
        },
        AnyParser::Qwen(_) => {
            lemma_calls_in_blocks(tagged(t, "tool_call"@));
        },
        AnyParser::Hermes(_) => {
            lemma_calls_in_blocks(tagged(t, "function_call"@));
        },
        AnyParser::Llama(_) => {
            if let Some(idx) = find(t, "<|python_tag|>"@) {
                lemma_calls_in_first_json(
                    trim(before(t.skip((idx + "<|python_tag|>"@.len()) as int), "<|"@)),
                );
            }
        },
        AnyParser::FencedJson(_) => {
            lemma_first_block_calls(fenced(t));
        },
        AnyParser::BareJson(_) => {
            lemma_calls_in_first_json(trim(t));
        },
    }
}

/// Whatever rescue returns is a rescued batch: at least one call, none with
/// an id, every name non-empty and trimmed.
pub proof fn law_rescued_batch(ps: Seq<AnyParser>, t: Seq<char>)
    ensures
        first_match(ps, t) matches Some((_, c)) ==> rescued_batch(c),
    decreases ps.len(),
{
    if ps.len() > 0 {
        law_parser_reads_rescued_batch(ps[0], t);
        law_rescued_batch(ps.drop_first(), t);
    }
}

} // verus!
