//! The JSON values the guardrails read and write, with their mathematical
//! model, lookups, in-place updates, and the calls into `serde_json` that
//! parse and print them.
use vstd::prelude::*;

use crate::text::{chars_eq, from_chars, to_chars};

verus! {

/// A JSON value. Numbers keep the text `serde_json` prints for them; object
/// members keep the order in which they are held.
#[derive(Debug, PartialEq)]
pub enum JsonValue {
    Null,
    Bool(bool),
    Number(String),
    Str(String),
    Array(Vec<JsonValue>),
    Object(Vec<(String, JsonValue)>),
}

/// The mathematical model of a [`JsonValue`].
pub enum Json {
    Null,
    Bool(bool),
    Number(Seq<char>),
    Str(Seq<char>),
    Array(Seq<Json>),
    Object(Seq<(Seq<char>, Json)>),
}

pub open spec fn json_view(v: JsonValue) -> Json
    decreases v, 0nat,
{
    match v {
        JsonValue::Null => Json::Null,
        JsonValue::Bool(b) => Json::Bool(b),
        JsonValue::Number(n) => Json::Number(n@),
        JsonValue::Str(s) => Json::Str(s@),
        JsonValue::Array(a) => Json::Array(items_view(a@)),
        JsonValue::Object(o) => Json::Object(entries_view(o@)),
    }
}

pub open spec fn items_view(s: Seq<JsonValue>) -> Seq<Json>
    decreases s, 1nat,
{
    if s.len() == 0 {
        Seq::empty()
    } else {
        items_view(s.drop_last()).push(json_view(s.last()))
    }
}

pub open spec fn entries_view(s: Seq<(String, JsonValue)>) -> Seq<(Seq<char>, Json)>
    decreases s, 1nat,
{
    if s.len() == 0 {
        Seq::empty()
    } else {
        entries_view(s.drop_last()).push((s.last().0@, json_view(s.last().1)))
    }
}

impl View for JsonValue {
    type V = Json;

    open spec fn view(&self) -> Json {
        json_view(*self)
    }
}

pub proof fn lemma_items_view(s: Seq<JsonValue>)
    ensures
        items_view(s).len() == s.len(),
        forall|i: int| 0 <= i < s.len() ==> #[trigger] items_view(s)[i] == s[i]@,
    decreases s.len(),
{
    if s.len() > 0 {
        lemma_items_view(s.drop_last());
    }
}

pub proof fn lemma_entries_view(s: Seq<(String, JsonValue)>)
    ensures
        entries_view(s).len() == s.len(),
        forall|i: int|
            0 <= i < s.len() ==> #[trigger] entries_view(s)[i] == (s[i].0@, s[i].1@),
    decreases s.len(),
{
    if s.len() > 0 {
        lemma_entries_view(s.drop_last());
    }
}

// ── Lookups and updates on the model ────────────────────────────────────────

/// The index of the first member named `k`, searching from `j`.
pub open spec fn lookup_from(e: Seq<(Seq<char>, Json)>, k: Seq<char>, j: nat) -> Option<nat>
    decreases e.len() - j,
{
    if j >= e.len() {
        None
    } else if e[j as int].0 == k {
        Some(j)
    } else {
        lookup_from(e, k, j + 1)
    }
}

/// The index of the first member named `k`.
pub open spec fn lookup_index(e: Seq<(Seq<char>, Json)>, k: Seq<char>) -> Option<nat> {
    lookup_from(e, k, 0)
}

/// The member `k` of an object (`Value::get` with a key).
pub open spec fn json_get(v: Json, k: Seq<char>) -> Option<Json> {
    match v {
        Json::Object(e) => match lookup_index(e, k) {
            Some(i) => if i < e.len() { Some(e[i as int].1) } else { None },
            None => None,
        },
        _ => None,
    }
}

/// `json_get` on an optional value (`Option::and_then(|v| v.get(k))`).
pub open spec fn opt_get(v: Option<Json>, k: Seq<char>) -> Option<Json> {
    match v {
        Some(x) => json_get(x, k),
        None => None,
    }
}

/// The element `i` of an array (`Value::get` with an index).
pub open spec fn json_at(v: Json, i: int) -> Option<Json> {
    match v {
        Json::Array(a) => if 0 <= i < a.len() { Some(a[i]) } else { None },
        _ => None,
    }
}

/// The text of a JSON string (`Value::as_str`).
pub open spec fn json_str(v: Json) -> Option<Seq<char>> {
    match v {
        Json::Str(s) => Some(s),
        _ => None,
    }
}

/// `json_str` on an optional value.
pub open spec fn opt_str(v: Option<Json>) -> Option<Seq<char>> {
    match v {
        Some(x) => json_str(x),
        None => None,
    }
}

/// Byte order of UTF-8 strings, which is code point order: the order in which
/// `serde_json` keeps object members.
pub open spec fn key_lt(a: Seq<char>, b: Seq<char>) -> bool
    decreases a.len(),
{
    if b.len() == 0 {
        false
    } else if a.len() == 0 {
        true
    } else if a[0] != b[0] {
        (a[0] as u32) < (b[0] as u32)
    } else {
        key_lt(a.drop_first(), b.drop_first())
    }
}

/// Where a new member `k` goes: before the first member whose name is greater.
pub open spec fn insert_pos_from(e: Seq<(Seq<char>, Json)>, k: Seq<char>, j: nat) -> nat
    decreases e.len() - j,
{
    if j >= e.len() {
        e.len()
    } else if key_lt(k, e[j as int].0) {
        j
    } else {
        insert_pos_from(e, k, j + 1)
    }
}

/// The members `e` with member `k` set to `v` (`map.insert(k, v)`): an
/// existing member keeps its place, a new one goes to its place in key order.
pub open spec fn set_entry(e: Seq<(Seq<char>, Json)>, k: Seq<char>, v: Json) -> Seq<(Seq<char>, Json)> {
    match lookup_index(e, k) {
        Some(i) => e.update(i as int, (k, v)),
        None => e.insert(insert_pos_from(e, k, 0) as int, (k, v)),
    }
}

pub proof fn lemma_lookup_from(e: Seq<(Seq<char>, Json)>, k: Seq<char>, j: nat)
    ensures
        match lookup_from(e, k, j) {
            Some(i) => j <= i < e.len() && e[i as int].0 == k && forall|m: int|
                j <= m < i ==> #[trigger] e[m].0 != k,
            None => forall|m: int| j <= m < e.len() ==> #[trigger] e[m].0 != k,
        },
    decreases e.len() - j,
{
    if j < e.len() && e[j as int].0 != k {
        lemma_lookup_from(e, k, j + 1);
    }
}

pub proof fn lemma_insert_pos_from(e: Seq<(Seq<char>, Json)>, k: Seq<char>, j: nat)
    requires
        j <= e.len(),
    ensures
        j <= insert_pos_from(e, k, j) <= e.len(),
    decreases e.len() - j,
{
    if j < e.len() && !key_lt(k, e[j as int].0) {
        lemma_insert_pos_from(e, k, j + 1);
    }
}

/// Characterises a lookup by where the first member of that name stands.
pub proof fn lemma_lookup_is(e: Seq<(Seq<char>, Json)>, k: Seq<char>, i: int)
    requires
        0 <= i < e.len(),
        e[i].0 == k,
        forall|m: int| 0 <= m < i ==> #[trigger] e[m].0 != k,
    ensures
        lookup_index(e, k) == Some(i as nat),
{
    lemma_lookup_from(e, k, 0);
    match lookup_from(e, k, 0) {
        Some(r) => {
            if (r as int) < i {
                assert(e[r as int].0 != k);
            }
        },
        None => {
            assert(e[i].0 != k);
        },
    }
}

/// Member `k` of an object whose first member named `k` stands at `i`.
pub proof fn lemma_get_member(e: Seq<(Seq<char>, Json)>, k: Seq<char>, i: int)
    requires
        0 <= i < e.len(),
        e[i].0 == k,
        forall|m: int| 0 <= m < i ==> #[trigger] e[m].0 != k,
    ensures
        json_get(Json::Object(e), k) == Some(e[i].1),
{
    lemma_lookup_is(e, k, i);
}

/// An object with no member named `k` gives nothing for `k`.
pub proof fn lemma_get_absent(e: Seq<(Seq<char>, Json)>, k: Seq<char>)
    requires
        forall|m: int| 0 <= m < e.len() ==> #[trigger] e[m].0 != k,
    ensures
        json_get(Json::Object(e), k) is None,
{
    lemma_lookup_from(e, k, 0);
}

/// After setting member `k` to `v`, member `k` is `v` and every other member
/// is what it was.
pub proof fn lemma_set_entry(e: Seq<(Seq<char>, Json)>, k: Seq<char>, v: Json, other: Seq<char>)
    ensures
        json_get(Json::Object(set_entry(e, k, v)), k) == Some(v),
        other != k ==> json_get(Json::Object(set_entry(e, k, v)), other) == json_get(
            Json::Object(e),
            other,
        ),
{
    lemma_lookup_from(e, k, 0);
    lemma_lookup_from(e, other, 0);
    let s = set_entry(e, k, v);
    match lookup_index(e, k) {
        Some(i) => {
            assert(s == e.update(i as int, (k, v)));
            lemma_lookup_is(s, k, i as int);
            if other != k {
                match lookup_index(e, other) {
                    Some(j) => {
                        lemma_lookup_is(s, other, j as int);
                    },
                    None => {
                        lemma_lookup_from(s, other, 0);
                        if let Some(j) = lookup_index(s, other) {
                            assert(s[j as int].0 == other);
                            assert(e[j as int].0 == other);
                        }
                    },
                }
            }
        },
        None => {
            lemma_insert_pos_from(e, k, 0);
            let p = insert_pos_from(e, k, 0) as int;
            e.insert_ensures(p, (k, v));
            assert(s == e.insert(p, (k, v)));
            assert forall|m: int| 0 <= m < p implies #[trigger] s[m].0 != k by {
                assert(s[m] == e[m]);
            }
            lemma_lookup_is(s, k, p);
            if other != k {
                lemma_lookup_from(s, other, 0);
                match lookup_index(e, other) {
                    Some(j) => {
                        let sj = if (j as int) < p { j as int } else { (j + 1) as int };
                        assert(s[sj] == e[j as int]);
                        assert forall|m: int| 0 <= m < sj implies #[trigger] s[m].0 != other by {
                            if m < p {
                                assert(s[m] == e[m]);
                            } else if m > p {
                                assert(s[m] == e[m - 1]);
                            }
                        }
                        lemma_lookup_is(s, other, sj);
                    },
                    None => {
                        if let Some(r) = lookup_index(s, other) {
                            if (r as int) < p {
                                assert(s[r as int] == e[r as int]);
                            } else if (r as int) > p {
                                assert(s[r as int] == e[r - 1]);
                            }
                        }
                    },
                }
            }
        },
    }
}

impl DeepView for JsonValue {
    type V = Json;

    open spec fn deep_view(&self) -> Json {
        json_view(*self)
    }
}

/// Byte order of two member names.
fn chars_lt(a: &[char], b: &[char]) -> (r: bool)
    ensures
        r == key_lt(a@, b@),
{
    let mut i: usize = 0;
    assert(a@.skip(0) =~= a@);
    assert(b@.skip(0) =~= b@);
    while i < a.len() && i < b.len() && a[i] == b[i]
        invariant
            i <= a.len(),
            i <= b.len(),
            key_lt(a@, b@) == key_lt(a@.skip(i as int), b@.skip(i as int)),
        decreases a.len() - i,
    {
        assert(a@.skip(i as int).drop_first() =~= a@.skip(i + 1));
        assert(b@.skip(i as int).drop_first() =~= b@.skip(i + 1));
        i = i + 1;
    }
    if i == b.len() {
        false
    } else if i == a.len() {
        true
    } else {
        (a[i] as u32) < (b[i] as u32)
    }
}

/// The index of the first member named `k` in `entries`.
pub(crate) fn find_member(entries: &Vec<(String, JsonValue)>, k: &[char]) -> (r: Option<usize>)
    ensures
        match r {
            Some(i) => lookup_index(entries_view(entries@), k@) == Some(i as nat) && i < entries@.len(),
            None => lookup_index(entries_view(entries@), k@) is None,
        },
{
    proof {
        lemma_entries_view(entries@);
    }
    let ghost ev = entries_view(entries@);
    let mut i: usize = 0;
    while i < entries.len()
        invariant
            ev == entries_view(entries@),
            ev.len() == entries@.len(),
            forall|j: int| 0 <= j < entries@.len() ==> #[trigger] ev[j] == (entries@[j].0@, entries@[j].1@),
            i <= entries.len(),
            lookup_from(ev, k@, 0) == lookup_from(ev, k@, i as nat),
        decreases entries.len() - i,
    {
        let name = to_chars(entries[i].0.as_str());
        if chars_eq(name.as_slice(), k) {
            return Some(i);
        }
        i = i + 1;
    }
    None
}

/// Sets member `key` of an object's `entries` to `v` (`map.insert`).
pub fn set_member(entries: &mut Vec<(String, JsonValue)>, key: &str, v: JsonValue)
    ensures
        entries_view(final(entries)@) == set_entry(entries_view(old(entries)@), key@, v@),
{
    let k = to_chars(key);
    let ghost old_e = entries@;
    proof {
        lemma_entries_view(old_e);
    }
    let ghost ev = entries_view(old_e);
    let ghost vv = v@;
    match find_member(entries, k.as_slice()) {
        Some(i) => {
            entries.set(i, (key.to_owned(), v));
            proof {
                lemma_entries_view(entries@);
                assert(entries_view(entries@) =~= ev.update(i as int, (key@, vv)));
            }
        },
        None => {
            let mut p: usize = 0;
            while p < entries.len() && !chars_lt(k.as_slice(), to_chars(entries[p].0.as_str()).as_slice())
                invariant
                    entries@ == old_e,
                    k@ == key@,
                    ev == entries_view(old_e),
                    ev.len() == old_e.len(),
                    forall|j: int| 0 <= j < old_e.len() ==> #[trigger] ev[j] == (old_e[j].0@, old_e[j].1@),
                    p <= entries.len(),
                    insert_pos_from(ev, key@, 0) == insert_pos_from(ev, key@, p as nat),
                decreases entries.len() - p,
            {
                p = p + 1;
            }
            entries.insert(p, (key.to_owned(), v));
            proof {
                lemma_entries_view(entries@);
                let s = ev.insert(p as int, (key@, vv));
                ev.insert_ensures(p as int, (key@, vv));
                assert forall|j: int| 0 <= j < s.len() implies #[trigger] entries_view(entries@)[j] == s[j] by {
                    if j > p {
                        assert(entries@[j] == old_e[j - 1]);
                    }
                }
                assert(entries_view(entries@) =~= s);
            }
        },
    }
}

impl JsonValue {
    /// The member `key` of an object.
    pub fn get(&self, key: &str) -> (r: Option<&JsonValue>)
        ensures
            r.deep_view() == json_get(self@, key@),
    {
        match self {
            JsonValue::Object(entries) => {
                let k = to_chars(key);
                proof {
                    lemma_entries_view(entries@);
                }
                match find_member(entries, k.as_slice()) {
                    Some(i) => Some(&entries[i].1),
                    None => None,
                }
            },
            _ => None,
        }
    }

    /// The element `i` of an array.
    pub fn at(&self, i: usize) -> (r: Option<&JsonValue>)
        ensures
            r.deep_view() == json_at(self@, i as int),
    {
        match self {
            JsonValue::Array(items) => {
                proof {
                    lemma_items_view(items@);
                }
                if i < items.len() {
                    Some(&items[i])
                } else {
                    None
                }
            },
            _ => None,
        }
    }

    /// The text of a JSON string.
    pub fn as_str(&self) -> (r: Option<&str>)
        ensures
            r.deep_view() == json_str(self@),
    {
        match self {
            JsonValue::Str(s) => Some(s.as_str()),
            _ => None,
        }
    }

    /// Whether this is a JSON object.
    pub fn is_object(&self) -> (r: bool)
        ensures
            r == (self@ is Object),
    {
        match self {
            JsonValue::Object(_) => true,
            _ => false,
        }
    }

    /// A copy of this value.
    #[verifier::loop_isolation(false)]
    pub fn copy(&self) -> (r: JsonValue)
        ensures
            r@ == self@,
        decreases self,
    {
        match self {
            JsonValue::Null => JsonValue::Null,
            JsonValue::Bool(b) => JsonValue::Bool(*b),
            JsonValue::Number(n) => JsonValue::Number(n.clone()),
            JsonValue::Str(s) => JsonValue::Str(s.clone()),
            JsonValue::Array(items) => {
                let mut out: Vec<JsonValue> = Vec::new();
                let mut i: usize = 0;
                assert(items@.take(0) =~= Seq::<JsonValue>::empty());
                while i < items.len()
                    invariant
                        i <= items.len(),
                        items_view(out@) == items_view(items@.take(i as int)),
                    decreases items.len() - i,
                {
                    proof {
                        assert(decreases_to!(*self => items@[i as int]));
                    }
                    let c = items[i].copy();
                    let ghost before = out@;
                    out.push(c);
                    assert(out@.drop_last() =~= before);
                    assert(items@.take(i + 1).drop_last() =~= items@.take(i as int));
                    i = i + 1;
                }
                assert(items@.take(items.len() as int) =~= items@);
                JsonValue::Array(out)
            },
            JsonValue::Object(entries) => {
                let mut out: Vec<(String, JsonValue)> = Vec::new();
                let mut i: usize = 0;
                assert(entries@.take(0) =~= Seq::<(String, JsonValue)>::empty());
                while i < entries.len()
                    invariant
                        i <= entries.len(),
                        entries_view(out@) == entries_view(entries@.take(i as int)),
                    decreases entries.len() - i,
                {
                    proof {
                        assert(decreases_to!(*self => entries@[i as int].1));
                    }
                    let c = entries[i].1.copy();
                    let name = entries[i].0.clone();
                    let ghost before = out@;
                    out.push((name, c));
                    assert(out@.drop_last() =~= before);
                    assert(entries@.take(i + 1).drop_last() =~= entries@.take(i as int));
                    i = i + 1;
                }
                assert(entries@.take(entries.len() as int) =~= entries@);
                JsonValue::Object(out)
            },
        }
    }
}

// ── Building values ─────────────────────────────────────────────────────────

pub(crate) fn object1(k1: &str, v1: JsonValue) -> (r: JsonValue)
    ensures
        r@ == Json::Object(seq![(k1@, v1@)]),
{
    let mut e: Vec<(String, JsonValue)> = Vec::new();
    e.push((k1.to_owned(), v1));
    proof {
        lemma_entries_view(e@);
        assert(entries_view(e@) =~= seq![(k1@, e@[0].1@)]);
    }
    JsonValue::Object(e)
}

pub(crate) fn array1(v1: JsonValue) -> (r: JsonValue)
    ensures
        r@ == Json::Array(seq![v1@]),
{
    let mut a: Vec<JsonValue> = Vec::new();
    a.push(v1);
    proof {
        lemma_items_view(a@);
        assert(items_view(a@) =~= seq![a@[0]@]);
    }
    JsonValue::Array(a)
}

pub(crate) fn object2(k1: &str, v1: JsonValue, k2: &str, v2: JsonValue) -> (r: JsonValue)
    ensures
        r@ == Json::Object(seq![(k1@, v1@), (k2@, v2@)]),
{
    let mut e: Vec<(String, JsonValue)> = Vec::new();
    e.push((k1.to_owned(), v1));
    e.push((k2.to_owned(), v2));
    proof {
        lemma_entries_view(e@);
        assert(entries_view(e@) =~= seq![(k1@, e@[0].1@), (k2@, e@[1].1@)]);
    }
    JsonValue::Object(e)
}

pub(crate) fn object3(k1: &str, v1: JsonValue, k2: &str, v2: JsonValue, k3: &str, v3: JsonValue) -> (r: JsonValue)
    ensures
        r@ == Json::Object(seq![(k1@, v1@), (k2@, v2@), (k3@, v3@)]),
{
    let mut e: Vec<(String, JsonValue)> = Vec::new();
    e.push((k1.to_owned(), v1));
    e.push((k2.to_owned(), v2));
    e.push((k3.to_owned(), v3));
    proof {
        lemma_entries_view(e@);
        assert(entries_view(e@) =~= seq![(k1@, e@[0].1@), (k2@, e@[1].1@), (k3@, e@[2].1@)]);
    }
    JsonValue::Object(e)
}

pub(crate) fn string_value(s: &str) -> (r: JsonValue)
    ensures
        r@ == Json::Str(s@),
{
    JsonValue::Str(s.to_owned())
}

// ── serde_json ──────────────────────────────────────────────────────────────

#[verifier::external_type_specification]
#[verifier::external_body]
pub struct ExSerdeValue(serde_json::Value);

/// What `serde_json::from_str::<Value>` makes of a whole text: the value it
/// holds, or `None` where the text is not exactly one JSON value (surrounding
/// whitespace aside).
pub uninterp spec fn parsed_json(text: Seq<char>) -> Option<Json>;

/// What a `serde_json` stream deserializer yields first from a text: the
/// first JSON value, whatever follows it, or `None` where the text does not
/// start (after whitespace) with one.
pub uninterp spec fn first_json(text: Seq<char>) -> Option<Json>;

/// The compact text `serde_json` prints for a value (`Value::to_string`).
pub uninterp spec fn json_text(v: Json) -> Seq<char>;

/// Moves a `serde_json::Value` into a [`JsonValue`], variant for variant; a
/// number keeps the text `serde_json` prints for it.
#[verifier::external_body]
fn from_serde(v: serde_json::Value) -> JsonValue {
    match v {
        serde_json::Value::Null => JsonValue::Null,
        serde_json::Value::Bool(b) => JsonValue::Bool(b),
        serde_json::Value::Number(n) => JsonValue::Number(n.to_string()),
        serde_json::Value::String(s) => JsonValue::Str(s),
        serde_json::Value::Array(a) => JsonValue::Array(a.into_iter().map(from_serde).collect()),
        serde_json::Value::Object(m) => JsonValue::Object(
            m.into_iter().map(|(k, x)| (k, from_serde(x))).collect(),
        ),
    }
}

/// Copies a [`JsonValue`] into a `serde_json::Value`, variant for variant; a
/// number is read back from its text (a text that is no JSON number becomes
/// null).
#[verifier::external_body]
fn to_serde(v: &JsonValue) -> serde_json::Value {
    match v {
        JsonValue::Null => serde_json::Value::Null,
        JsonValue::Bool(b) => serde_json::Value::Bool(*b),
        JsonValue::Number(n) => n.parse().map(serde_json::Value::Number).unwrap_or(serde_json::Value::Null),
        JsonValue::Str(s) => serde_json::Value::String(s.clone()),
        JsonValue::Array(a) => serde_json::Value::Array(a.iter().map(to_serde).collect()),
        JsonValue::Object(o) => serde_json::Value::Object(
            o.iter().map(|(k, x)| (k.clone(), to_serde(x))).collect(),
        ),
    }
}

/// `serde_json::from_str::<Value>`: the result is `parsed_json` of the text,
/// a function of the text alone.
#[verifier::external_body]
fn serde_from_str(text: &str) -> (r: Option<JsonValue>)
    ensures
        r.deep_view() == parsed_json(text@),
{
    serde_json::from_str::<serde_json::Value>(text).ok().map(from_serde)
}

/// `serde_json::Deserializer::from_str(text).into_iter::<Value>().next()`:
/// the result is `first_json` of the text, a function of the text alone.
#[verifier::external_body]
fn serde_first_value(text: &str) -> (r: Option<JsonValue>)
    ensures
        r.deep_view() == first_json(text@),
{
    match serde_json::Deserializer::from_str(text).into_iter::<serde_json::Value>().next() {
        Some(Ok(v)) => Some(from_serde(v)),
        _ => None,
    }
}

/// `Value::to_string` (compact printing): the result is `json_text` of the
/// value, a function of the value alone.
#[verifier::external_body]
fn serde_to_string(v: &JsonValue) -> (r: String)
    ensures
        r@ == json_text(v@),
{
    to_serde(v).to_string()
}

impl JsonValue {
    /// Parses a whole text as one JSON value.
    pub fn parse(text: &str) -> (r: Option<JsonValue>)
        ensures
            r.deep_view() == parsed_json(text@),
    {
        serde_from_str(text)
    }

    /// The compact JSON text of this value.
    pub fn to_text(&self) -> (r: String)
        ensures
            r@ == json_text(self@),
    {
        serde_to_string(self)
    }
}

/// The first JSON value at the start of the characters `cs`.
pub(crate) fn first_json_value(cs: &[char]) -> (r: Option<JsonValue>)
    ensures
        r.deep_view() == first_json(cs@),
{
    let s = from_chars(cs);
    serde_first_value(s.as_str())
}

/// The characters `cs` parsed as one whole JSON value.
pub(crate) fn parse_chars(cs: &[char]) -> (r: Option<JsonValue>)
    ensures
        r.deep_view() == parsed_json(cs@),
{
    let s = from_chars(cs);
    serde_from_str(s.as_str())
}

} // verus!
