//! JSON documents as plain values: the parse is `serde_json`'s, and what
//! the widget reads from a document is looked up here.
use vstd::prelude::*;

use crate::text::{chars_of, str_is};

verus! {

/// A JSON value. A number is kept as a `u64` when it is a non-negative
/// integer that fits, as `serde_json::Value::as_u64` reads it; any other
/// number only as a number. An object keeps its members in the order the
/// parser gives them.
#[derive(Debug)]
pub enum JsonValue {
    Null,
    Bool(bool),
    Unsigned(u64),
    OtherNumber,
    Str(String),
    Array(Vec<JsonValue>),
    Object(Vec<(String, JsonValue)>),
}

/// A [`JsonValue`] with its texts as character sequences.
pub enum JsonValueView {
    Null,
    Bool(bool),
    Unsigned(u64),
    OtherNumber,
    Str(Seq<char>),
    Array(Seq<JsonValueView>),
    Object(Seq<(Seq<char>, JsonValueView)>),
}

/// The view of a JSON value.
pub open spec fn json_view(v: JsonValue) -> JsonValueView
    decreases v,
{
    match v {
        JsonValue::Null => JsonValueView::Null,
        JsonValue::Bool(b) => JsonValueView::Bool(b),
        JsonValue::Unsigned(u) => JsonValueView::Unsigned(u),
        JsonValue::OtherNumber => JsonValueView::OtherNumber,
        JsonValue::Str(s) => JsonValueView::Str(s@),
        JsonValue::Array(a) => JsonValueView::Array(elements_view(a@)),
        JsonValue::Object(m) => JsonValueView::Object(members_view(m@)),
    }
}

/// The views of the elements of an array.
pub open spec fn elements_view(a: Seq<JsonValue>) -> Seq<JsonValueView>
    decreases a,
{
    if a.len() == 0 {
        Seq::empty()
    } else {
        seq![json_view(a[0])] + elements_view(a.subrange(1, a.len() as int))
    }
}

/// The views of the members of an object.
pub open spec fn members_view(m: Seq<(String, JsonValue)>) -> Seq<(Seq<char>, JsonValueView)>
    decreases m,
{
    if m.len() == 0 {
        Seq::empty()
    } else {
        seq![(m[0].0@, json_view(m[0].1))] + members_view(m.subrange(1, m.len() as int))
    }
}

impl View for JsonValue {
    type V = JsonValueView;

    open spec fn view(&self) -> JsonValueView {
        json_view(*self)
    }
}


// ---------------------------------------------------------------------------
// Looking values up
// ---------------------------------------------------------------------------

/// The value of the first member named `key`, if any.
pub open spec fn member(ms: Seq<(Seq<char>, JsonValueView)>, key: Seq<char>) -> Option<JsonValueView>
    decreases ms.len(),
{
    if ms.len() == 0 {
        None
    } else if ms[0].0 == key {
        Some(ms[0].1)
    } else {
        member(ms.drop_first(), key)
    }
}

/// The member `key` of `v`, as `serde_json::Value::get` gives it: only an
/// object has members.
pub open spec fn json_get(v: JsonValueView, key: Seq<char>) -> Option<JsonValueView> {
    match v {
        JsonValueView::Object(ms) => member(ms, key),
        _ => None,
    }
}

/// The value reached from `v` through the members named in `path`.
pub open spec fn value_at(v: JsonValueView, path: Seq<Seq<char>>) -> Option<JsonValueView>
    decreases path.len(),
{
    if path.len() == 0 {
        Some(v)
    } else {
        match json_get(v, path[0]) {
            Some(w) => value_at(w, path.drop_first()),
            None => None,
        }
    }
}

/// The string at `path`, as `Value::as_str` reads it.
pub open spec fn str_at(v: JsonValueView, path: Seq<Seq<char>>) -> Option<Seq<char>> {
    match value_at(v, path) {
        Some(JsonValueView::Str(s)) => Some(s),
        _ => None,
    }
}

/// The non-negative integer at `path`, as `Value::as_u64` reads it.
pub open spec fn u64_at(v: JsonValueView, path: Seq<Seq<char>>) -> Option<u64> {
    match value_at(v, path) {
        Some(JsonValueView::Unsigned(u)) => Some(u),
        _ => None,
    }
}

proof fn lemma_members_view(m: Seq<(String, JsonValue)>)
    ensures
        members_view(m).len() == m.len(),
        forall|i: int| 0 <= i < m.len() ==> #[trigger] members_view(m)[i] == (m[i].0@, json_view(m[i].1)),
    decreases m.len(),
{
    if m.len() > 0 {
        let rest = m.subrange(1, m.len() as int);
        lemma_members_view(rest);
        assert forall|i: int| 0 <= i < m.len() implies #[trigger] members_view(m)[i] == (m[i].0@, json_view(m[i].1)) by {
            if i > 0 {
                assert(rest[i - 1] == m[i]);
            }
        }
    }
}

proof fn lemma_member_skip(ms: Seq<(Seq<char>, JsonValueView)>, key: Seq<char>, k: int)
    requires
        0 <= k <= ms.len(),
        forall|j: int| 0 <= j < k ==> (#[trigger] ms[j]).0 != key,
    ensures
        member(ms, key) == member(ms.skip(k), key),
    decreases k,
{
    if k > 0 {
        assert(ms[0].0 != key);
        let t = ms.drop_first();
        assert forall|j: int| 0 <= j < k - 1 implies (#[trigger] t[j]).0 != key by {
            assert(t[j] == ms[j + 1]);
        }
        lemma_member_skip(t, key, k - 1);
        assert(t.skip(k - 1) =~= ms.skip(k));
    } else {
        assert(ms.skip(0) =~= ms);
    }
}

/// The member `key` of `v`; see [`json_get`].
pub fn json_get_exec<'a>(v: &'a JsonValue, key: &str) -> (r: Option<&'a JsonValue>)
    ensures
        match r {
            Some(w) => json_get(v@, key@) == Some(w@),
            None => json_get(v@, key@) is None,
        },
{
    match v {
        JsonValue::Object(m) => {
            let ghost ms = members_view(m@);
            proof {
                lemma_members_view(m@);
                assert(v@ == JsonValueView::Object(ms));
            }
            let kv = chars_of(key);
            let mut k: usize = 0;
            while k < m.len()
                invariant
                    k <= m@.len(),
                    ms == members_view(m@),
                    ms.len() == m@.len(),
                    kv@ == key@,
                    v@ == JsonValueView::Object(ms),
                    forall|i: int| 0 <= i < m@.len() ==> #[trigger] ms[i] == (m@[i].0@, json_view(m@[i].1)),
                    forall|j: int| 0 <= j < k ==> (#[trigger] ms[j]).0 != key@,
                decreases m@.len() - k,
            {
                if str_is(m[k].0.as_str(), &kv) {
                    proof {
                        lemma_member_skip(ms, key@, k as int);
                        assert(ms.skip(k as int)[0] == ms[k as int]);
                        assert(member(ms.skip(k as int), key@) == Some(ms[k as int].1));
                    }
                    return Some(&m[k].1);
                }
                assert(ms[k as int].0 != key@);
                k = k + 1;
            }
            proof {
                lemma_member_skip(ms, key@, k as int);
                assert(ms.skip(k as int).len() == 0);
            }
            None
        },
        _ => {
            assert(!(v@ is Object));
            None
        },
    }
}

// ---------------------------------------------------------------------------
// Parsing
// ---------------------------------------------------------------------------

/// The `serde_json` error type, carried through as it is.
#[verifier::external_type_specification]
#[verifier::external_body]
pub struct ExJsonError(serde_json::Error);

/// The `serde_json` document type, carried through as it is.
#[verifier::external_type_specification]
#[verifier::external_body]
pub struct ExJsonDocument(serde_json::Value);

/// The document that `serde_json::from_str` reads from `text`, or `None`
/// when it refuses the text.
pub uninterp spec fn json_text(text: Seq<char>) -> Option<JsonValueView>;

/// A `serde_json::Value` written as a [`JsonValue`], variant for variant;
/// a number through `Number::as_u64`.
#[verifier::external_body]
fn json_from_value(value: serde_json::Value) -> JsonValue {
    match value {
        serde_json::Value::Null => JsonValue::Null,
        serde_json::Value::Bool(b) => JsonValue::Bool(b),
        serde_json::Value::Number(n) => match n.as_u64() {
            Some(u) => JsonValue::Unsigned(u),
            None => JsonValue::OtherNumber,
        },
        serde_json::Value::String(s) => JsonValue::Str(s),
        serde_json::Value::Array(a) => JsonValue::Array(a.into_iter().map(json_from_value).collect()),
        serde_json::Value::Object(m) => JsonValue::Object(m.into_iter().map(|(k, v)| (k, json_from_value(v))).collect()),
    }
}

/// Parses `text` with `serde_json::from_str` into a `serde_json::Value`,
/// written as a [`JsonValue`]. Claimed: the result is the named
/// `json_text` of the text, and the parse fails exactly when that is
/// `None`. Which texts serde_json accepts, and what it reads from them, is
/// not stated.
#[verifier::external_body]
pub(crate) fn parse_json(text: &str) -> (r: Result<JsonValue, serde_json::Error>)
    ensures
        match r {
            Ok(v) => json_text(text@) == Some(v@),
            Err(_) => json_text(text@) is None,
        },
{
    serde_json::from_str::<serde_json::Value>(text).map(json_from_value)
}

/// The message of a `serde_json` error, as its `Display` writes it (not
/// stated).
#[verifier::external_body]
pub(crate) fn json_error_text(e: &serde_json::Error) -> (s: String) {
    e.to_string()
}

} // verus!
