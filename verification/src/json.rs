//! Reading JSON documents.
//!
//! Parsing is left to `serde_json`; the library only asks it for the value that
//! a JSON Pointer designates inside a document, reduced to the plain facts that
//! the logic reads (its kind, its text, its numbers, an array's length).
use vstd::prelude::*;

use crate::text::{push_all, str_chars, string_from_chars};

verus! {

/// What a JSON value holds, as the library reads it.
pub enum JsonLeaf {
    Null,
    Bool(bool),
    /// A number, with what `as_u64` and `as_i64` give for it.
    Number(Option<u64>, Option<i64>),
    Str(String),
    /// An array, with its length.
    Array(usize),
    Object,
}

/// Model of [`JsonLeaf`].
pub enum JsonLeafView {
    Null,
    Bool(bool),
    Number(Option<u64>, Option<i64>),
    Str(Seq<char>),
    Array(nat),
    Object,
}

impl View for JsonLeaf {
    type V = JsonLeafView;

    open spec fn view(&self) -> JsonLeafView {
        match self {
            JsonLeaf::Null => JsonLeafView::Null,
            JsonLeaf::Bool(b) => JsonLeafView::Bool(*b),
            JsonLeaf::Number(u, i) => JsonLeafView::Number(*u, *i),
            JsonLeaf::Str(s) => JsonLeafView::Str(s@),
            JsonLeaf::Array(n) => JsonLeafView::Array(*n as nat),
            JsonLeaf::Object => JsonLeafView::Object,
        }
    }
}

pub open spec fn leaf_view(r: Option<JsonLeaf>) -> Option<JsonLeafView> {
    match r {
        Some(l) => Some(l@),
        None => None,
    }
}

/// What `serde_json` finds at JSON Pointer `pointer` inside the document
/// `text`: `None` when `text` is not a JSON document or nothing stands there.
pub uninterp spec fn json_leaf(text: Seq<char>, pointer: Seq<char>) -> Option<JsonLeafView>;

/// The outcome of parsing `text` as a JSON document with `serde_json`: its
/// compact serialization, or the parser's error message.
pub uninterp spec fn json_reformat(text: Seq<char>) -> Result<Seq<char>, Seq<char>>;

/// Parses `text` with `serde_json::from_str::<Value>` and looks up
/// `Value::pointer(pointer)`; the contract claims only that the answer is a
/// function of the two strings, named `json_leaf`.
#[verifier::external_body]
pub(crate) fn json_pointer(text: &str, pointer: &str) -> (r: Option<JsonLeaf>)
    ensures
        leaf_view(r) == json_leaf(text@, pointer@),
{
    let v: serde_json::Value = serde_json::from_str(text).ok()?;
    Some(match v.pointer(pointer)? {
        serde_json::Value::Null => JsonLeaf::Null,
        serde_json::Value::Bool(b) => JsonLeaf::Bool(*b),
        serde_json::Value::Number(n) => JsonLeaf::Number(n.as_u64(), n.as_i64()),
        serde_json::Value::String(s) => JsonLeaf::Str(s.clone()),
        serde_json::Value::Array(a) => JsonLeaf::Array(a.len()),
        serde_json::Value::Object(_) => JsonLeaf::Object,
    })
}

/// Parses `text` with `serde_json::from_str::<Value>` and serializes the value
/// back with `to_string` (compact form), or gives the parse error's message;
/// the contract claims only that the outcome is a function of `text`.
#[verifier::external_body]
pub(crate) fn json_normalize(text: &str) -> (r: Result<String, String>)
    ensures
        match r {
            Ok(s) => json_reformat(text@) == Ok::<Seq<char>, Seq<char>>(s@),
            Err(e) => json_reformat(text@) == Err::<Seq<char>, Seq<char>>(e@),
        },
{
    serde_json::from_str::<serde_json::Value>(text).map(|v| v.to_string()).map_err(|e| e.to_string())
}

/// The outcome of parsing the bytes `bytes` as a JSON document with
/// `serde_json::from_slice`: its compact serialization, or the parser's error
/// message.
pub uninterp spec fn json_reformat_bytes(bytes: Seq<u8>) -> Result<Seq<char>, Seq<char>>;

/// Parses `bytes` with `serde_json::from_slice::<Value>` and serializes the
/// value back with `to_string`, or gives the parse error's message; the
/// contract claims only that the outcome is a function of the bytes.
#[verifier::external_body]
pub(crate) fn json_normalize_bytes(bytes: &[u8]) -> (r: Result<String, String>)
    ensures
        match r {
            Ok(s) => json_reformat_bytes(bytes@) == Ok::<Seq<char>, Seq<char>>(s@),
            Err(e) => json_reformat_bytes(bytes@) == Err::<Seq<char>, Seq<char>>(e@),
        },
{
    serde_json::from_slice::<serde_json::Value>(bytes).map(|v| v.to_string()).map_err(|e| e.to_string())
}

/// The JSON Pointer that names member `key` of the top-level object.
pub open spec fn key_pointer(key: Seq<char>) -> Seq<char> {
    seq!['/'] + key
}

/// The JSON Pointer that names member `key` of the top-level object.
pub fn pointer_to(key: &str) -> (r: String)
    ensures
        r@ == key_pointer(key@),
{
    let mut v: Vec<char> = Vec::new();
    v.push('/');
    let k = str_chars(key);
    push_all(&mut v, k.as_slice());
    assert(v@ =~= key_pointer(key@));
    string_from_chars(v.as_slice())
}

/// The text of top-level member `key`, when it is a JSON string.
pub open spec fn str_member(text: Seq<char>, key: Seq<char>) -> Option<Seq<char>> {
    match json_leaf(text, key_pointer(key)) {
        Some(JsonLeafView::Str(s)) => Some(s),
        _ => None,
    }
}

/// `value.get(key).and_then(Value::as_str)` on the document `text`.
pub fn str_member_of(text: &str, key: &str) -> (r: Option<String>)
    ensures
        match r {
            Some(s) => str_member(text@, key@) == Some(s@),
            None => str_member(text@, key@) is None,
        },
{
    let p = pointer_to(key);
    match json_pointer(text, p.as_str()) {
        Some(JsonLeaf::Str(s)) => Some(s),
        _ => None,
    }
}

/// The string at pointer `pointer`, when there is one.
pub open spec fn str_at(text: Seq<char>, pointer: Seq<char>) -> Option<Seq<char>> {
    match json_leaf(text, pointer) {
        Some(JsonLeafView::Str(s)) => Some(s),
        _ => None,
    }
}

pub fn str_at_pointer(text: &str, pointer: &str) -> (r: Option<String>)
    ensures
        match r {
            Some(s) => str_at(text@, pointer@) == Some(s@),
            None => str_at(text@, pointer@) is None,
        },
{
    match json_pointer(text, pointer) {
        Some(JsonLeaf::Str(s)) => Some(s),
        _ => None,
    }
}

} // verus!
