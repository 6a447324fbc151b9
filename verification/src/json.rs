//! The boundary to serde_json.  Outbound text is built by the codec itself;
//! serde_json contributes only the escaping of string literals.  Inbound
//! text is parsed by serde_json into a `Value` tree, which the router walks
//! through the accessors declared here.  `JsonModel` is the ghost model of
//! what such a tree holds, so that each accessor's contract — and through
//! them the router's — can speak of the parsed document exactly.

use serde_json::Value;
use vstd::prelude::*;

verus! {

#[verifier::external_type_specification]
#[verifier::external_body]
pub struct ExValue(serde_json::Value);

/// The shape of a JSON document, as this client reads one.  A number
/// carries its value only when it is a non-negative integer that fits 64
/// bits — the only numbers the protocol layer ever reads; anything else
/// (negative, fractional, too large) carries `None`.
pub enum JsonModel {
    Null,
    Bool(bool),
    Num(Option<u64>),
    Str(Seq<char>),
    Arr(Seq<JsonModel>),
    Obj(Map<Seq<char>, JsonModel>),
}

/// What a `serde_json::Value` tree holds.
pub uninterp spec fn value_model(v: Value) -> JsonModel;

/// What serde_json's parser yields on a text — a function of the characters
/// alone; `None` stands for a parse error.
pub uninterp spec fn spec_parse_json(s: Seq<char>) -> Option<JsonModel>;

/// The JSON text serde_json renders for a `Value` — a function of the value
/// alone.
pub uninterp spec fn json_text_of(v: Value) -> Seq<char>;

/// The JSON string literal (quotes and escapes included) that serde_json
/// writes for a Rust string.  The result depends on the characters alone.
pub uninterp spec fn json_string_encoding(s: Seq<char>) -> Seq<char>;

/// Relies on `serde_json::to_string` applied to a `&str`: it renders the
/// string as a JSON string literal, and depends on the characters alone.
/// Serializing a string never fails, so the error arm is unreachable.
#[verifier::external_body]
pub fn json_quote(s: &str) -> (r: String)
    ensures
        r@ == json_string_encoding(s@),
{
    match serde_json::to_string(s) {
        Ok(r) => r,
        Err(_) => String::new(),
    }
}

/// Relies on `serde_json::from_str::<Value>`: parses a JSON document into a
/// `Value` tree; the error (text that is not JSON) becomes `None`.  The
/// parse is a function of the text alone.
#[verifier::external_body]
pub fn json_parse(s: &str) -> (r: Option<Value>)
    ensures
        match r {
            Some(v) => spec_parse_json(s@) == Some(value_model(v)),
            None => spec_parse_json(s@) is None,
        },
{
    match serde_json::from_str(s) {
        Ok(v) => Some(v),
        Err(_) => None,
    }
}

/// Relies on `serde_json::Value::get` with a string key: on a JSON object,
/// the named field; on anything else, or an absent field, `None`.
#[verifier::external_body]
pub fn json_get<'a>(v: &'a Value, key: &str) -> (r: Option<&'a Value>)
    ensures
        match r {
            Some(f) => value_model(*v) matches JsonModel::Obj(m) && m.contains_key(key@)
                && value_model(*f) == m[key@],
            None => (match value_model(*v) {
                JsonModel::Obj(m) => !m.contains_key(key@),
                _ => true,
            }),
        },
{
    v.get(key)
}

/// Relies on `serde_json::Value::as_u64`: the value of a non-negative
/// integral JSON number that fits 64 bits, `None` otherwise.
#[verifier::external_body]
pub fn json_as_u64(v: &Value) -> (r: Option<u64>)
    ensures
        r == (match value_model(*v) {
            JsonModel::Num(u) => u,
            _ => None::<u64>,
        }),
{
    v.as_u64()
}

/// Relies on `serde_json::Value::as_bool`: the value of a JSON boolean.
#[verifier::external_body]
pub fn json_as_bool(v: &Value) -> (r: Option<bool>)
    ensures
        r == (match value_model(*v) {
            JsonModel::Bool(b) => Some(b),
            _ => None::<bool>,
        }),
{
    v.as_bool()
}

/// Relies on `serde_json::Value::as_str`: the characters of a JSON string.
#[verifier::external_body]
pub fn json_as_str<'a>(v: &'a Value) -> (r: Option<&'a str>)
    ensures
        match r {
            Some(s) => value_model(*v) matches JsonModel::Str(t) && s@ == t,
            None => !(value_model(*v) is Str),
        },
{
    v.as_str()
}

/// Relies on `serde_json::Value::as_array`: the elements of a JSON array.
#[verifier::external_body]
pub fn json_as_array<'a>(v: &'a Value) -> (r: Option<&'a Vec<Value>>)
    ensures
        match r {
            Some(a) => value_model(*v) matches JsonModel::Arr(elems) && a@.len() == elems.len()
                && forall|i: int|
                0 <= i < elems.len() ==> value_model(#[trigger] a@[i]) == elems[i],
            None => !(value_model(*v) is Arr),
        },
{
    v.as_array()
}

/// Relies on `serde_json::to_string` applied to a `Value`: renders the tree
/// back as JSON text, a function of the value alone.  A `Value` holds
/// string-keyed maps and finite numbers only, so serialization never fails
/// and the error arm is unreachable.
#[verifier::external_body]
pub fn json_value_to_text(v: &Value) -> (r: String)
    ensures
        r@ == json_text_of(*v),
{
    match serde_json::to_string(v) {
        Ok(r) => r,
        Err(_) => String::new(),
    }
}

} // verus!
