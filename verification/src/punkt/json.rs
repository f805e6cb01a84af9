//! JSON values as the model loader reads them, parsed by `serde_json`.

use vstd::prelude::*;

verus! {

/// The mathematical value of a JSON document as the model loader reads it. A number
/// is represented by its value as an unsigned 64-bit integer, when it is one.
pub enum JsonModel {
    Null,
    Bool(bool),
    Number(Option<u64>),
    Str(Seq<char>),
    Array(Seq<JsonModel>),
    Object(Seq<(Seq<char>, JsonModel)>),
}

/// A parsed JSON value. Object members keep the order in which `serde_json`'s map
/// yields them; a number keeps its value as an unsigned 64-bit integer, when it is one.
pub enum JsonValue {
    Null,
    Bool(bool),
    Number(Option<u64>),
    Str(String),
    Array(Vec<JsonValue>),
    Object(Vec<(String, JsonValue)>),
}

/// The mathematical value of a parsed JSON value.
pub open spec fn json_model(v: JsonValue) -> JsonModel
    decreases v,
{
    match v {
        JsonValue::Null => JsonModel::Null,
        JsonValue::Bool(b) => JsonModel::Bool(b),
        JsonValue::Number(n) => JsonModel::Number(n),
        JsonValue::Str(s) => JsonModel::Str(s@),
        JsonValue::Array(a) => JsonModel::Array(
            Seq::new(
                a@.len(),
                |i: int|
                    {
                        if 0 <= i < a@.len() {
                            json_model(a@[i])
                        } else {
                            JsonModel::Null
                        }
                    },
            ),
        ),
        JsonValue::Object(m) => JsonModel::Object(
            Seq::new(
                m@.len(),
                |i: int|
                    {
                        if 0 <= i < m@.len() {
                            (m@[i].0@, json_model(m@[i].1))
                        } else {
                            (Seq::empty(), JsonModel::Null)
                        }
                    },
            ),
        ),
    }
}

impl View for JsonValue {
    type V = JsonModel;

    open spec fn view(&self) -> JsonModel {
        json_model(*self)
    }
}

/// What `serde_json::from_str::<serde_json::Value>` yields for a text, as the loader
/// reads it; `None` when the text is not a JSON document.
pub uninterp spec fn serde_json_parse(text: Seq<char>) -> Option<JsonModel>;

/// `serde_json::from_str::<serde_json::Value>`, its result converted member by member
/// into a [`JsonValue`]. Claims only that the result is a function of the text.
#[verifier::external_body]
pub fn parse_json(text: &str) -> (r: Option<JsonValue>)
    ensures
        match r {
            Some(v) => serde_json_parse(text@) == Some(v@),
            None => serde_json_parse(text@) is None,
        },
{
    match serde_json::from_str::<serde_json::Value>(text) {
        Ok(v) => Some(from_serde(v)),
        Err(_) => None,
    }
}

/// `serde_json::Value`, a parsed JSON value, carried through unread.
#[verifier::external_type_specification]
#[verifier::external_body]
pub struct ExSerdeJsonValue(serde_json::Value);

/// Converts a `serde_json::Value` into a [`JsonValue`], variant by variant.
#[verifier::external_body]
fn from_serde(v: serde_json::Value) -> JsonValue {
    match v {
        serde_json::Value::Null => JsonValue::Null,
        serde_json::Value::Bool(b) => JsonValue::Bool(b),
        serde_json::Value::Number(n) => JsonValue::Number(n.as_u64()),
        serde_json::Value::String(s) => JsonValue::Str(s),
        serde_json::Value::Array(a) => JsonValue::Array(a.into_iter().map(from_serde).collect()),
        serde_json::Value::Object(o) => JsonValue::Object(
            o.into_iter().map(|(k, x)| (k, from_serde(x))).collect(),
        ),
    }
}

} // verus!
