//! The structured values a plugin may persist: a tagged JSON variant,
//! and trusted conversions between it and `serde_json`'s dynamic value.

use vstd::prelude::*;

verus! {

/// A JSON-representable value, as the storage layer holds it.
///
/// Numbers are 64-bit integers: the mediation layer persists only what
/// it can state exactly, and a stored document holding any other number
/// form is treated as unparsable by the readers.
#[derive(Debug, PartialEq, Eq)]
pub enum JsonValue {
    Null,
    Bool(bool),
    Int(i64),
    Str(String),
    Arr(Vec<JsonValue>),
    Obj(Vec<(String, JsonValue)>),
}

/// A value in the form the storage file holds it: every nested object
/// keeps its keys strictly sorted, so no object holds a key twice.
/// Values read back from a stored document are always canonical;
/// a submitted value that is not is stored in canonical form.
pub open spec fn canonical_value(v: JsonValue) -> bool
    decreases v,
{
    match v {
        JsonValue::Arr(a) => forall|i: int|
            0 <= i < a.len() ==> canonical_value(#[trigger] a[i]),
        JsonValue::Obj(o) => {
            &&& forall|i: int| 0 <= i < o.len() ==> canonical_value((#[trigger] o[i]).1)
            &&& forall|i: int, j: int|
                0 <= i < j < o.len() ==> crate::text::lex_leq((#[trigger] o[i]).0@, (#[trigger] o[j]).0@)
                    && o[i].0@ != o[j].0@
        },
        _ => true,
    }
}

/// The value nests containers no deeper than `d`: a scalar at any
/// bound, an array or object only with one level to spend and every
/// element within the rest.
pub open spec fn value_depth_le(v: JsonValue, d: int) -> bool
    decreases v,
{
    match v {
        JsonValue::Arr(a) => d >= 1 && forall|i: int|
            0 <= i < a.len() ==> value_depth_le(#[trigger] a[i], d - 1),
        JsonValue::Obj(o) => d >= 1 && forall|i: int|
            0 <= i < o.len() ==> value_depth_le((#[trigger] o[i]).1, d - 1),
        _ => true,
    }
}

#[verifier::external_type_specification]
#[verifier::external_body]
pub struct ExSerdeValue(serde_json::Value);

/// Relies on `serde_json::Value`'s constructors: builds the dynamic
/// value that holds the same tag and payload, field for field.
#[verifier::external_body]
pub(crate) fn to_serde_value(v: &JsonValue) -> serde_json::Value {
    match v {
        JsonValue::Null => serde_json::Value::Null,
        JsonValue::Bool(b) => serde_json::Value::Bool(*b),
        JsonValue::Int(i) => serde_json::Value::Number(serde_json::Number::from(*i)),
        JsonValue::Str(s) => serde_json::Value::String(s.clone()),
        JsonValue::Arr(a) => serde_json::Value::Array(a.iter().map(to_serde_value).collect()),
        JsonValue::Obj(o) => serde_json::Value::Object(
            o.iter().map(|(k, x)| (k.clone(), to_serde_value(x))).collect(),
        ),
    }
}

/// Relies on `serde_json::Value`'s accessors and `Number::as_i64`:
/// reads the tag and payload back, field for field; `None` exactly when
/// some number in the value is not a 64-bit integer.
#[verifier::external_body]
pub(crate) fn from_serde_value(v: &serde_json::Value) -> Option<JsonValue> {
    match v {
        serde_json::Value::Null => Some(JsonValue::Null),
        serde_json::Value::Bool(b) => Some(JsonValue::Bool(*b)),
        serde_json::Value::Number(n) => n.as_i64().map(JsonValue::Int),
        serde_json::Value::String(s) => Some(JsonValue::Str(s.clone())),
        serde_json::Value::Array(a) => a.iter().map(from_serde_value).collect::<Option<Vec<_>>>()
            .map(JsonValue::Arr),
        serde_json::Value::Object(o) => o.iter().map(
            |(k, x)| from_serde_value(x).map(|j| (k.clone(), j)),
        ).collect::<Option<Vec<_>>>().map(JsonValue::Obj),
    }
}

} // verus!
