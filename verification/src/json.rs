//! A model of JSON documents as the payloads of device reports carry them, and the reading
//! of report bytes into it.
use vstd::prelude::*;

use serde_json::Value;

verus! {

/// A JSON number, held the way a JSON reader holds it: a non-negative integer,
/// a negative integer, or a floating-point number given by its IEEE-754 bit pattern.
#[derive(Debug, Clone, Copy, PartialEq, Eq, Structural)]
pub enum JsonNumber {
    PosInt(u64),
    NegInt(i64),
    Float(u64),
}

/// The IEEE-754 bit pattern of a finite number: its eleven exponent bits are not all ones.
pub open spec fn is_finite_bits(bits: u64) -> bool {
    (bits / 0x10_0000_0000_0000) % 0x800 != 0x7ff
}

impl JsonNumber {
    /// A valid JSON number is finite: JSON writes no infinity and no NaN, so a floating-point
    /// number read from JSON has a finite bit pattern.
    pub open spec fn is_finite(self) -> bool {
        match self {
            JsonNumber::Float(bits) => is_finite_bits(bits),
            _ => true,
        }
    }
}

/// A JSON value. The members of an object are held in the order the JSON reader hands them
/// over; serde_json, as built here, hands them over sorted by key.
#[derive(Debug)]
pub enum JsonValue {
    Null,
    Bool(bool),
    Number(JsonNumber),
    String(String),
    Array(Vec<JsonValue>),
    Object(Vec<(String, JsonValue)>),
}

impl JsonValue {
    /// `true` for the JSON `null`.
    pub fn is_null(&self) -> (r: bool)
        ensures
            r == (*self is Null),
    {
        match self {
            JsonValue::Null => true,
            _ => false,
        }
    }

    /// The boolean that this value is, if it is one.
    pub fn as_bool(&self) -> (r: Option<bool>)
        ensures
            r == (match *self {
                JsonValue::Bool(b) => Some(b),
                _ => None::<bool>,
            }),
    {
        match self {
            JsonValue::Bool(b) => Some(*b),
            _ => None,
        }
    }
}

/// serde_json's parsed value, carried only inside the reading of report bytes.
#[verifier::external_type_specification]
#[verifier::external_body]
pub struct ExSerdeJsonValue(serde_json::Value);

/// The JSON value that `serde_json::from_slice` reads from `bytes`, in the library's form;
/// `None` when the bytes are not one valid JSON document.
pub uninterp spec fn parsed_json(bytes: Seq<u8>) -> Option<JsonValue>;

/// Reads one JSON document with `serde_json::from_slice::<serde_json::Value>` and converts it
/// into the library's form, variant for variant. The result is named `parsed_json` of the
/// bytes; `None` is the parser's error.
#[verifier::external_body]
pub(crate) fn parse_json(bytes: &[u8]) -> (r: Option<JsonValue>)
    ensures
        r == parsed_json(bytes@),
{
    match serde_json::from_slice::<Value>(bytes) {
        Ok(value) => Some(json_value_from(value)),
        Err(_) => None,
    }
}

/// Converts serde_json's value into the library's form, variant for variant. A number is
/// told apart as serde_json holds it: a `u64`, else an `i64`, else an `f64` (always finite).
/// serde_json as built here gives an `f64` for every number that is neither, so the fallback
/// bit pattern 0 is never taken.
#[verifier::external_body]
fn json_value_from(value: Value) -> JsonValue {
    match value {
        Value::Null => JsonValue::Null,
        Value::Bool(b) => JsonValue::Bool(b),
        Value::Number(n) => JsonValue::Number(match (n.as_u64(), n.as_i64()) {
            (Some(u), _) => JsonNumber::PosInt(u),
            (None, Some(i)) => JsonNumber::NegInt(i),
            (None, None) => JsonNumber::Float(n.as_f64().map_or(0, |f| f.to_bits())),
        }),
        Value::String(s) => JsonValue::String(s),
        Value::Array(items) => JsonValue::Array(items.into_iter().map(json_value_from).collect()),
        Value::Object(members) => JsonValue::Object(members.into_iter().map(|(k, v)| (k, json_value_from(v))).collect()),
    }
}

} // verus!
