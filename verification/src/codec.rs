//! JSON text in and out, through `serde_json`. Everything past the text
//! boundary works on [`Json`]; the parse and print results are named, not
//! restated here.
use vstd::prelude::*;
use crate::json::{Json, JsonNumber, JsonV, wf};
use serde_json::{Number, Value};

verus! {

#[verifier::external_type_specification]
#[verifier::external_body]
pub struct ExSerdeValue(Value);

#[verifier::external_type_specification]
#[verifier::external_body]
pub struct ExSerdeNumber(Number);

/// What `serde_json::from_str::<Value>` makes of `text`: the value, or the
/// error's display text.
pub uninterp spec fn json_from_str(text: Seq<char>) -> Result<JsonV, Seq<char>>;

/// What `serde_json::from_slice::<Value>` makes of `bytes`: the value, or
/// the error's display text.
pub uninterp spec fn json_from_slice(bytes: Seq<u8>) -> Result<JsonV, Seq<char>>;

/// `serde_json::to_string_pretty` of a value (2-space indent, document key
/// order).
pub uninterp spec fn json_to_string_pretty(v: JsonV) -> Seq<char>;

/// `serde_json::to_string` of a value (compact).
pub uninterp spec fn json_to_string(v: JsonV) -> Seq<char>;

/// Converts a parsed number: non-negative integers, negative integers,
/// and any other number by its shortest round-trip text.
#[verifier::external_body]
fn number_of(n: &Number) -> JsonNumber {
    match (n.as_u64(), n.as_i64()) {
        (Some(u), _) => JsonNumber::PosInt(u),
        (None, Some(i)) => JsonNumber::NegInt(i),
        (None, None) => JsonNumber::Float(n.to_string()),
    }
}

/// Converts a parsed `serde_json::Value` into a [`Json`], one variant for
/// one variant and one entry for one entry (document order kept).
#[verifier::external_body]
fn from_value(v: &Value) -> Json {
    match v {
        Value::Null => Json::Null,
        Value::Bool(b) => Json::Bool(*b),
        Value::Number(n) => Json::Number(number_of(n)),
        Value::String(s) => Json::Str(s.clone()),
        Value::Array(a) => Json::Array(a.iter().map(from_value).collect()),
        Value::Object(m) => Json::Object(m.iter().map(|(k, x)| (k.clone(), from_value(x))).collect()),
    }
}

/// Converts a number back; a float text that no longer parses (never the
/// case for one that came from the parser) becomes `null`.
#[verifier::external_body]
fn number_value(n: &JsonNumber) -> Value {
    match n {
        JsonNumber::PosInt(u) => Value::from(*u),
        JsonNumber::NegInt(i) => Value::from(*i),
        JsonNumber::Float(t) => t.parse::<Number>().map_or(Value::Null, Value::Number),
    }
}

/// Converts a [`Json`] back into a `serde_json::Value`, one for one.
#[verifier::external_body]
fn to_value(j: &Json) -> Value {
    match j {
        Json::Null => Value::Null,
        Json::Bool(b) => Value::Bool(*b),
        Json::Number(n) => number_value(n),
        Json::Str(s) => Value::String(s.clone()),
        Json::Array(a) => Value::Array(a.iter().map(to_value).collect()),
        Json::Object(e) => Value::Object(e.iter().map(|(k, x)| (k.clone(), to_value(x))).collect()),
    }
}

/// `serde_json::from_str::<Value>`. Claims only that the result is the
/// named parse of `text`, and that a parsed object never repeats a key
/// (`serde_json::Map` is a map).
#[verifier::external_body]
pub fn parse_json_str(text: &str) -> (r: Result<Json, String>)
    ensures
        match r {
            Ok(j) => json_from_str(text@) == Ok::<JsonV, Seq<char>>(j@) && wf(j@),
            Err(m) => json_from_str(text@) == Err::<JsonV, Seq<char>>(m@),
        },
{
    match serde_json::from_str::<Value>(text) {
        Ok(v) => Ok(from_value(&v)),
        Err(err) => Err(err.to_string()),
    }
}

/// `serde_json::from_slice::<Value>`. Claims only that the result is the
/// named parse of `bytes`, and that a parsed object never repeats a key.
#[verifier::external_body]
pub fn parse_json_slice(bytes: &[u8]) -> (r: Result<Json, String>)
    ensures
        match r {
            Ok(j) => json_from_slice(bytes@) == Ok::<JsonV, Seq<char>>(j@) && wf(j@),
            Err(m) => json_from_slice(bytes@) == Err::<JsonV, Seq<char>>(m@),
        },
{
    match serde_json::from_slice::<Value>(bytes) {
        Ok(v) => Ok(from_value(&v)),
        Err(err) => Err(err.to_string()),
    }
}

/// `serde_json::to_string_pretty`. Serializing a `Value` cannot fail (its
/// map keys are strings); the result is the named rendering.
#[verifier::external_body]
pub fn render_pretty(j: &Json) -> (r: String)
    ensures
        r@ == json_to_string_pretty(j@),
{
    match serde_json::to_string_pretty(&to_value(j)) {
        Ok(s) => s,
        Err(_) => String::new(),
    }
}

/// `serde_json::to_string` (compact). Cannot fail for a `Value`; the
/// result is the named rendering.
#[verifier::external_body]
pub fn render_compact(j: &Json) -> (r: String)
    ensures
        r@ == json_to_string(j@),
{
    match serde_json::to_string(&to_value(j)) {
        Ok(s) => s,
        Err(_) => String::new(),
    }
}

} // verus!
