//! JSON documents as the library reads them: the parsed value, and lookups
//! of object members.
use vstd::prelude::*;
use crate::text::str_eq;

verus! {

/// A JSON value.  Integers that fit in `i64` keep their value; other numbers
/// are only known to be numbers.  An object lists its members in the order
/// of its keys.
#[derive(Debug)]
pub enum JsonValue {
    Null,
    Bool(bool),
    Int(i64),
    OtherNumber,
    Str(String),
    Array(Vec<JsonValue>),
    Object(Vec<(String, JsonValue)>),
}

#[verifier::external_type_specification]
#[verifier::external_body]
pub struct ExJsonValue(serde_json::Value);

/// The value that `serde_json` reads from a text, or `None` when the text is
/// not one JSON document.
pub uninterp spec fn json_parse(text: Seq<char>) -> Option<JsonValue>;

/// Calls `serde_json::from_str::<serde_json::Value>` and converts the value
/// one for one.  The contract only names the result: what `serde_json`
/// accepts and how it reads numbers takes pages to state.
#[verifier::external_body]
pub fn parse_json(text: &str) -> (r: Option<JsonValue>)
    ensures
        r == json_parse(text@),
{
    serde_json::from_str::<serde_json::Value>(text).ok().map(json_value_of)
}

/// The conversion inside [`parse_json`]: each `serde_json::Value` variant
/// to the variant of the same name, numbers through `as_i64`.
#[verifier::external_body]
fn json_value_of(v: serde_json::Value) -> JsonValue {
    match v {
        serde_json::Value::Null => JsonValue::Null,
        serde_json::Value::Bool(b) => JsonValue::Bool(b),
        serde_json::Value::Number(n) => match n.as_i64() {
            Some(i) => JsonValue::Int(i),
            None => JsonValue::OtherNumber,
        },
        serde_json::Value::String(s) => JsonValue::Str(s),
        serde_json::Value::Array(a) => JsonValue::Array(a.into_iter().map(json_value_of).collect()),
        serde_json::Value::Object(o) => JsonValue::Object(
            o.into_iter().map(|(k, x)| (k, json_value_of(x))).collect(),
        ),
    }
}

/// The value of the first member named `key`.
pub open spec fn json_lookup(fields: Seq<(String, JsonValue)>, key: Seq<char>) -> Option<JsonValue>
    decreases fields.len(),
{
    if fields.len() == 0 {
        None
    } else if fields[0].0@ == key {
        Some(fields[0].1)
    } else {
        json_lookup(fields.drop_first(), key)
    }
}

/// The member `key` of an object; `None` for other values.
pub open spec fn json_member(v: JsonValue, key: Seq<char>) -> Option<JsonValue> {
    match v {
        JsonValue::Object(fields) => json_lookup(fields@, key),
        _ => None,
    }
}

/// The integer that a value holds, if it is one that fits in `i64`.
pub open spec fn json_int(v: Option<JsonValue>) -> Option<i64> {
    match v {
        Some(JsonValue::Int(i)) => Some(i),
        _ => None,
    }
}

/// The member `key` of `v` when `v` is an object that has one.
pub fn json_get<'a>(v: &'a JsonValue, key: &str) -> (r: Option<&'a JsonValue>)
    ensures
        match r {
            Some(x) => json_member(*v, key@) == Some(*x),
            None => json_member(*v, key@) is None,
        },
{
    match v {
        JsonValue::Object(fields) => {
            let mut i: usize = 0;
            assert(fields@.skip(0) =~= fields@);
            while i < fields.len()
                invariant
                    i <= fields@.len(),
                    json_member(*v, key@) == json_lookup(fields@, key@),
                    json_lookup(fields@, key@) == json_lookup(fields@.skip(i as int), key@),
                decreases fields@.len() - i,
            {
                assert(fields@.skip(i as int)[0] == fields@[i as int]);
                if str_eq(fields[i].0.as_str(), key) {
                    assert(fields@.skip(i as int)[0].0@ == key@);
                    assert(json_lookup(fields@.skip(i as int), key@) == Some(fields@[i as int].1));
                    return Some(&fields[i].1);
                }
                assert(fields@.skip(i as int).drop_first() =~= fields@.skip(i + 1));
                i = i + 1;
            }
            None
        },
        _ => None,
    }
}

/// The integer that a value holds, if it is one that fits in `i64`.
pub fn json_as_int(v: Option<&JsonValue>) -> (r: Option<i64>)
    ensures
        r == json_int(
            match v {
                Some(x) => Some(*x),
                None => None,
            },
        ),
{
    match v {
        Some(JsonValue::Int(i)) => Some(*i),
        _ => None,
    }
}

} // verus!
