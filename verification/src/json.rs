//! JSON values, as plain data.

use crate::error::Error;
use serde_json::Error as JsonError;
use vstd::prelude::*;

verus! {

#[verifier::external_type_specification]
#[verifier::external_body]
pub struct ExValue(serde_json::Value);

/// A JSON number: a non-negative integer, a negative integer, or a number
/// with a fraction or an exponent.
#[derive(Clone, Copy, Debug, PartialEq, Eq, Structural)]
pub enum JsonNumber {
    PosInt(u64),
    NegInt(i64),
    Float,
}

/// A JSON value.  An object keeps its members in the order the parser
/// gives them, each key once.
#[derive(Debug)]
pub enum JsonValue {
    Null,
    Bool(bool),
    Number(JsonNumber),
    Str(String),
    Array(Vec<JsonValue>),
    Object(Vec<(String, JsonValue)>),
}

/// What `serde_json::from_str::<serde_json::Value>` gives for a text,
/// `None` where it reports an error.
pub uninterp spec fn json_parse(text: Seq<char>) -> Option<JsonValue>;

/// Calls `serde_json::from_str` into a `serde_json::Value` and converts the
/// value, member by member, into a `JsonValue`.  The contract claims that
/// success and the value depend on the text alone; what the parser accepts
/// is left to the name.
#[verifier::external_body]
fn parse_value(text: &str) -> (r: Result<JsonValue, JsonError>)
    ensures
        match r {
            Ok(v) => json_parse(text@) == Some(v),
            Err(_) => json_parse(text@) is None,
        },
{
    serde_json::from_str::<serde_json::Value>(text).map(from_serde)
}

/// Converts a `serde_json::Value`, variant by variant.
#[verifier::external_body]
fn from_serde(v: serde_json::Value) -> JsonValue {
    match v {
        serde_json::Value::Null => JsonValue::Null,
        serde_json::Value::Bool(b) => JsonValue::Bool(b),
        serde_json::Value::Number(n) => JsonValue::Number(
            match (n.as_u64(), n.as_i64()) {
                (Some(u), _) => JsonNumber::PosInt(u),
                (None, Some(i)) => JsonNumber::NegInt(i),
                (None, None) => JsonNumber::Float,
            },
        ),
        serde_json::Value::String(s) => JsonValue::Str(s),
        serde_json::Value::Array(a) => JsonValue::Array(a.into_iter().map(from_serde).collect()),
        serde_json::Value::Object(m) => JsonValue::Object(m.into_iter().map(|(k, x)| (k, from_serde(x))).collect()),
    }
}

/// Parses a JSON text; a text that is not JSON gives `Error::Json`.
pub fn parse(text: &str) -> (r: Result<JsonValue, Error>)
    ensures
        match r {
            Ok(v) => json_parse(text@) == Some(v),
            Err(e) => json_parse(text@) is None && e is Json,
        },
{
    match parse_value(text) {
        Ok(v) => Ok(v),
        Err(e) => Err(Error::Json(e)),
    }
}

/// The value `Null`, which indexing gives for what is absent.
pub open spec fn null_value() -> JsonValue {
    JsonValue::Null
}

/// Index of the first member named `key` at or after `i`, if any.
pub open spec fn member_index(members: Seq<(String, JsonValue)>, key: Seq<char>, i: int) -> Option<int>
    decreases members.len() - i,
{
    if i < 0 || i >= members.len() {
        None
    } else if members[i].0@ == key {
        Some(i)
    } else {
        member_index(members, key, i + 1)
    }
}

/// `v[key]`: the member named `key` of an object, `Null` otherwise (as
/// indexing a `serde_json::Value` with a text).
pub open spec fn field(v: JsonValue, key: Seq<char>) -> JsonValue {
    match v {
        JsonValue::Object(members) => match member_index(members@, key, 0) {
            Some(i) => members@[i].1,
            None => JsonValue::Null,
        },
        _ => JsonValue::Null,
    }
}

/// `v[i]`: element `i` of an array, `Null` otherwise (as indexing a
/// `serde_json::Value` with a number).
pub open spec fn element(v: JsonValue, i: int) -> JsonValue {
    match v {
        JsonValue::Array(items) => if 0 <= i < items@.len() {
            items@[i]
        } else {
            JsonValue::Null
        },
        _ => JsonValue::Null,
    }
}

/// The text of a string value (as `Value::as_str`).
pub open spec fn as_text(v: JsonValue) -> Option<Seq<char>> {
    match v {
        JsonValue::Str(s) => Some(s@),
        _ => None,
    }
}

/// The elements of an array value (as `Value::as_array`).
pub open spec fn as_items(v: JsonValue) -> Option<Seq<JsonValue>> {
    match v {
        JsonValue::Array(items) => Some(items@),
        _ => None,
    }
}

/// An integer value that fits in `i64` (as `Value::as_i64`).
pub open spec fn as_int(v: JsonValue) -> Option<i64> {
    match v {
        JsonValue::Number(JsonNumber::PosInt(u)) => if u <= i64::MAX {
            Some(u as i64)
        } else {
            None
        },
        JsonValue::Number(JsonNumber::NegInt(i)) => Some(i),
        _ => None,
    }
}

/// A boolean value (as `Value::as_bool`).
pub open spec fn as_flag(v: JsonValue) -> Option<bool> {
    match v {
        JsonValue::Bool(b) => Some(b),
        _ => None,
    }
}

impl JsonValue {
    /// `self[key]`.
    pub fn get(&self, key: &str) -> (r: &JsonValue)
        ensures
            *r == field(*self, key@),
    {
        match self {
            JsonValue::Object(members) => {
                let mut i: usize = 0;
                while i < members.len()
                    invariant
                        *self == JsonValue::Object(*members),
                        i <= members@.len(),
                        member_index(members@, key@, 0) == member_index(members@, key@, i as int),
                    decreases members@.len() - i,
                {
                    if crate::text::text_eq(&members[i].0, key) {
                        proof {
                            assert(member_index(members@, key@, i as int) == Some(i as int));
                        }
                        return &members[i].1;
                    }
                    i = i + 1;
                }
                &JsonValue::Null
            },
            _ => &JsonValue::Null,
        }
    }

    /// `self[i]`.
    pub fn at(&self, i: usize) -> (r: &JsonValue)
        ensures
            *r == element(*self, i as int),
    {
        match self {
            JsonValue::Array(items) => {
                if i < items.len() {
                    &items[i]
                } else {
                    &JsonValue::Null
                }
            },
            _ => &JsonValue::Null,
        }
    }

    /// The text of a string value.
    pub fn as_str(&self) -> (r: Option<&str>)
        ensures
            match r {
                Some(s) => as_text(*self) == Some(s@),
                None => as_text(*self) is None,
            },
    {
        match self {
            JsonValue::Str(s) => Some(s.as_str()),
            _ => None,
        }
    }

    /// The elements of an array value.
    pub fn as_array(&self) -> (r: Option<&Vec<JsonValue>>)
        ensures
            match r {
                Some(items) => as_items(*self) == Some(items@),
                None => as_items(*self) is None,
            },
    {
        match self {
            JsonValue::Array(items) => Some(items),
            _ => None,
        }
    }

    /// An integer value that fits in `i64`.
    pub fn as_i64(&self) -> (r: Option<i64>)
        ensures
            r == as_int(*self),
    {
        match self {
            JsonValue::Number(JsonNumber::PosInt(u)) => {
                if *u <= 9223372036854775807u64 {
                    Some(*u as i64)
                } else {
                    None
                }
            },
            JsonValue::Number(JsonNumber::NegInt(i)) => Some(*i),
            _ => None,
        }
    }

    /// A boolean value.
    pub fn as_bool(&self) -> (r: Option<bool>)
        ensures
            r == as_flag(*self),
    {
        match self {
            JsonValue::Bool(b) => Some(*b),
            _ => None,
        }
    }

    /// Whether the value is the string `s` (as `Value == &str`).
    pub fn is_text(&self, s: &str) -> (r: bool)
        ensures
            r == (as_text(*self) == Some(s@)),
    {
        match self {
            JsonValue::Str(t) => crate::text::text_eq(t.as_str(), s),
            _ => false,
        }
    }
}

} // verus!
