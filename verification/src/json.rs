//! JSON documents as the library reads them.
//!
//! Parsing is done by `serde_json`; the library receives the document converted, value for
//! value, into `JsonValue` and works only on that.

use vstd::prelude::*;

verus! {

/// A JSON document. A number keeps its value when it is a non-negative integer that fits in a
/// `u64` (what `serde_json::Value::as_u64` returns, `None` for every other number), and the
/// text `serde_json` writes for it, so that no number is lost.
#[derive(Debug, PartialEq)]
pub enum JsonValue {
    Null,
    Bool(bool),
    Number { as_u64: Option<u64>, text: String },
    Str(String),
    Array(Vec<JsonValue>),
    Object(Vec<(String, JsonValue)>),
}

/// `serde_json::Value`, held opaque.
#[verifier::external_type_specification]
#[verifier::external_body]
pub struct ExSerdeJsonValue(serde_json::Value);

/// The outcome of `serde_json::from_str::<serde_json::Value>` on a text: the document,
/// converted to `JsonValue`, or the text of the error that serde_json reports.
pub uninterp spec fn serde_json_parse(text: Seq<char>) -> Result<JsonValue, Seq<char>>;

/// Converts a `serde_json::Value` into a `JsonValue`, variant for variant; object entries keep
/// the order in which the `serde_json` map yields them.
#[verifier::external_body]
fn json_from_serde(value: &serde_json::Value) -> JsonValue {
    match value {
        serde_json::Value::Null => JsonValue::Null,
        serde_json::Value::Bool(b) => JsonValue::Bool(*b),
        serde_json::Value::Number(n) => JsonValue::Number { as_u64: n.as_u64(), text: n.to_string() },
        serde_json::Value::String(s) => JsonValue::Str(s.clone()),
        serde_json::Value::Array(items) => JsonValue::Array(items.iter().map(json_from_serde).collect()),
        serde_json::Value::Object(map) => JsonValue::Object(
            map.iter().map(|(k, v)| (k.clone(), json_from_serde(v))).collect(),
        ),
    }
}

/// Parses `text` with `serde_json::from_str`: the result is the document, converted, or the
/// text of serde_json's error; both are what `serde_json_parse` names for this text.
#[verifier::external_body]
pub(crate) fn parse_json(text: &str) -> (r: Result<JsonValue, String>)
    ensures
        match r {
            Ok(v) => serde_json_parse(text@) == Ok::<JsonValue, Seq<char>>(v),
            Err(e) => serde_json_parse(text@) == Err::<JsonValue, Seq<char>>(e@),
        },
{
    match serde_json::from_str::<serde_json::Value>(text) {
        Ok(value) => Ok(json_from_serde(&value)),
        Err(error) => Err(error.to_string()),
    }
}

/// The value of the first entry of `entries` whose key is `key`.
pub open spec fn lookup(entries: Seq<(String, JsonValue)>, key: Seq<char>) -> Option<JsonValue>
    decreases entries.len(),
{
    if entries.len() == 0 {
        None
    } else if entries[0].0@ == key {
        Some(entries[0].1)
    } else {
        lookup(entries.drop_first(), key)
    }
}

/// `value.get(key)`: the member `key` of an object; `None` for other values.
pub open spec fn get_spec(value: JsonValue, key: Seq<char>) -> Option<JsonValue> {
    match value {
        JsonValue::Object(entries) => lookup(entries@, key),
        _ => None,
    }
}

/// `get_spec` on an optional value.
pub open spec fn get_opt(value: Option<JsonValue>, key: Seq<char>) -> Option<JsonValue> {
    match value {
        Some(v) => get_spec(v, key),
        None => None,
    }
}

/// `Value::as_str` on an optional value.
pub open spec fn str_opt(value: Option<JsonValue>) -> Option<Seq<char>> {
    match value {
        Some(JsonValue::Str(s)) => Some(s@),
        _ => None,
    }
}

/// `Value::as_u64` on an optional value.
pub open spec fn u64_opt(value: Option<JsonValue>) -> Option<u64> {
    match value {
        Some(JsonValue::Number { as_u64, .. }) => as_u64,
        _ => None,
    }
}

/// `Value::as_array` on an optional value, with an absent array taken as empty.
pub open spec fn array_or_empty(value: Option<JsonValue>) -> Seq<JsonValue> {
    match value {
        Some(JsonValue::Array(items)) => items@,
        _ => Seq::empty(),
    }
}

/// Whether a value is a JSON object.
pub open spec fn is_object(value: JsonValue) -> bool {
    value is Object
}

impl JsonValue {
    /// The member `key` of an object, as `serde_json::Value::get` returns it.
    pub fn get(&self, key: &str) -> (r: Option<&JsonValue>)
        ensures
            match r {
                Some(v) => get_spec(*self, key@) == Some(*v),
                None => get_spec(*self, key@) is None,
            },
    {
        match self {
            JsonValue::Object(entries) => {
                let mut i: usize = 0;
                assert(entries@.skip(0) =~= entries@);
                while i < entries.len()
                    invariant
                        i <= entries@.len(),
                        get_spec(*self, key@) == lookup(entries@.skip(i as int), key@),
                    decreases entries@.len() - i,
                {
                    let ghost rest = entries@.skip(i as int);
                    assert(rest.len() > 0 && rest[0] == entries@[i as int]);
                    let entry = &entries[i];
                    if str_equal(entry.0.as_str(), key) {
                        assert(lookup(rest, key@) == Some(rest[0].1));
                        assert(get_spec(*self, key@) == Some(entry.1));
                        return Some(&entry.1);
                    }
                    assert(rest.drop_first() =~= entries@.skip(i + 1));
                    i = i + 1;
                }
                None
            },
            _ => None,
        }
    }

    /// The text of a JSON string.
    pub fn as_str(&self) -> (r: Option<&str>)
        ensures
            match r {
                Some(s) => *self is Str && s@ == self->Str_0@,
                None => !(*self is Str),
            },
    {
        match self {
            JsonValue::Str(s) => Some(s.as_str()),
            _ => None,
        }
    }

    /// The value of a non-negative integer that fits in a `u64`.
    pub fn as_u64(&self) -> (r: Option<u64>)
        ensures
            r == u64_opt(Some(*self)),
    {
        match self {
            JsonValue::Number { as_u64, .. } => *as_u64,
            _ => None,
        }
    }

    /// The items of a JSON array.
    pub fn as_array(&self) -> (r: Option<&Vec<JsonValue>>)
        ensures
            match r {
                Some(items) => *self is Array && items@ == self->Array_0@,
                None => !(*self is Array),
            },
    {
        match self {
            JsonValue::Array(items) => Some(items),
            _ => None,
        }
    }

    /// Whether this is `null`.
    pub fn is_null(&self) -> (r: bool)
        ensures
            r == (*self is Null),
    {
        match self {
            JsonValue::Null => true,
            _ => false,
        }
    }

    /// Whether this is a JSON object.
    pub fn is_object(&self) -> (r: bool)
        ensures
            r == is_object(*self),
    {
        match self {
            JsonValue::Object(_) => true,
            _ => false,
        }
    }
}

/// Whether two texts are equal.
pub fn str_equal(a: &str, b: &str) -> (r: bool)
    ensures
        r == (a@ == b@),
{
    let x = a.to_owned();
    let y = b.to_owned();
    x == y
}

} // verus!
