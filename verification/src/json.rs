//! JSON values as plain data, as far as the source announcements read them.
//!
//! Parsing is `serde_json`'s; a parsed value is handed on as a [`JsonValue`],
//! with each number kept as what `as_u64` gives for it and each object's
//! entries in the order `serde_json`'s map yields them.

use vstd::prelude::*;

verus! {

#[verifier::external_type_specification]
#[verifier::external_body]
pub struct ExJsonValue(serde_json::Value);

/// A JSON value.
#[derive(Debug)]
pub enum JsonValue {
    Null,
    Bool(bool),
    /// A number, with its value when it is a non-negative integer that fits
    /// in a `u64`.
    Number(Option<u64>),
    Str(String),
    Array(Vec<JsonValue>),
    Object(Vec<(String, JsonValue)>),
}

/// What `serde_json::from_str::<serde_json::Value>` reads from a text;
/// `None` when it refuses the text.
pub uninterp spec fn serde_value_of(text: Seq<char>) -> Option<serde_json::Value>;

/// A `serde_json::Value` as a [`JsonValue`]: variant for variant, each number
/// as `as_u64` gives it, each object's entries in the order its map yields
/// them, nested values alike.
pub uninterp spec fn json_view(v: serde_json::Value) -> JsonValue;

/// What `serde_json` reads from a text, as a [`JsonValue`]; `None` when it
/// refuses the text.
pub open spec fn json_of(text: Seq<char>) -> Option<JsonValue> {
    match serde_value_of(text) {
        Some(v) => Some(json_view(v)),
        None => None,
    }
}

/// The value of the first entry keyed `key`.
pub open spec fn entry_value(kvs: Seq<(String, JsonValue)>, key: Seq<char>) -> Option<JsonValue>
    decreases kvs.len(),
{
    if kvs.len() == 0 {
        None
    } else {
        match entry_value(kvs.drop_last(), key) {
            Some(v) => Some(v),
            None => if kvs.last().0@ == key {
                Some(kvs.last().1)
            } else {
                None
            },
        }
    }
}

/// `value[key]`: the entry of an object, or `Null`.
pub open spec fn json_get(v: JsonValue, key: Seq<char>) -> JsonValue {
    match v {
        JsonValue::Object(kvs) => match entry_value(kvs@, key) {
            Some(x) => x,
            None => JsonValue::Null,
        },
        _ => JsonValue::Null,
    }
}

/// `value[i]`: the element of an array, or `Null`.
pub open spec fn json_at(v: JsonValue, i: int) -> JsonValue {
    match v {
        JsonValue::Array(xs) => if 0 <= i < xs@.len() {
            xs@[i]
        } else {
            JsonValue::Null
        },
        _ => JsonValue::Null,
    }
}

/// Trusted: converts a `serde_json::Value` variant for variant (numbers by
/// `as_u64`, objects in their map's order, nested values by the same
/// conversion). Claims the result depends on the value alone (named
/// [`json_view`]).
#[verifier::external_body]
fn json_from_value(v: &serde_json::Value) -> (r: JsonValue)
    ensures
        r == json_view(*v),
{
    match v {
        serde_json::Value::Null => JsonValue::Null,
        serde_json::Value::Bool(b) => JsonValue::Bool(*b),
        serde_json::Value::Number(n) => JsonValue::Number(n.as_u64()),
        serde_json::Value::String(s) => JsonValue::Str(s.clone()),
        serde_json::Value::Array(a) => JsonValue::Array(a.iter().map(json_from_value).collect()),
        serde_json::Value::Object(m) => JsonValue::Object(
            m.iter().map(|(k, x)| (k.clone(), json_from_value(x))).collect(),
        ),
    }
}

/// Trusted: calls `serde_json::from_str::<serde_json::Value>`. Claims that
/// the outcome depends on the text alone (named [`serde_value_of`]).
#[verifier::external_body]
fn value_of_text(text: &str) -> (r: Option<serde_json::Value>)
    ensures
        r == serde_value_of(text@),
{
    serde_json::from_str::<serde_json::Value>(text).ok()
}

/// Parses `text` as JSON: `None` when `serde_json` refuses it.
pub(crate) fn parse_json(text: &str) -> (r: Option<JsonValue>)
    ensures
        r == json_of(text@),
{
    match value_of_text(text) {
        Some(v) => Some(json_from_value(&v)),
        None => None,
    }
}

/// Looks up `key` in an object; `Null` when it is missing or `v` is no
/// object, as indexing a `serde_json::Value` does.
pub fn get<'a>(v: &'a JsonValue, key: &str) -> (r: Option<&'a JsonValue>)
    ensures
        match r {
            Some(x) => *x == json_get(*v, key@),
            None => json_get(*v, key@) == JsonValue::Null,
        },
        match *v {
            JsonValue::Object(kvs) => match r {
                Some(x) => entry_value(kvs@, key@) == Some(*x),
                None => entry_value(kvs@, key@) is None,
            },
            _ => r is None,
        },
{
    match v {
        JsonValue::Object(kvs) => {
            let k = crate::text::chars_of(key);
            let mut i: usize = 0;
            while i < kvs.len()
                invariant
                    i <= kvs@.len(),
                    k@ == key@,
                    *v == JsonValue::Object(*kvs),
                    entry_value(kvs@.take(i as int), key@) is None,
                decreases kvs@.len() - i,
            {
                assert(kvs@.take(i + 1).drop_last() =~= kvs@.take(i as int));
                let kc = crate::text::chars_of(kvs[i].0.as_str());
                if crate::text::chars_eq(kc.as_slice(), k.as_slice()) {
                    assert(kvs@.take(i + 1).last() == kvs@[i as int]);
                    assert(entry_value(kvs@.take(i + 1), key@) == Some(kvs@[i as int].1));
                    proof {
                        lemma_entry_value_prefix(kvs@, i as int, key@);
                    }
                    assert(entry_value(kvs@, key@) == Some(kvs@[i as int].1));
                    assert(*v == JsonValue::Object(*kvs));
                    assert(json_get(*v, key@) == kvs@[i as int].1);
                    return Some(&kvs[i].1);
                }
                i += 1;
            }
            assert(kvs@.take(i as int) =~= kvs@);
            None
        },
        _ => None,
    }
}

proof fn lemma_entry_value_prefix(kvs: Seq<(String, JsonValue)>, i: int, key: Seq<char>)
    requires
        0 <= i < kvs.len(),
        entry_value(kvs.take(i + 1), key) is Some,
    ensures
        entry_value(kvs, key) == entry_value(kvs.take(i + 1), key),
    decreases kvs.len() - i,
{
    if i + 1 == kvs.len() {
        assert(kvs.take(i + 1) =~= kvs);
    } else {
        assert(kvs.take(i + 2).drop_last() =~= kvs.take(i + 1));
        lemma_entry_value_prefix(kvs, i + 1, key);
    }
}

/// `value[i]` of an array; `None` stands for `Null`.
pub fn at(v: &JsonValue, i: usize) -> (r: Option<&JsonValue>)
    ensures
        match r {
            Some(x) => *x == json_at(*v, i as int),
            None => json_at(*v, i as int) == JsonValue::Null,
        },
{
    match v {
        JsonValue::Array(xs) => {
            if i < xs.len() {
                Some(&xs[i])
            } else {
                None
            }
        },
        _ => None,
    }
}

} // verus!
