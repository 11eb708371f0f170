//! JSON documents as `serde_json` reads them: a mathematical model of a
//! parsed document, and the calls through which the library reads one.
//!
//! The two type declarations, the two spec functions without a body and the
//! functions of this module say what `serde_json` does. None of that is
//! proved: it is taken on trust.

use crate::double::Double;
use vstd::prelude::*;

verus! {

/// `serde_json::Value`, a parsed JSON document. What one holds is read
/// through [`json_tree`] only.
#[verifier::external_type_specification]
#[verifier::external_body]
pub struct ExValue(serde_json::Value);

/// `serde_json::Error`, the error of the JSON reader.
#[verifier::external_type_specification]
#[verifier::external_body]
pub struct ExError(serde_json::Error);

/// A number of a JSON document, as the two readings that the library takes
/// of it.
pub struct JsonNumber {
    /// The number as an integer, where it was written as one and an `i64`
    /// holds it.
    pub integer: Option<i64>,
    /// The number as a binary64 value.
    pub double: Double,
}

/// What a parsed JSON document holds.
pub enum JsonTree {
    Null,
    Bool(bool),
    Number(JsonNumber),
    Text(Seq<char>),
    Array(Seq<JsonTree>),
    Object(Map<Seq<char>, JsonTree>),
}

impl JsonTree {
    /// The member `name` of an object.
    pub open spec fn field(self, name: Seq<char>) -> Option<JsonTree> {
        match self {
            JsonTree::Object(members) => if members.contains_key(name) {
                Some(members[name])
            } else {
                None
            },
            _ => None,
        }
    }

    /// Whether this is `null`.
    pub open spec fn is_null(self) -> bool {
        self is Null
    }

    /// The boolean, where this is one.
    pub open spec fn as_flag(self) -> Option<bool> {
        match self {
            JsonTree::Bool(b) => Some(b),
            _ => None,
        }
    }

    /// The number, where it is an integer that an `i64` holds.
    pub open spec fn as_integer(self) -> Option<i64> {
        match self {
            JsonTree::Number(n) => n.integer,
            _ => None,
        }
    }

    /// The number as a binary64 value: every JSON number has one.
    pub open spec fn as_double(self) -> Option<Double> {
        match self {
            JsonTree::Number(n) => Some(n.double),
            _ => None,
        }
    }

    /// The string, where this is one.
    pub open spec fn as_text(self) -> Option<Seq<char>> {
        match self {
            JsonTree::Text(s) => Some(s),
            _ => None,
        }
    }

    /// The items, where this is an array.
    pub open spec fn as_items(self) -> Option<Seq<JsonTree>> {
        match self {
            JsonTree::Array(items) => Some(items),
            _ => None,
        }
    }
}

/// What a `serde_json::Value` holds.
pub uninterp spec fn json_tree(v: serde_json::Value) -> JsonTree;

/// The document that `serde_json::from_str` reads from a text as a
/// `serde_json::Value`, or `None` where it reports an error.
pub uninterp spec fn json_of_text(text: Seq<char>) -> Option<JsonTree>;

/// `serde_json::from_str::<serde_json::Value>`: returns the document that the
/// text holds, or an error where the text is not one JSON value. The result
/// depends on the text alone.
#[verifier::external_body]
pub(crate) fn parse_value(text: &str) -> (r: Result<serde_json::Value, serde_json::Error>)
    ensures
        match r {
            Ok(v) => json_of_text(text@) == Some(json_tree(v)),
            Err(_) => json_of_text(text@) is None,
        },
{
    serde_json::from_str::<serde_json::Value>(text)
}

/// `serde_json::Error`'s `Display`: the error in words, with its line and
/// column. Nothing is claimed of the text.
#[verifier::external_body]
pub(crate) fn describe(e: &serde_json::Error) -> String {
    e.to_string()
}

/// `serde_json::Value::get` with a string: the member of that name where the
/// value is an object that has one, else `None`.
#[verifier::external_body]
pub(crate) fn member<'a>(v: &'a serde_json::Value, name: &str) -> (r: Option<
    &'a serde_json::Value,
>)
    ensures
        match r {
            Some(found) => json_tree(*v).field(name@) == Some(json_tree(*found)),
            None => json_tree(*v).field(name@) is None,
        },
{
    v.get(name)
}

/// `serde_json::Value::is_null`.
#[verifier::external_body]
pub(crate) fn is_null(v: &serde_json::Value) -> (r: bool)
    ensures
        r == json_tree(*v).is_null(),
{
    v.is_null()
}

/// `serde_json::Value::as_bool`: the boolean, where the value is one.
#[verifier::external_body]
pub(crate) fn as_flag(v: &serde_json::Value) -> (r: Option<bool>)
    ensures
        r == json_tree(*v).as_flag(),
{
    v.as_bool()
}

/// `serde_json::Value::as_i64`: the integer, where the value is a number
/// that is held as an integer and that an `i64` holds.
#[verifier::external_body]
pub(crate) fn as_integer(v: &serde_json::Value) -> (r: Option<i64>)
    ensures
        r == json_tree(*v).as_integer(),
{
    v.as_i64()
}

/// `serde_json::Value::as_f64`: the number as a binary64 value, where the
/// value is a number; handed on by its bit pattern.
#[verifier::external_body]
pub(crate) fn as_double(v: &serde_json::Value) -> (r: Option<Double>)
    ensures
        r == json_tree(*v).as_double(),
{
    match v.as_f64() {
        Some(x) => Some(Double { bits: x.to_bits() }),
        None => None,
    }
}

/// `serde_json::Value::as_str`: the string, where the value is one; copied.
#[verifier::external_body]
pub(crate) fn as_text(v: &serde_json::Value) -> (r: Option<String>)
    ensures
        r.deep_view() == json_tree(*v).as_text(),
{
    match v.as_str() {
        Some(s) => Some(s.to_owned()),
        None => None,
    }
}

/// `serde_json::Value::as_array`: the items, where the value is an array.
#[verifier::external_body]
pub(crate) fn as_items<'a>(v: &'a serde_json::Value) -> (r: Option<&'a Vec<serde_json::Value>>)
    ensures
        match r {
            Some(items) => json_tree(*v).as_items() == Some(
                items@.map_values(|item: serde_json::Value| json_tree(item)),
            ),
            None => json_tree(*v).as_items() is None,
        },
{
    v.as_array()
}

} // verus!
