//! JSON documents, as `serde_json` reads them.

use vstd::prelude::*;

verus! {

/// What a JSON value is. Of a number only this is kept: its value, where it is
/// an integer that fits in an `i64`.
pub enum JsonTree {
    Null,
    Bool(bool),
    Number(Option<i64>),
    Text(Seq<char>),
    Array(Seq<JsonTree>),
    Object(Map<Seq<char>, JsonTree>),
}

/// The member of an object with the given name; null where there is none.
pub open spec fn member_of(tree: JsonTree, key: Seq<char>) -> JsonTree {
    match tree {
        JsonTree::Object(members) => if members.dom().contains(key) {
            members[key]
        } else {
            JsonTree::Null
        },
        _ => JsonTree::Null,
    }
}

/// The elements of an array.
pub open spec fn elements_of(tree: JsonTree) -> Option<Seq<JsonTree>> {
    match tree {
        JsonTree::Array(items) => Some(items),
        _ => None,
    }
}

/// The text of a JSON string.
pub open spec fn text_in(tree: JsonTree) -> Option<Seq<char>> {
    match tree {
        JsonTree::Text(t) => Some(t),
        _ => None,
    }
}

/// The value of a number that is an integer and fits in an `i64`.
pub open spec fn integer_in(tree: JsonTree) -> Option<i64> {
    match tree {
        JsonTree::Number(n) => n,
        _ => None,
    }
}

/// A parsed JSON value.
#[verifier::external_type_specification]
#[verifier::external_body]
pub struct ExValue(serde_json::Value);

/// What a parsed value holds.
pub uninterp spec fn json_of(value: serde_json::Value) -> JsonTree;

/// What `serde_json::from_str` makes of a text; none where it is no JSON.
pub uninterp spec fn json_in_text(text: Seq<char>) -> Option<JsonTree>;

/// What `serde_json::from_slice` makes of bytes; none where they are no JSON.
pub uninterp spec fn json_in_bytes(bytes: Seq<u8>) -> Option<JsonTree>;

/// What parsed values of a list hold.
pub open spec fn json_list(values: Seq<serde_json::Value>) -> Seq<JsonTree> {
    Seq::new(values.len(), |i: int| json_of(values[i]))
}

/// `serde_json::from_str` reads a whole text as one JSON value. What it reads
/// there depends on the text alone, and is given a name.
#[verifier::external_body]
pub(crate) fn parse_text(text: &str) -> (r: Option<serde_json::Value>)
    ensures
        r is Some <==> json_in_text(text@) is Some,
        r matches Some(v) ==> json_in_text(text@) == Some(json_of(v)),
{
    serde_json::from_str::<serde_json::Value>(text).ok()
}

/// `serde_json::from_slice` reads bytes as one JSON value. What it reads there
/// depends on the bytes alone, and is given a name.
#[verifier::external_body]
pub(crate) fn parse_bytes(bytes: &[u8]) -> (r: Option<serde_json::Value>)
    ensures
        r is Some <==> json_in_bytes(bytes@) is Some,
        r matches Some(v) ==> json_in_bytes(bytes@) == Some(json_of(v)),
{
    serde_json::from_slice::<serde_json::Value>(bytes).ok()
}

/// Indexing a `serde_json::Value` by a string gives the member of that name,
/// and null where the value is no object or has no such member.
#[verifier::external_body]
pub(crate) fn member<'a>(value: &'a serde_json::Value, key: &str) -> (r: &'a serde_json::Value)
    ensures
        json_of(*r) == member_of(json_of(*value), key@),
{
    &value[key]
}

/// `serde_json::Value::as_array` gives the elements of an array, and nothing
/// for other values.
#[verifier::external_body]
pub(crate) fn elements(value: &serde_json::Value) -> (r: Option<&Vec<serde_json::Value>>)
    ensures
        r is Some <==> elements_of(json_of(*value)) is Some,
        r matches Some(items) ==> elements_of(json_of(*value)) == Some(json_list(items@)),
{
    value.as_array()
}

/// `serde_json::Value::as_str` gives the text of a string, and nothing for
/// other values.
#[verifier::external_body]
pub(crate) fn text_value(value: &serde_json::Value) -> (r: Option<&str>)
    ensures
        r is Some <==> text_in(json_of(*value)) is Some,
        r matches Some(t) ==> text_in(json_of(*value)) == Some(t@),
{
    value.as_str()
}

/// `serde_json::Value::as_i64` gives the value of an integer that fits in an
/// `i64`, and nothing for other values.
#[verifier::external_body]
pub(crate) fn integer_value(value: &serde_json::Value) -> (r: Option<i64>)
    ensures
        r == integer_in(json_of(*value)),
{
    value.as_i64()
}

} // verus!
