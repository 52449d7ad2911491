//! Reading JSON values as `serde_json` holds them.

use serde_json::Value;
use vstd::prelude::*;

verus! {

/// A JSON value.
#[verifier::external_type_specification]
#[verifier::external_body]
pub struct ExValue(serde_json::Value);

/// The members of a JSON object.
#[verifier::external_type_specification]
#[verifier::external_body]
#[verifier::reject_recursive_types(K)]
#[verifier::reject_recursive_types(V)]
pub struct ExMap<K, V>(serde_json::Map<K, V>);

/// The members of an object, each a name and a value, in the order of the object's iterator.
pub type Members = Seq<(Seq<char>, Value)>;

/// What a JSON value holds, as far as it is text or an object.
pub enum JsonContent {
    Text(Seq<char>),
    Object(Members),
    Other,
}

/// What a JSON value holds.
pub uninterp spec fn json_content(value: Value) -> JsonContent;

/// What a JSON object holds.
pub uninterp spec fn json_members(map: serde_json::Map<String, Value>) -> Seq<(Seq<char>, Value)>;

/// Whether no two members have one name.
pub open spec fn distinct_names(members: Members) -> bool {
    forall|i: int, j: int|
        0 <= i < j < members.len() ==> (#[trigger] members[i]).0 != (#[trigger] members[j]).0
}

/// The value of the first member with a name.
pub open spec fn member(members: Members, name: Seq<char>) -> Option<Value>
    decreases members.len(),
{
    if members.len() == 0 {
        None
    } else if members[0].0 == name {
        Some(members[0].1)
    } else {
        member(members.skip(1), name)
    }
}

/// The text of a value that is text.
pub open spec fn content_text(content: JsonContent) -> Option<Seq<char>> {
    match content {
        JsonContent::Text(text) => Some(text),
        _ => None,
    }
}

/// A JSON value taken apart.
pub enum JsonRef<'a> {
    Text(&'a str),
    Object(&'a serde_json::Map<String, Value>),
    Other,
}

impl<'a> JsonRef<'a> {
    /// What the value holds.
    pub open spec fn content(self) -> JsonContent {
        match self {
            JsonRef::Text(text) => JsonContent::Text(text@),
            JsonRef::Object(map) => JsonContent::Object(json_members(*map)),
            JsonRef::Other => JsonContent::Other,
        }
    }

    /// The text of a value that is text.
    pub fn text(self) -> (r: Option<&'a str>)
        ensures
            r.deep_view() == content_text(self.content()),
    {
        match self {
            JsonRef::Text(text) => Some(text),
            _ => None,
        }
    }
}

/// Tells the variants of `serde_json::Value` apart: text and objects by what they hold, all other
/// values together.
#[verifier::external_body]
pub(crate) fn json_ref(value: &Value) -> (r: JsonRef<'_>)
    ensures
        r.content() == json_content(*value),
{
    match value {
        Value::Null => JsonRef::Other,
        Value::Bool(_) => JsonRef::Other,
        Value::Number(_) => JsonRef::Other,
        Value::String(text) => JsonRef::Text(text),
        Value::Array(_) => JsonRef::Other,
        Value::Object(map) => JsonRef::Object(map),
    }
}

/// Calls `serde_json::Map::get`: the value of the member with the name, if the object has such a
/// member.
#[verifier::external_body]
pub(crate) fn json_member<'a>(
    map: &'a serde_json::Map<String, Value>,
    name: &str,
) -> (r: Option<&'a Value>)
    ensures
        r is Some <==> member(json_members(*map), name@) is Some,
        r matches Some(value) ==> member(json_members(*map), name@) == Some(*value),
{
    map.get(name)
}

/// Calls `serde_json::Map::iter` and collects what it yields: every member once, in the order of
/// the iterator. No two of them have one name.
#[verifier::external_body]
pub(crate) fn json_entries(map: &serde_json::Map<String, Value>) -> (r: Vec<(&str, &Value)>)
    ensures
        r.len() == json_members(*map).len(),
        forall|i: int|
            0 <= i < r.len() ==> (#[trigger] r[i]).0@ == json_members(*map)[i].0 && *r[i].1
                == json_members(*map)[i].1,
        forall|i: int, j: int|
            0 <= i < j < r.len() ==> (#[trigger] r[i]).0@ != (#[trigger] r[j]).0@,
{
    map.iter().map(|(name, value)| (name.as_str(), value)).collect()
}

/// The copy that `<serde_json::Value as Clone>::clone` makes is the same value.
pub assume_specification[ <Value as Clone>::clone ](value: &Value) -> (r: Value)
    ensures
        r == *value,
;

} // verus!
