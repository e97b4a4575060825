//! JSON documents as plain values, and the typed reading of the fields that the
//! adapters take from tool output.

use vstd::prelude::*;

use crate::text::str_eq;

verus! {

/// A JSON value. Object members keep the order and the one value per key that the
/// parser produced.
#[derive(Debug)]
pub enum JsonValue {
    Null,
    Bool(bool),
    Number(String),
    Text(String),
    Array(Vec<JsonValue>),
    Object(Vec<(String, JsonValue)>),
}

/// `serde_json::Value`, declared so that the parsing wrapper can hold one; nothing
/// inside it is visible.
#[verifier::external_type_specification]
#[verifier::external_body]
pub struct ExJsonDocument(serde_json::Value);

/// What `serde_json` parses a byte string into, when it parses.
pub uninterp spec fn json_document(bytes: Seq<u8>) -> Option<JsonValue>;

/// `serde_json::from_slice::<serde_json::Value>`: the document the bytes hold, or
/// `None` when they are not one JSON value. Which documents parse, and into what,
/// is left to the name.
#[verifier::external_body]
pub(crate) fn parse_json(bytes: &[u8]) -> (r: Option<JsonValue>)
    ensures
        r == json_document(bytes@),
{
    serde_json::from_slice::<serde_json::Value>(bytes).ok().map(lift)
}

/// Converts a parsed `serde_json::Value` into a `JsonValue`, variant for variant and
/// member for member, keeping the parser's member order; a number keeps the text
/// that `serde_json` prints for it. It has no contract: nothing is claimed of it
/// beyond what `parse_json` claims.
#[verifier::external_body]
fn lift(value: serde_json::Value) -> JsonValue {
    match value {
        serde_json::Value::Null => JsonValue::Null,
        serde_json::Value::Bool(b) => JsonValue::Bool(b),
        serde_json::Value::Number(n) => JsonValue::Number(n.to_string()),
        serde_json::Value::String(s) => JsonValue::Text(s),
        serde_json::Value::Array(items) => JsonValue::Array(items.into_iter().map(lift).collect()),
        serde_json::Value::Object(members) => JsonValue::Object(
            members.into_iter().map(|(k, v)| (k, lift(v))).collect(),
        ),
    }
}

/// The value of the first member named `key`, when `v` is an object that has one.
pub open spec fn member(v: JsonValue, key: Seq<char>) -> Option<JsonValue> {
    match v {
        JsonValue::Object(members) => member_in(members@, key),
        _ => None,
    }
}

pub open spec fn member_in(members: Seq<(String, JsonValue)>, key: Seq<char>) -> Option<JsonValue>
    decreases members.len(),
{
    if members.len() == 0 {
        None
    } else if members[0].0@ == key {
        Some(members[0].1)
    } else {
        member_in(members.drop_first(), key)
    }
}

pub fn get_member<'a>(v: &'a JsonValue, key: &str) -> (r: Option<&'a JsonValue>)
    ensures
        match member(*v, key@) {
            None => r is None,
            Some(m) => r matches Some(x) && *x == m,
        },
{
    match v {
        JsonValue::Object(members) => {
            let mut i: usize = 0;
            assert(members@.subrange(0, members@.len() as int) =~= members@);
            while i < members.len()
                invariant
                    *v == JsonValue::Object(*members),
                    i <= members@.len(),
                    member_in(members@, key@) == member_in(
                        members@.subrange(i as int, members@.len() as int),
                        key@,
                    ),
                decreases members.len() - i,
            {
                let ghost rest = members@.subrange(i as int, members@.len() as int);
                assert(rest[0] == members@[i as int]);
                if str_eq(members[i].0.as_str(), key) {
                    assert(member_in(rest, key@) == Some(members@[i as int].1));
                    let found = &members[i].1;
                    assert(*found == members@[i as int].1);

                    return Some(found);
                }
                assert(rest.drop_first() =~= members@.subrange(i + 1, members@.len() as int));
                i = i + 1;
            }
            None
        },
        _ => None,
    }
}

/// A required string member of a parsed document: present and a JSON string. The
/// document is a parsed value, whose object keeps one value per key (the parser's),
/// so a repeated key is not refused here.
pub open spec fn text_field(v: JsonValue, key: Seq<char>) -> Option<Seq<char>> {
    match member(v, key) {
        Some(JsonValue::Text(s)) => Some(s@),
        _ => None,
    }
}

/// An optional string member of a parsed document: absent or `null` is `None`, a
/// string is `Some`, anything else fails the whole document. As above, a repeated key
/// is not refused here.
pub open spec fn opt_text_field(v: JsonValue, key: Seq<char>) -> Result<Option<Seq<char>>, ()> {
    match member(v, key) {
        None => Ok(None),
        Some(JsonValue::Null) => Ok(None),
        Some(JsonValue::Text(s)) => Ok(Some(s@)),
        _ => Err(()),
    }
}

/// A required boolean member.
pub open spec fn bool_field(v: JsonValue, key: Seq<char>) -> Option<bool> {
    match member(v, key) {
        Some(JsonValue::Bool(b)) => Some(b),
        _ => None,
    }
}

/// An optional boolean member, as an `Option<bool>` field reads it.
pub open spec fn opt_bool_field(v: JsonValue, key: Seq<char>) -> Result<Option<bool>, ()> {
    match member(v, key) {
        None => Ok(None),
        Some(JsonValue::Null) => Ok(None),
        Some(JsonValue::Bool(b)) => Ok(Some(b)),
        _ => Err(()),
    }
}

pub open spec fn is_object(v: JsonValue) -> bool {
    v is Object
}

pub fn read_text(v: &JsonValue, key: &str) -> (r: Option<String>)
    ensures
        match text_field(*v, key@) {
            None => r is None,
            Some(s) => r matches Some(t) && t@ == s,
        },
{
    match get_member(v, key) {
        Some(JsonValue::Text(s)) => Some(s.clone()),
        _ => None,
    }
}

pub fn read_opt_text(v: &JsonValue, key: &str) -> (r: Result<Option<String>, ()>)
    ensures
        match opt_text_field(*v, key@) {
            Err(_) => r is Err,
            Ok(None) => r matches Ok(None),
            Ok(Some(s)) => r matches Ok(Some(t)) && t@ == s,
        },
{
    match get_member(v, key) {
        None => Ok(None),
        Some(JsonValue::Null) => Ok(None),
        Some(JsonValue::Text(s)) => Ok(Some(s.clone())),
        _ => Err(()),
    }
}

pub fn read_bool(v: &JsonValue, key: &str) -> (r: Option<bool>)
    ensures
        r == bool_field(*v, key@),
{
    match get_member(v, key) {
        Some(JsonValue::Bool(b)) => Some(*b),
        _ => None,
    }
}

pub fn read_opt_bool(v: &JsonValue, key: &str) -> (r: Result<Option<bool>, ()>)
    ensures
        r == opt_bool_field(*v, key@),
{
    match get_member(v, key) {
        None => Ok(None),
        Some(JsonValue::Null) => Ok(None),
        Some(JsonValue::Bool(b)) => Ok(Some(*b)),
        _ => Err(()),
    }
}

} // verus!
