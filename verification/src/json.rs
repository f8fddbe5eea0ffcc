//! JSON documents as `serde_json` holds them: what a document says, and what the functions of
//! `serde_json` that this crate calls do to it.

use serde_json::Value;
use vstd::prelude::*;

verus! {

/// What a JSON document says.
pub enum Json {
    Null,
    Bool(bool),
    /// A number, by the text that `serde_json` writes for it.
    Number(Seq<char>),
    Text(Seq<char>),
    Array(Seq<Json>),
    Object(Map<Seq<char>, Json>),
}

/// An object without members.
pub open spec fn no_members() -> Map<Seq<char>, Json> {
    Map::empty()
}

/// The member of an object under `key`, if `json` is an object that has one.
pub open spec fn member(json: Json, key: Seq<char>) -> Option<Json> {
    match json {
        Json::Object(members) => if members.dom().contains(key) {
            Some(members[key])
        } else {
            None
        },
        _ => None,
    }
}

/// The text of a JSON string.
pub open spec fn text_of(json: Json) -> Option<Seq<char>> {
    match json {
        Json::Text(text) => Some(text),
        _ => None,
    }
}

/// The text of the member under `key`, if there is one and it is a string.
pub open spec fn member_text(json: Json, key: Seq<char>) -> Option<Seq<char>> {
    match member(json, key) {
        Some(inner) => text_of(inner),
        None => None,
    }
}

/// The text of the member under `key`, if there is one, it is a string, and not empty.
pub open spec fn filled_text(json: Json, key: Seq<char>) -> Option<Seq<char>> {
    match member_text(json, key) {
        Some(text) => if text.len() > 0 {
            Some(text)
        } else {
            None
        },
        None => None,
    }
}

/// The member that a chain of keys leads to.
pub open spec fn member_at(json: Json, keys: Seq<Seq<char>>) -> Option<Json>
    decreases keys.len(),
{
    if keys.len() == 0 {
        Some(json)
    } else {
        match member(json, keys.first()) {
            Some(inner) => member_at(inner, keys.drop_first()),
            None => None,
        }
    }
}

/// Whether a JSON pointer can hold `key` as it stands, and can only mean a member by it: it
/// has no `/` and no `~`, and it does not start like an array index.
pub open spec fn plain_key(key: Seq<char>) -> bool {
    &&& !key.contains('/')
    &&& !key.contains('~')
    &&& key.len() > 0 ==> !('0' <= key[0] <= '9')
}

/// The JSON pointer that is spelled by a chain of plain keys.
pub open spec fn pointer_text(keys: Seq<Seq<char>>) -> Seq<char>
    decreases keys.len(),
{
    if keys.len() == 0 {
        Seq::empty()
    } else {
        seq!['/'] + keys.first() + pointer_text(keys.drop_first())
    }
}

/// `serde_json::Value`: a JSON document.
#[verifier::external_type_specification]
#[verifier::external_body]
pub struct ExValue(serde_json::Value);

/// `serde_json::Map`: the members of a JSON object.
#[verifier::external_type_specification]
#[verifier::external_body]
#[verifier::reject_recursive_types(K)]
#[verifier::reject_recursive_types(V)]
pub struct ExMap<K, V>(serde_json::Map<K, V>);

/// What a `serde_json::Value` says.
pub uninterp spec fn json_of(value: serde_json::Value) -> Json;

/// The members that a `serde_json::Map` holds.
pub uninterp spec fn members_of(
    object: serde_json::Map<String, serde_json::Value>,
) -> Map<Seq<char>, Json>;

/// What `serde_json::from_str` reads from a text; `None` where it refuses the text.
pub uninterp spec fn json_parse(text: Seq<char>) -> Option<Json>;

/// `serde_json::from_str` into a `Value`: what it reads depends on the text alone. The name
/// `json_parse` stands for the JSON grammar.
#[verifier::external_body]
pub(crate) fn parse_json(text: &str) -> (parsed: Option<Value>)
    ensures
        match parsed {
            Some(value) => json_parse(text@) == Some(json_of(value)),
            None => json_parse(text@) is None,
        },
{
    serde_json::from_str(text).ok()
}

/// `serde_json::Value::get` with a string as the index: the member under that key, and `None`
/// where the value is no object or has no such member.
#[verifier::external_body]
pub(crate) fn value_get<'a>(value: &'a Value, key: &str) -> (found: Option<&'a Value>)
    ensures
        match found {
            Some(inner) => member(json_of(*value), key@) == Some(json_of(*inner)),
            None => member(json_of(*value), key@) is None,
        },
{
    value.get(key)
}

/// `serde_json::Value::as_str`: the text of a JSON string, and `None` for every other value.
pub assume_specification[ serde_json::Value::as_str ](value: &serde_json::Value) -> (content:
    Option<&str>)
    ensures
        match content {
            Some(content) => json_of(*value) == Json::Text(content@),
            None => !(json_of(*value) is Text),
        },
;

/// `serde_json::Value::as_array`: the items of a JSON array, and `None` for every other value.
pub assume_specification[ serde_json::Value::as_array ](value: &serde_json::Value) -> (items:
    Option<&Vec<serde_json::Value>>)
    ensures
        match items {
            Some(items) => json_of(*value) == Json::Array(
                items@.map_values(|item: serde_json::Value| json_of(item)),
            ),
            None => !(json_of(*value) is Array),
        },
;

/// `serde_json::Value::pointer`: on a pointer made of plain keys, the member that the keys
/// lead to; on a text that is no pointer, since it does not start with a slash, nothing. Of
/// pointers with array indices or escaped characters nothing is said.
pub assume_specification<'a, 'b>[ serde_json::Value::pointer ](
    value: &'a serde_json::Value,
    pointer: &'b str,
) -> (found: Option<&'a serde_json::Value>)
    ensures
        pointer@.len() > 0 && pointer@[0] != '/' ==> found is None,
        forall|keys: Seq<Seq<char>>| #[trigger]
            pointer_text(keys) == pointer@ && (forall|i: int|
                0 <= i < keys.len() ==> plain_key(#[trigger] keys[i])) ==> (match found {
                Some(inner) => member_at(json_of(*value), keys) == Some(json_of(*inner)),
                None => member_at(json_of(*value), keys) is None,
            }),
;

/// `serde_json::Value::as_object_mut`: the members of a JSON object, for changing them in
/// place, and `None` for every other value.
pub assume_specification[ serde_json::Value::as_object_mut ](
    value: &mut serde_json::Value,
) -> (object: Option<&mut serde_json::Map<String, serde_json::Value>>)
    ensures
        match object {
            Some(object) => {
                &&& json_of(*old(value)) == Json::Object(members_of(*object))
                &&& json_of(*final(value)) == Json::Object(members_of(*final(object)))
            },
            None => !(json_of(*old(value)) is Object) && *final(value) == *old(value),
        },
;

/// `serde_json::Map::new`: an object without members.
pub assume_specification[ serde_json::Map::<String, serde_json::Value>::new ]() -> (object:
    serde_json::Map<String, serde_json::Value>)
    ensures
        members_of(object) == no_members(),
;

/// `serde_json::Map::insert`: puts the value under the key, in place of the one that was
/// there, which it returns.
pub assume_specification[ serde_json::Map::<String, serde_json::Value>::insert ](
    object: &mut serde_json::Map<String, serde_json::Value>,
    key: String,
    value: serde_json::Value,
) -> (previous: Option<serde_json::Value>)
    ensures
        members_of(*final(object)) == members_of(*old(object)).insert(key@, json_of(value)),
        match previous {
            Some(previous) => member(Json::Object(members_of(*old(object))), key@) == Some(
                json_of(previous),
            ),
            None => !members_of(*old(object)).dom().contains(key@),
        },
;

/// `serde_json::Map::remove`: takes out the member under the key and returns its value.
#[verifier::external_body]
pub(crate) fn object_remove(
    object: &mut serde_json::Map<String, serde_json::Value>,
    key: &str,
) -> (previous: Option<Value>)
    ensures
        members_of(*final(object)) == members_of(*old(object)).remove(key@),
        match previous {
            Some(previous) => member(Json::Object(members_of(*old(object))), key@) == Some(
                json_of(previous),
            ),
            None => !members_of(*old(object)).dom().contains(key@),
        },
{
    object.remove(key)
}

/// The variant `serde_json::Value::String`: the JSON string with that text.
#[verifier::external_body]
pub(crate) fn text_value(text: String) -> (value: Value)
    ensures
        json_of(value) == Json::Text(text@),
{
    Value::String(text)
}

/// The variant `serde_json::Value::Object`: the JSON object with those members.
#[verifier::external_body]
pub(crate) fn object_value(object: serde_json::Map<String, Value>) -> (value: Value)
    ensures
        json_of(value) == Json::Object(members_of(object)),
{
    Value::Object(object)
}

/// The text of the member under `key`, if there is one and it is a string.
pub(crate) fn member_str<'a>(value: &'a Value, key: &str) -> (text: Option<&'a str>)
    ensures
        match text {
            Some(text) => member_text(json_of(*value), key@) == Some(text@),
            None => member_text(json_of(*value), key@) is None,
        },
{
    match value_get(value, key) {
        Some(inner) => inner.as_str(),
        None => None,
    }
}

/// The text of the member under `key`, if there is one, it is a string, and not empty.
pub(crate) fn filled_member(value: &Value, key: &str) -> (text: Option<String>)
    ensures
        match text {
            Some(text) => filled_text(json_of(*value), key@) == Some(text@),
            None => filled_text(json_of(*value), key@) is None,
        },
{
    match member_str(value, key) {
        Some(text) => if text.is_empty() {
            None
        } else {
            Some(text.to_owned())
        },
        None => None,
    }
}

} // verus!
