//! Reading JSON replies through `serde_json`.
//!
//! A reply is read the way `serde_json::Value` indexing reads it: an object
//! is taken apart into its members (each kept as the raw text of its value),
//! and a member's text is then read as a string, an integer or a boolean.
//! Each of these steps is one `serde_json::from_str` call; what that call
//! returns is named below and the readers here are proved against the names.
use std::collections::BTreeMap;
use vstd::prelude::*;

verus! {

/// Why `text` is not one well-formed JSON value (the error `from_str::<Value>`
/// displays); `None` when it is one.
pub uninterp spec fn json_error_spec(text: Seq<char>) -> Option<Seq<char>>;

/// Whether `text` is one well-formed JSON value.
pub open spec fn json_valid_spec(text: Seq<char>) -> bool {
    json_error_spec(text) is None
}

/// The members of `text` read as a JSON object: key and raw value text, as a
/// `BTreeMap` orders them; `None` when `text` is not an object.
pub uninterp spec fn json_object_spec(text: Seq<char>) -> Option<Seq<(Seq<char>, Seq<char>)>>;

/// The raw texts of the elements of `text` read as a JSON array; `None` when
/// `text` is not an array.
pub uninterp spec fn json_array_spec(text: Seq<char>) -> Option<Seq<Seq<char>>>;

/// `text` read as a JSON integer that fits an `i64`.
pub uninterp spec fn json_i64_spec(text: Seq<char>) -> Option<i64>;

/// `text` read as a JSON string.
pub uninterp spec fn json_str_spec(text: Seq<char>) -> Option<Seq<char>>;

/// `text` read as a JSON boolean.
pub uninterp spec fn json_bool_spec(text: Seq<char>) -> Option<bool>;

/// `serde_json::from_str::<serde_json::Value>`: the parse error's text, if any.
#[verifier::external_body]
pub(crate) fn json_error(text: &str) -> (r: Option<String>)
    ensures
        r.deep_view() == json_error_spec(text@),
{
    serde_json::from_str::<serde_json::Value>(text).err().map(|e| e.to_string())
}

/// Whether the text is one well-formed JSON value.
pub fn json_valid(text: &str) -> (r: bool)
    ensures
        r == json_valid_spec(text@),
{
    json_error(text).is_none()
}

/// `serde_json::from_str::<BTreeMap<String, Box<RawValue>>>`: the members of an object.
#[verifier::external_body]
pub(crate) fn json_object(text: &str) -> (r: Option<Vec<(String, String)>>)
    ensures
        r.deep_view() == json_object_spec(text@),
{
    serde_json::from_str::<BTreeMap<String, Box<serde_json::value::RawValue>>>(text)
        .ok()
        .map(|m| m.into_iter().map(|(k, v)| (k, v.get().to_owned())).collect())
}

/// `serde_json::from_str::<Vec<Box<RawValue>>>`: the elements of an array.
#[verifier::external_body]
pub(crate) fn json_array(text: &str) -> (r: Option<Vec<String>>)
    ensures
        r.deep_view() == json_array_spec(text@),
{
    serde_json::from_str::<Vec<Box<serde_json::value::RawValue>>>(text)
        .ok()
        .map(|v| v.into_iter().map(|x| x.get().to_owned()).collect())
}

/// `serde_json::from_str::<i64>`.
#[verifier::external_body]
pub(crate) fn json_i64(text: &str) -> (r: Option<i64>)
    ensures
        r == json_i64_spec(text@),
{
    serde_json::from_str::<i64>(text).ok()
}

/// `serde_json::from_str::<String>`.
#[verifier::external_body]
pub(crate) fn json_str(text: &str) -> (r: Option<String>)
    ensures
        r.deep_view() == json_str_spec(text@),
{
    serde_json::from_str::<String>(text).ok()
}

/// `serde_json::from_str::<bool>`.
#[verifier::external_body]
pub(crate) fn json_bool(text: &str) -> (r: Option<bool>)
    ensures
        r == json_bool_spec(text@),
{
    serde_json::from_str::<bool>(text).ok()
}

/// The raw text of the first member named `key`.
pub open spec fn lookup(members: Seq<(Seq<char>, Seq<char>)>, key: Seq<char>) -> Option<Seq<char>>
    decreases members.len(),
{
    if members.len() == 0 {
        None
    } else if members[0].0 == key {
        Some(members[0].1)
    } else {
        lookup(members.drop_first(), key)
    }
}

/// `value.get(key)`: the raw text of member `key` when `text` is an object that has it.
pub open spec fn field(text: Seq<char>, key: Seq<char>) -> Option<Seq<char>> {
    match json_object_spec(text) {
        Some(members) => lookup(members, key),
        None => None,
    }
}

/// `value[key].as_str()`.
pub open spec fn str_field(text: Seq<char>, key: Seq<char>) -> Option<Seq<char>> {
    match field(text, key) {
        Some(raw) => json_str_spec(raw),
        None => None,
    }
}

/// `value[key].as_i64()`.
pub open spec fn i64_field(text: Seq<char>, key: Seq<char>) -> Option<i64> {
    match field(text, key) {
        Some(raw) => json_i64_spec(raw),
        None => None,
    }
}

/// `value[key].as_bool()`.
pub open spec fn bool_field(text: Seq<char>, key: Seq<char>) -> Option<bool> {
    match field(text, key) {
        Some(raw) => json_bool_spec(raw),
        None => None,
    }
}

/// The raw text of the first member named `key`.
pub fn member(members: &Vec<(String, String)>, key: &str) -> (r: Option<String>)
    ensures
        r.deep_view() == lookup(members.deep_view(), key@),
{
    let ghost ms = members.deep_view();
    let mut i: usize = 0;
    assert(ms.skip(0) =~= ms);
    while i < members.len()
        invariant
            i <= members.len(),
            ms == members.deep_view(),
            lookup(ms, key@) == lookup(ms.skip(i as int), key@),
        decreases members.len() - i,
    {
        assert(ms.skip(i as int).drop_first() =~= ms.skip(i + 1));
        assert(ms.skip(i as int)[0] == ms[i as int]);
        if crate::text::str_eq(members[i].0.as_str(), key) {
            return Some(members[i].1.clone());
        }
        i = i + 1;
    }
    None
}

/// `value.get(key)` on the JSON text `text`.
pub fn get_field(text: &str, key: &str) -> (r: Option<String>)
    ensures
        r.deep_view() == field(text@, key@),
{
    match json_object(text) {
        Some(members) => member(&members, key),
        None => None,
    }
}

/// `value[key].as_str()` on the JSON text `text`.
pub fn get_str(text: &str, key: &str) -> (r: Option<String>)
    ensures
        r.deep_view() == str_field(text@, key@),
{
    match get_field(text, key) {
        Some(raw) => json_str(raw.as_str()),
        None => None,
    }
}

/// `value[key].as_i64()` on the JSON text `text`.
pub fn get_i64(text: &str, key: &str) -> (r: Option<i64>)
    ensures
        r == i64_field(text@, key@),
{
    match get_field(text, key) {
        Some(raw) => json_i64(raw.as_str()),
        None => None,
    }
}

/// `value[key].as_bool()` on the JSON text `text`.
pub fn get_bool(text: &str, key: &str) -> (r: Option<bool>)
    ensures
        r == bool_field(text@, key@),
{
    match get_field(text, key) {
        Some(raw) => json_bool(raw.as_str()),
        None => None,
    }
}

} // verus!
