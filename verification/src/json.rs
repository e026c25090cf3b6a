//! The few ways in which the library reads a JSON value of the engine.
//!
//! Nothing in this file is proved. Each function calls `serde_json` and
//! states what the call gives under a name; the functions that use them are
//! proved against these statements.

use vstd::prelude::*;
use vstd::string::*;

verus! {

/// `serde_json::Value`: a JSON value. Nothing inside it is visible to the
/// library; the functions below are the only way in.
#[verifier::external_type_specification]
#[verifier::external_body]
pub struct ExJsonValue(serde_json::Value);

/// What `serde_json::Value::as_object` followed by `serde_json::Map::keys`
/// gives: the names of the members of a JSON object, in the order in which
/// the object hands them out, and `None` for a value that is no object.
pub uninterp spec fn member_names(value: serde_json::Value) -> Option<Seq<Seq<char>>>;

/// What `serde_json::Value::get` gives for a text index: the member of that
/// name, and `None` where the value is no object or has no such member.
pub uninterp spec fn member_of(value: serde_json::Value, name: Seq<char>) -> Option<
    serde_json::Value,
>;

/// What `serde_json::Value::as_array` gives: the elements of a JSON array in
/// their order, and `None` for a value that is no array.
pub uninterp spec fn elements_of(value: serde_json::Value) -> Option<Seq<serde_json::Value>>;

/// What `serde_json::Value::as_u64` gives: the number that a JSON value
/// stands for, where it is a whole number from 0 to 2^64 - 1, and `None` for
/// every other value.
pub uninterp spec fn whole_number_of(value: serde_json::Value) -> Option<u64>;

/// What `serde_json::Value::as_str` gives: the text of a JSON string, and
/// `None` for a value that is no string.
pub uninterp spec fn text_of(value: serde_json::Value) -> Option<Seq<char>>;

/// Calls `serde_json::Value::as_object` and `serde_json::Map::keys`. The
/// result is the named one; of an object no name comes twice, since its
/// members are held in a map.
#[verifier::external_body]
pub(crate) fn object_keys(value: &serde_json::Value) -> (names: Option<Vec<String>>)
    ensures
        names.deep_view() == member_names(*value),
        names matches Some(found) ==> found.deep_view().no_duplicates(),
{
    match value.as_object() {
        Some(members) => Some(members.keys().cloned().collect()),
        None => None,
    }
}

/// Calls `serde_json::Value::get` with a text index. The result is the named
/// one.
#[verifier::external_body]
pub(crate) fn object_member<'a>(value: &'a serde_json::Value, name: &str) -> (member: Option<
    &'a serde_json::Value,
>)
    ensures
        match member {
            Some(found) => member_of(*value, name@) == Some(*found),
            None => member_of(*value, name@) is None,
        },
{
    value.get(name)
}

/// Calls `serde_json::Value::as_array`. The result is the named one.
#[verifier::external_body]
pub(crate) fn array_elements<'a>(value: &'a serde_json::Value) -> (elements: Option<
    &'a Vec<serde_json::Value>,
>)
    ensures
        match elements {
            Some(found) => elements_of(*value) == Some(found@),
            None => elements_of(*value) is None,
        },
{
    value.as_array()
}

/// Calls `serde_json::Value::as_u64`. The result is the named one.
#[verifier::external_body]
pub(crate) fn whole_number(value: &serde_json::Value) -> (number: Option<u64>)
    ensures
        number == whole_number_of(*value),
{
    value.as_u64()
}


/// Calls `serde_json::Value::as_str` and copies the text. The result is the
/// named one.
#[verifier::external_body]
pub(crate) fn string_text(value: &serde_json::Value) -> (text: Option<String>)
    ensures
        text.deep_view() == text_of(*value),
{
    match value.as_str() {
        Some(found) => Some(found.to_owned()),
        None => None,
    }
}

} // verus!
