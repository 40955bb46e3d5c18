//! What the library takes on trust.
//!
//! Nothing in this file is proved. It declares the types of other crates
//! that pass through the library, and states what the verifier is asked to
//! believe of the functions that the library calls in `serde_json` and in
//! the standard library. The rest of the library is proved from these
//! statements.

use vstd::prelude::*;

verus! {

/// The error of a failed file read. The verifier sees nothing inside it.
#[verifier::external_type_specification]
#[verifier::external_body]
pub struct ExIoError(std::io::Error);

/// The error of a failed HTTP exchange. The verifier sees nothing inside it.
#[verifier::external_type_specification]
#[verifier::external_body]
pub struct ExRequestError(reqwest::Error);

/// A parsed JSON document. The verifier sees nothing inside it.
#[verifier::external_type_specification]
#[verifier::external_body]
pub struct ExValue(serde_json::Value);

/// The error of a failed parse. The verifier sees nothing inside it.
#[verifier::external_type_specification]
#[verifier::external_body]
pub struct ExJsonError(serde_json::Error);

/// `String::push` appends one character to the end of the string.
pub assume_specification[ String::push ](s: &mut String, c: char)
    ensures
        final(s)@ == old(s)@.push(c),
;

/// The string members of a parsed document: where `value` is a JSON object,
/// the map from each key whose value is a JSON string to that string's
/// content; the empty map where `value` is no object.
pub uninterp spec fn string_members(value: serde_json::Value) -> Map<Seq<char>, Seq<char>>;

/// What `serde_json::from_str` makes of `text`: `None` where it rejects the
/// text, else the string members of the document that it returns.
pub uninterp spec fn json_string_members(text: Seq<char>) -> Option<Map<Seq<char>, Seq<char>>>;

/// Calls `serde_json::from_str::<serde_json::Value>`. The contract claims
/// that the outcome depends on the text alone: the call fails exactly where
/// `json_string_members` is `None`, and the document of a successful call has
/// the string members that `json_string_members` gives.
#[verifier::external_body]
pub(crate) fn parse_json(text: &str) -> (r: Result<serde_json::Value, serde_json::Error>)
    ensures
        r matches Ok(value) ==> json_string_members(text@) == Some(string_members(value)),
        r is Err ==> json_string_members(text@) is None,
{
    serde_json::from_str::<serde_json::Value>(text)
}

/// Calls `serde_json::Value::get` with a string key and, on the member found,
/// `serde_json::Value::as_str`. The contract claims that the result is the
/// entry of `string_members` under `key`: a copy of the string where the
/// document is an object that has a string under `key`, `None` otherwise.
#[verifier::external_body]
pub(crate) fn string_member(value: &serde_json::Value, key: &str) -> (r: Option<String>)
    ensures
        r matches Some(s) ==> string_members(*value).contains_key(key@) && string_members(
            *value,
        )[key@] == s@,
        r is None ==> !string_members(*value).contains_key(key@),
{
    match value.get(key) {
        Some(member) => match member.as_str() {
            Some(s) => Some(s.to_string()),
            None => None,
        },
        None => None,
    }
}

} // verus!
