//! The calls this library makes into std and into outside crates whose results
//! it does not compute itself. Each function here states what it relies on;
//! nothing in this file is proved.
use vstd::prelude::*;

use crate::strmap::pair_views;

verus! {

/// What `str::to_lowercase` returns for a string: its lowercase equivalent
/// under Unicode's `Lowercase` property.
pub uninterp spec fn str_to_lowercase(s: Seq<char>) -> Seq<char>;

/// What `str::to_uppercase` returns for a string: its uppercase equivalent
/// under Unicode's `Uppercase` property.
pub uninterp spec fn str_to_uppercase(s: Seq<char>) -> Seq<char>;

/// Calls `str::to_lowercase`; claims only that its result is the one named
/// `str_to_lowercase` for the argument's characters.
#[verifier::external_body]
pub(crate) fn to_lowercase(s: &str) -> (r: String)
    ensures
        r@ == str_to_lowercase(s@),
{
    s.to_lowercase()
}

/// Calls `str::to_uppercase`; claims only that its result is the one named
/// `str_to_uppercase` for the argument's characters.
#[verifier::external_body]
pub(crate) fn to_uppercase(s: &str) -> (r: String)
    ensures
        r@ == str_to_uppercase(s@),
{
    s.to_uppercase()
}

/// Whether `regex::Regex::new` accepts the pattern.
pub uninterp spec fn regex_compiles(pattern: Seq<char>) -> bool;

/// What `regex::Regex::is_match` answers for the pattern compiled by
/// `regex::Regex::new` and the text.
pub uninterp spec fn regex_matches(pattern: Seq<char>, text: Seq<char>) -> bool;

/// Compiles `pattern` with `regex::Regex::new` and, when that succeeds, asks
/// `is_match` about `text`. Claims: `None` exactly when the pattern does not
/// compile; otherwise the answer named `regex_matches` for the two arguments.
#[verifier::external_body]
pub(crate) fn regex_is_match(pattern: &str, text: &str) -> (r: Option<bool>)
    ensures
        r is Some <==> regex_compiles(pattern@),
        r matches Some(b) ==> b == regex_matches(pattern@, text@),
{
    match regex::Regex::new(pattern) {
        Ok(re) => Some(re.is_match(text)),
        Err(_) => None,
    }
}

/// The members of the JSON object that `serde_json::from_str` reads from
/// `text`, each as its key and the `serde_json` text of its value, in the
/// order of the parsed map; `None` when `text` is not JSON or not an object.
pub uninterp spec fn json_object_members(text: Seq<char>) -> Option<Seq<(Seq<char>, Seq<char>)>>;

/// Parses `text` with `serde_json::from_str` into a `serde_json::Value` and,
/// when it is an object, hands out its members with each value written back
/// as JSON text by the value's `Display`. Claims only that the result is the
/// one named `json_object_members` for `text`.
#[verifier::external_body]
pub(crate) fn json_object_fields(text: &str) -> (r: Option<Vec<(String, String)>>)
    ensures
        match r {
            Some(v) => json_object_members(text@) == Some(pair_views(v@)),
            None => json_object_members(text@) is None,
        },
{
    match serde_json::from_str::<serde_json::Value>(text) {
        Ok(serde_json::Value::Object(m)) => Some(m.into_iter().map(|(k, v)| (k, v.to_string())).collect()),
        Ok(_) => None,
        Err(_) => None,
    }
}

/// Whether the two texts both parse with `serde_json::from_str` and the two
/// `serde_json::Value`s are equal by their `PartialEq`.
pub uninterp spec fn json_values_equal(a: Seq<char>, b: Seq<char>) -> bool;

/// Parses both texts with `serde_json::from_str` and compares the values with
/// `==`; `false` when either does not parse. Claims only that the answer is
/// the one named `json_values_equal` for the two texts.
#[verifier::external_body]
pub(crate) fn json_equal(a: &str, b: &str) -> (r: bool)
    ensures
        r == json_values_equal(a@, b@),
{
    match (serde_json::from_str::<serde_json::Value>(a), serde_json::from_str::<serde_json::Value>(b)) {
        (Ok(x), Ok(y)) => x == y,
        _ => false,
    }
}

/// The text that `serde_json` writes for a JSON string holding `s`: the
/// characters in double quotes, with the characters that JSON requires escaped.
pub uninterp spec fn json_string_literal(s: Seq<char>) -> Seq<char>;

/// Writes `s` as a JSON string through `serde_json::Value::String` and its
/// `Display`. Claims only that the result is the one named `json_string_literal`.
#[verifier::external_body]
pub(crate) fn json_string(s: &str) -> (r: String)
    ensures
        r@ == json_string_literal(s@),
{
    serde_json::Value::String(s.to_owned()).to_string()
}

} // verus!
