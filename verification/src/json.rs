//! Reading JSON texts through `serde_json`: whether a text is JSON, and the
//! members of the object it holds.
use vstd::prelude::*;
use crate::database::opt_text;

verus! {

/// A JSON value of `serde_json`, carried through the library unopened.
#[verifier::external_type_specification]
#[verifier::external_body]
pub struct ExJsonValue(serde_json::Value);

/// Whether `serde_json::from_str::<Value>` accepts `text`.
pub uninterp spec fn json_accepts(text: Seq<char>) -> bool;

/// The message of the error `serde_json::from_str::<Value>` gives for `text`.
pub uninterp spec fn json_error_text(text: Seq<char>) -> Seq<char>;

/// The member `key` of the value parsed from `text`, when the value is an
/// object that has it and it is a string (`Value::get`, then `as_str`).
pub uninterp spec fn json_string_member(text: Seq<char>, key: Seq<char>) -> Option<Seq<char>>;

/// Whether the value parsed from `text` is an object with a member `key`
/// (`Value::get` gives something).
pub uninterp spec fn json_has_member(text: Seq<char>, key: Seq<char>) -> bool;

/// `serde_json::from_str::<Value>` on `text`, then `Value::get(key)` and
/// `Value::as_str`. The result is `Err` with the parser's message exactly
/// when the text is not JSON; otherwise the string member, if there is one.
/// Which texts serde_json accepts, and what its messages say, is left to the
/// names `json_accepts` and `json_error_text`.
#[verifier::external_body]
pub(crate) fn json_str_member(text: &str, key: &str) -> (r: Result<Option<String>, String>)
    ensures
        r is Ok <==> json_accepts(text@),
        r matches Err(m) ==> m@ == json_error_text(text@),
        r matches Ok(o) ==> opt_text(o) == json_string_member(text@, key@),
{
    match serde_json::from_str::<serde_json::Value>(text) {
        Ok(v) => Ok(v.get(key).and_then(|m| m.as_str()).map(|s| s.to_string())),
        Err(e) => Err(e.to_string()),
    }
}

/// `serde_json::from_str::<Value>` on `text`, then `Value::get(key)`,
/// cloned. The member itself is handed on unopened: only whether there is
/// one is stated, and there is none when the text is not JSON.
#[verifier::external_body]
pub(crate) fn json_member(text: &str, key: &str) -> (r: Option<serde_json::Value>)
    ensures
        r is Some <==> json_has_member(text@, key@),
        !json_accepts(text@) ==> r is None,
{
    serde_json::from_str::<serde_json::Value>(text).ok().and_then(|v| v.get(key).cloned())
}

} // verus!
