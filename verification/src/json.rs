//! JSON documents held in catalogue records (the `resources` of an item),
//! read and written with `serde_json`.
use vstd::prelude::*;

verus! {

/// `serde_json::Value`, carried through the library unexamined.
#[verifier::external_type_specification]
#[verifier::external_body]
pub struct ExJsonValue(serde_json::Value);

/// `serde_json::Error`, the failure of a parse or of a serialisation.
#[verifier::external_type_specification]
#[verifier::external_body]
pub struct ExJsonError(serde_json::Error);

/// The JSON document that `serde_json::from_str::<serde_json::Value>`
/// reads from a text, or `None` where it reports an error.
pub uninterp spec fn json_document(text: Seq<char>) -> Option<serde_json::Value>;

/// The text that `serde_json::to_string` writes for a JSON value, or `None`
/// where it reports an error.
pub uninterp spec fn json_text(value: serde_json::Value) -> Option<Seq<char>>;

/// Calls `serde_json::from_str::<serde_json::Value>`: it succeeds exactly
/// when the text is a JSON document, and the value is that document.
#[verifier::external_body]
pub(crate) fn parse_json(text: &str) -> (r: Result<serde_json::Value, serde_json::Error>)
    ensures
        r is Ok <==> json_document(text@) is Some,
        r matches Ok(v) ==> json_document(text@) == Some(v),
{
    serde_json::from_str::<serde_json::Value>(text)
}

/// Builds `serde_json::Value::Array(vec![])`, the value that
/// `serde_json::from_str` reads from the text `[]`.
#[verifier::external_body]
pub(crate) fn empty_json_array() -> (v: serde_json::Value)
    ensures
        json_document("[]"@) == Some(v),
{
    serde_json::Value::Array(Vec::new())
}

/// Calls `serde_json::to_string` on a JSON value: the text is the one
/// named by `json_text`, and it fails exactly where that name is `None`.
#[verifier::external_body]
pub(crate) fn write_json(value: &serde_json::Value) -> (r: Result<String, serde_json::Error>)
    ensures
        r is Ok <==> json_text(*value) is Some,
        r matches Ok(s) ==> json_text(*value) == Some(s@),
{
    serde_json::to_string(value)
}

} // verus!
