//! Reading text as JSON, with `serde_json`.
use vstd::prelude::*;

verus! {

/// A JSON value as `serde_json` reads it.
#[verifier::external_type_specification]
#[verifier::external_body]
pub struct ExJsonValue(serde_json::Value);

/// The message with which `serde_json` refuses `text` as JSON, `None` when it reads
/// `text` as a JSON value.
pub uninterp spec fn json_syntax_error(text: Seq<char>) -> Option<Seq<char>>;

/// Reads `text` as a JSON value with `serde_json::from_str`. On a refusal the error's
/// message (its `Display` text) comes back; the contract only names that outcome, and
/// says nothing of the value read.
#[verifier::external_body]
pub(crate) fn parse_json_value(text: &str) -> (r: Result<serde_json::Value, String>)
    ensures
        match json_syntax_error(text@) {
            None => r is Ok,
            Some(m) => r matches Err(e) && e@ == m,
        },
{
    serde_json::from_str::<serde_json::Value>(text).map_err(|e| e.to_string())
}

} // verus!
