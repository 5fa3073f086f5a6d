//! Trusted access to `serde_json`, used to pull extraction values out of
//! response bodies. What the extraction chain yields is a function of the
//! body text and the path alone, so it is given a name that the verified
//! extraction logic is specified against.

use vstd::prelude::*;

verus! {

/// What extraction yields from a response body for one JSON Pointer path:
/// the string value the path names in the parsed body, or `None` when the
/// body is not JSON, the path does not resolve, or the value it names is
/// not a string. A function of the body text and the path alone.
pub uninterp spec fn extracted_of(body: Seq<char>, path: Seq<char>) -> Option<Seq<char>>;

/// Relies on serde_json::from_str, serde_json::Value::pointer and
/// serde_json::Value::as_str: parses `body`, resolves `path` as a JSON
/// Pointer into it, and returns the string value the path names. The chain
/// depends on its two arguments alone.
#[verifier::external_body]
pub(crate) fn extract_value(body: &str, path: &str) -> (r: Option<String>)
    ensures
        extracted_of(body@, path@) == (match r {
            Some(v) => Some(v@),
            None => None::<Seq<char>>,
        }),
{
    let parsed: serde_json::Value = match serde_json::from_str(body) {
        Ok(value) => value,
        Err(_) => return None,
    };
    match parsed.pointer(path) {
        Some(value) => match value.as_str() {
            Some(s) => Some(s.to_string()),
            None => None,
        },
        None => None,
    }
}

} // verus!
