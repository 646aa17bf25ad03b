//! Structured-field lookup inside JSON-encoded entry values.
//!
//! What a JSON document holds at a named field is a function of the text
//! alone, but takes pages to state; the result is therefore given a name,
//! and the query engine's contracts speak of that name.

use vstd::prelude::*;

verus! {

/// The string held by the named top-level field of `value`, when `value`
/// is valid JSON whose named field is a string; `None` otherwise.
pub uninterp spec fn json_field_of(value: Seq<char>, field: Seq<char>) -> Option<Seq<char>>;

/// Relies on serde_json: `from_str` parses the text, `Value::get` looks the
/// field up in an object, and `Value::as_str` gives the field's string
/// content. The result depends on the two arguments alone; text that is not
/// valid JSON yields `None` rather than an error.
#[verifier::external_body]
pub fn json_field_str(value: &str, field: &str) -> (r: Option<String>)
    ensures
        match r {
            Some(s) => json_field_of(value@, field@) == Some(s@),
            None => json_field_of(value@, field@) is None,
        },
{
    match serde_json::from_str::<serde_json::Value>(value) {
        Ok(doc) => match doc.get(field) {
            Some(f) => f.as_str().map(|s| s.to_string()),
            None => None,
        },
        Err(_) => None,
    }
}

} // verus!
