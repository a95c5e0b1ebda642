//! JSON values (the `serde_json` crate) as the library carries them.

use vstd::prelude::*;

verus! {

#[verifier::external_type_specification]
#[verifier::external_body]
pub struct ExJsonValue(serde_json::Value);

#[verifier::external_type_specification]
#[verifier::external_body]
pub struct ExJsonError(serde_json::Error);

/// Whether `serde_json::from_str::<Value>` accepts the text as one JSON value.
pub uninterp spec fn json_value_accepts(text: Seq<char>) -> bool;

/// The value `serde_json::from_str::<Value>` parses the text into.
pub uninterp spec fn json_value_of(text: Seq<char>) -> serde_json::Value;

/// How `serde_json::Error` displays the error of parsing the text as a value.
pub uninterp spec fn json_error_message(text: Seq<char>) -> Seq<char>;

/// A failed parse: the error together with the text it came from.
pub struct JsonParseError {
    text: String,
    error: serde_json::Error,
}

impl View for JsonParseError {
    type V = Seq<char>;

    /// The text whose parse failed.
    closed spec fn view(&self) -> Seq<char> {
        self.text@
    }
}

/// Calls `serde_json::from_str::<serde_json::Value>`. Claimed: it succeeds
/// exactly when the text is accepted as a JSON value, and the value it returns
/// is the one the text denotes; both depend on the text alone. What that value
/// is, is left to the name: values are opaque here. A failure remembers the
/// text.
#[verifier::external_body]
pub(crate) fn parse_json_value(text: &str) -> (res: Result<serde_json::Value, JsonParseError>)
    ensures
        res is Ok <==> json_value_accepts(text@),
        res matches Ok(v) ==> v == json_value_of(text@),
        res matches Err(e) ==> e@ == text@,
{
    match serde_json::from_str::<serde_json::Value>(text) {
        Ok(v) => Ok(v),
        Err(error) => Err(JsonParseError { text: text.to_string(), error }),
    }
}

/// Renders a parse error with `serde_json::Error`'s `Display` implementation.
/// Claimed: the text depends on the parsed text alone (the error's kind and
/// its line and column).
#[verifier::external_body]
pub(crate) fn json_error_text(error: &JsonParseError) -> (res: String)
    ensures
        res@ == json_error_message(error@),
{
    format!("{}", error.error)
}

} // verus!
