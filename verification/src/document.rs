//! How a document of an answer is shown: as pretty-printed JSON.

use vstd::prelude::*;
use vstd::string::StringExecFns;

verus! {

/// Why a document could not be shown as JSON, with the wording of the cause.
#[derive(Debug)]
pub enum JsonFailure {
    /// The text is not JSON.
    Parse(String),
    /// The parsed value could not be printed.
    Print(String),
}

/// The mathematical content of a [`JsonFailure`].
pub enum JsonFailureModel {
    Parse(Seq<char>),
    Print(Seq<char>),
}

impl View for JsonFailure {
    type V = JsonFailureModel;

    open spec fn view(&self) -> JsonFailureModel {
        match *self {
            JsonFailure::Parse(cause) => JsonFailureModel::Parse(cause@),
            JsonFailure::Print(cause) => JsonFailureModel::Print(cause@),
        }
    }
}

/// The mathematical content of the result of pretty-printing.
pub open spec fn pretty_model(result: Result<String, JsonFailure>) -> Result<Seq<char>, JsonFailureModel> {
    match result {
        Ok(text) => Ok(text@),
        Err(failure) => Err(failure@),
    }
}

/// A parsed JSON value, as `serde_json` holds it.
#[verifier::external_type_specification]
#[verifier::external_body]
pub struct ExJsonValue(serde_json::Value);

/// What a parsed JSON value holds.
pub uninterp spec fn json_content(value: serde_json::Value) -> Seq<char>;

/// What `serde_json::from_str` makes of the text `json`: what the value holds
/// that it parses to, or the wording of its error.
pub uninterp spec fn json_parsed(json: Seq<char>) -> Result<Seq<char>, Seq<char>>;

/// What `serde_json::to_string_pretty` makes of a value that holds `content`:
/// its pretty-printed text, or the wording of its error.
pub uninterp spec fn json_printed(content: Seq<char>) -> Result<Seq<char>, Seq<char>>;

/// Calls `serde_json::from_str` for a `serde_json::Value`. An error is kept
/// as its wording. What the value holds, or the error, depends on the text
/// alone, which is all the contract claims.
#[verifier::external_body]
fn parse_json(json: &str) -> (r: Result<serde_json::Value, String>)
    ensures
        match r {
            Ok(value) => json_parsed(json@) == Ok::<Seq<char>, Seq<char>>(json_content(value)),
            Err(cause) => json_parsed(json@) == Err::<Seq<char>, Seq<char>>(cause@),
        },
{
    match serde_json::from_str::<serde_json::Value>(json) {
        Ok(value) => Ok(value),
        Err(err) => Err(err.to_string()),
    }
}

/// Calls `serde_json::to_string_pretty` on a value. An error is kept as its
/// wording. The text, or the error, depends on what the value holds alone,
/// which is all the contract claims.
#[verifier::external_body]
fn print_json(value: &serde_json::Value) -> (r: Result<String, String>)
    ensures
        match r {
            Ok(text) => json_printed(json_content(*value)) == Ok::<Seq<char>, Seq<char>>(text@),
            Err(cause) => json_printed(json_content(*value)) == Err::<Seq<char>, Seq<char>>(
                cause@,
            ),
        },
{
    match serde_json::to_string_pretty(value) {
        Ok(text) => Ok(text),
        Err(err) => Err(err.to_string()),
    }
}

/// What pretty-printing makes of the text `json`: the pretty-printed form of
/// the value that it parses to, or the failure of the step that failed.
pub open spec fn json_pretty(json: Seq<char>) -> Result<Seq<char>, JsonFailureModel> {
    match json_parsed(json) {
        Ok(content) => match json_printed(content) {
            Ok(text) => Ok(text),
            Err(cause) => Err(JsonFailureModel::Print(cause)),
        },
        Err(cause) => Err(JsonFailureModel::Parse(cause)),
    }
}

/// Parses `json` and prints the value again, pretty.
pub fn pretty_json(json: &str) -> (r: Result<String, JsonFailure>)
    ensures
        pretty_model(r) == json_pretty(json@),
{
    match parse_json(json) {
        Ok(value) => match print_json(&value) {
            Ok(text) => Ok(text),
            Err(cause) => Err(JsonFailure::Print(cause)),
        },
        Err(cause) => Err(JsonFailure::Parse(cause)),
    }
}

/// What is shown for a document, given the outcome of pretty-printing it: the
/// pretty text, or a line that says which step failed and why.
pub open spec fn document_text(pretty: Result<Seq<char>, JsonFailureModel>) -> Seq<char> {
    match pretty {
        Ok(text) => text,
        Err(JsonFailureModel::Parse(cause)) => "Error trying to parse JSON: "@ + cause,
        Err(JsonFailureModel::Print(cause)) => "Error trying to pretty-print JSON: "@ + cause,
    }
}

/// What is shown for a document, given the outcome of pretty-printing it.
pub fn document_text_of(pretty: Result<String, JsonFailure>) -> (r: String)
    ensures
        r@ == document_text(pretty_model(pretty)),
{
    match pretty {
        Ok(text) => text,
        Err(JsonFailure::Parse(cause)) => {
            let mut text = String::new();
            text.append("Error trying to parse JSON: ");
            text.append(cause.as_str());
            proof {
                assert(text@ =~= "Error trying to parse JSON: "@ + cause@);
            }
            text
        },
        Err(JsonFailure::Print(cause)) => {
            let mut text = String::new();
            text.append("Error trying to pretty-print JSON: ");
            text.append(cause.as_str());
            proof {
                assert(text@ =~= "Error trying to pretty-print JSON: "@ + cause@);
            }
            text
        },
    }
}

/// What is shown for the document with the JSON text `json`.
pub fn document_display_string(json: &str) -> (r: String)
    ensures
        r@ == document_text(json_pretty(json@)),
{
    document_text_of(pretty_json(json))
}

} // verus!
