//! The boundary to `serde_json`: reading a text into a value, and writing a
//! value as text. The contracts of the functions in this file are not
//! proved: they are taken from `serde_json` on trust.

use crate::value::{GenericValue, JsonModel};
use vstd::prelude::*;

verus! {

/// `serde_json`'s own value tree. It only passes through this file.
#[verifier::external_type_specification]
#[verifier::external_body]
pub struct ExValue(serde_json::Value);

/// What `serde_json::from_str` makes of a text: the value it reads, each
/// number as the text that `serde_json` prints for it and each object with
/// its members in the order of the text, or the message of its error.
pub uninterp spec fn json_document(text: Seq<char>) -> Result<JsonModel, Seq<char>>;

/// Whether `serde_json` reads `text` as a number (`Number::from_str`).
pub uninterp spec fn json_number(text: Seq<char>) -> bool;

/// The compact text that `serde_json` writes (`Value::to_string`) for the
/// value as `serde_json` holds it: every number as `serde_json` reads its
/// text, and of two members of an object with one key the later one, in
/// the place of the earlier.
pub uninterp spec fn json_text(value: JsonModel) -> Seq<char>;

/// The indented text that `serde_json::to_string_pretty` writes for the
/// value as `serde_json` holds it.
pub uninterp spec fn json_pretty_text(value: JsonModel) -> Seq<char>;

/// What reading a text as JSON gives: the document, or the message of the
/// reader's error.
pub type ReadingModel = Result<JsonModel, Seq<char>>;

/// The model of what reading a text as JSON gave.
pub open spec fn reading_model(reading: Result<GenericValue, String>) -> ReadingModel {
    match reading {
        Ok(document) => Ok(document@),
        Err(detail) => Err(detail@),
    }
}

/// Every number in the value has a text that `serde_json` reads as a number,
/// so that `serde_json` can hold the value and write it.
pub open spec fn readable(value: JsonModel) -> bool
    decreases value,
{
    match value {
        JsonModel::Number(text) => json_number(text),
        JsonModel::Array(items) => forall|i: int|
            0 <= i < items.len() ==> readable(#[trigger] items[i]),
        JsonModel::Object(members) => forall|i: int|
            0 <= i < members.len() ==> readable((#[trigger] members[i]).1),
        _ => true,
    }
}

/// Calls `serde_json::from_str` for a `serde_json::Value` and hands the tree
/// over as a `GenericValue`, or hands over the error's message. The result
/// is a function of the text alone.
#[verifier::external_body]
pub(crate) fn read_json(text: &str) -> (outcome: Result<GenericValue, String>)
    ensures
        reading_model(outcome) == json_document(text@),
{
    match serde_json::from_str::<serde_json::Value>(text) {
        Ok(tree) => Ok(from_tree(&tree)),
        Err(error) => Err(error.to_string()),
    }
}

/// Moves a `serde_json::Value` into a `GenericValue`, variant by variant; a
/// number becomes the text that `serde_json::Number` prints.
#[verifier::external_body]
fn from_tree(tree: &serde_json::Value) -> GenericValue {
    match tree {
        serde_json::Value::Null => GenericValue::Null,
        serde_json::Value::Bool(b) => GenericValue::Bool(*b),
        serde_json::Value::Number(n) => GenericValue::Number(n.to_string()),
        serde_json::Value::String(s) => GenericValue::String(s.clone()),
        serde_json::Value::Array(items) => GenericValue::Array(items.iter().map(from_tree).collect()),
        serde_json::Value::Object(map) => GenericValue::Object(
            map.iter().map(|(k, v)| (k.clone(), from_tree(v))).collect(),
        ),
    }
}

/// Calls `str::parse::<serde_json::Number>` and says whether it succeeded.
#[verifier::external_body]
pub(crate) fn reads_as_number(text: &str) -> (yes: bool)
    ensures
        yes == json_number(text@),
{
    text.parse::<serde_json::Number>().is_ok()
}

/// Builds the `serde_json::Value` that the value stands for and calls its
/// `to_string`, which writes compact JSON.
#[verifier::external_body]
pub(crate) fn compact_text(value: &GenericValue) -> (text: String)
    requires
        readable(value@),
    ensures
        text@ == json_text(value@),
{
    to_tree(value).to_string()
}

/// Builds the `serde_json::Value` that the value stands for and calls
/// `serde_json::to_string_pretty` on it. As its documentation says, that
/// fails only where an implementation of `Serialize` decides to fail or a
/// map has a key that is no string; a `serde_json::Value` has neither, so
/// the text is always written.
#[verifier::external_body]
pub(crate) fn pretty_text(value: &GenericValue) -> (text: Result<String, String>)
    requires
        readable(value@),
    ensures
        text is Ok,
        text matches Ok(written) ==> written@ == json_pretty_text(value@),
{
    serde_json::to_string_pretty(&to_tree(value)).map_err(|error| error.to_string())
}

/// Moves a `GenericValue` into a `serde_json::Value`, variant by variant; a
/// number's text is read with `str::parse::<serde_json::Number>`, which
/// succeeds on every text that `json_number` holds of.
#[verifier::external_body]
fn to_tree(value: &GenericValue) -> serde_json::Value
    requires
        readable(value@),
{
    match value {
        GenericValue::Null => serde_json::Value::Null,
        GenericValue::Bool(b) => serde_json::Value::Bool(*b),
        GenericValue::Number(text) => serde_json::Value::Number(text.parse().unwrap()),
        GenericValue::String(s) => serde_json::Value::String(s.clone()),
        GenericValue::Array(items) => serde_json::Value::Array(items.iter().map(to_tree).collect()),
        GenericValue::Object(members) => serde_json::Value::Object(
            members.iter().map(|(k, v)| (k.clone(), to_tree(v))).collect(),
        ),
    }
}

} // verus!
