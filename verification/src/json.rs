//! JSON documents are `serde_json::Value`s, carried through the library
//! unopened; the few values the library builds itself go through the
//! constructors below.

use vstd::prelude::*;

verus! {

/// A JSON document; the library never looks inside one.
#[verifier::external_type_specification]
#[verifier::external_body]
pub struct ExJsonValue(serde_json::Value);

/// The JSON string whose text is `text`.
pub uninterp spec fn json_string(text: Seq<char>) -> serde_json::Value;

/// The JSON array holding `items`, in order.
pub uninterp spec fn json_array(items: Seq<serde_json::Value>) -> serde_json::Value;

/// `serde_json::Value`'s `Clone` is derived, so a clone is equal to the
/// original document.
pub assume_specification[ <serde_json::Value as Clone>::clone ](v: &serde_json::Value) -> (res: serde_json::Value)
    ensures
        res == *v,
;

/// Calls `serde_json::Value::from::<String>`, which wraps the text in the
/// `String` variant: the result is `json_string` of the text.
#[verifier::external_body]
pub(crate) fn string_value(text: String) -> (v: serde_json::Value)
    ensures
        v == json_string(text@),
{
    serde_json::Value::from(text)
}

/// Builds the `Array` variant of `serde_json::Value` around `items`: the
/// result is `json_array` of the items.
#[verifier::external_body]
pub(crate) fn array_value(items: Vec<serde_json::Value>) -> (v: serde_json::Value)
    ensures
        v == json_array(items@),
{
    serde_json::Value::Array(items)
}

} // verus!
