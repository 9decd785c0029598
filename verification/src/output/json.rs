//! The credentials as one JSON object.

use crate::error::{Failure, GetapiError};
use crate::output::order::{sorted_by_key, sorted_entries};
use crate::strmap::{pairs_of, Pairs, StrMap};
use vstd::prelude::*;

verus! {

/// What `serde_json::to_string_pretty` returns for the JSON object that
/// `entries` are collected into, each value a JSON string: the text of the
/// object, or the message of the error with which it fails.
pub uninterp spec fn json_pretty(entries: Pairs) -> Result<Seq<char>, Seq<char>>;

/// Collects `entries` into a `serde_json::Map` of JSON strings and serialises
/// it with `serde_json::to_string_pretty`; a failure gives the error's
/// message. The outcome depends on the entries alone.
#[verifier::external_body]
fn to_string_pretty(entries: &Vec<(String, String)>) -> (r: Result<String, String>)
    ensures
        match r {
            Ok(text) => json_pretty(pairs_of(entries@)) == Ok::<Seq<char>, Seq<char>>(text@),
            Err(e) => json_pretty(pairs_of(entries@)) == Err::<Seq<char>, Seq<char>>(e@),
        },
{
    let object: serde_json::Map<String, serde_json::Value> =
        entries.iter().map(|(k, v)| (k.clone(), serde_json::Value::String(v.clone()))).collect();
    match serde_json::to_string_pretty(&object) {
        Ok(text) => Ok(text),
        Err(e) => Err(e.to_string()),
    }
}

/// The contents of a JSON file that holds `values`: one object, with the
/// entries in the order of their keys.
pub open spec fn written(values: Pairs) -> Result<Seq<char>, Failure> {
    match json_pretty(sorted_by_key(values)) {
        Ok(text) => Ok(text),
        Err(e) => Err(Failure::Json(e)),
    }
}

/// The contents of a JSON file that holds `values`.
pub fn write(values: &StrMap) -> (r: Result<String, GetapiError>)
    ensures
        match r {
            Ok(text) => written(values@) == Ok::<Seq<char>, Failure>(text@),
            Err(e) => written(values@) == Err::<Seq<char>, Failure>(e@),
        },
{
    match to_string_pretty(&sorted_entries(values)) {
        Ok(text) => Ok(text),
        Err(e) => Err(GetapiError::Json(e)),
    }
}

} // verus!
