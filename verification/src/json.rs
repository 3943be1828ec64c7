//! The JSON text of a record, decoded and encoded by `serde_json`.
//!
//! Nothing in this file is proved: the contracts below state what the callers
//! rely on, and they are believed.

use std::collections::BTreeMap;
use vstd::prelude::*;
use crate::model::{distinct_keys, map_of, pairs_of, Pair};

verus! {

/// The error of `serde_json`, carried through as it is.
#[verifier::external_type_specification]
#[verifier::external_body]
pub struct ExJsonError(serde_json::Error);

/// The entries of the map from strings to `i32` that `serde_json::from_str`
/// decodes from `text`, in the order of that map, or `None` where it rejects
/// `text`.
pub uninterp spec fn json_counts(text: Seq<char>) -> Option<Seq<Pair>>;

/// The text that `serde_json::to_string` writes for `counts` held in a map
/// ordered by its keys, or `None` where it fails.
pub uninterp spec fn json_text(counts: Map<Seq<char>, int>) -> Option<Seq<char>>;

/// Calls `serde_json::from_str` for a `BTreeMap<String, i32>` and hands out
/// the entries of that map in its order.
///
/// Believed: the call accepts `text` exactly where `json_counts` is `Some`,
/// and the entries that come back are then those that `json_counts` names.
#[verifier::external_body]
pub(crate) fn decode_counts(text: &str) -> (decoded: Result<Vec<(String, i32)>, serde_json::Error>)
    ensures
        match decoded {
            Ok(v) => json_counts(text@) == Some(pairs_of(v@)),
            Err(_) => json_counts(text@) is None,
        },
{
    serde_json::from_str::<BTreeMap<String, i32>>(text).map(|m| m.into_iter().collect())
}

/// Collects `counts` into a `BTreeMap` and calls `serde_json::to_string` on
/// it.
///
/// Believed: the text that comes back is `json_text` of the mapping that
/// `counts` builds, and the call fails exactly where `json_text` is `None`.
#[verifier::external_body]
pub(crate) fn encode_counts(counts: &Vec<(String, i32)>) -> (encoded: Result<
    String,
    serde_json::Error,
>)
    requires
        distinct_keys(pairs_of(counts@)),
    ensures
        match encoded {
            Ok(text) => json_text(map_of(pairs_of(counts@))) == Some(text@),
            Err(_) => json_text(map_of(pairs_of(counts@))) is None,
        },
{
    let map: BTreeMap<&String, &i32> = counts.iter().map(|e| (&e.0, &e.1)).collect();
    serde_json::to_string(&map)
}

/// Calls `to_string` on an error of `serde_json`: the text that the error
/// displays. Nothing is claimed of it.
#[verifier::external_body]
pub(crate) fn error_text(error: &serde_json::Error) -> (text: String) {
    error.to_string()
}

} // verus!
