//! The JSON boundary: extracting the query text from a request payload,
//! wrapping a translated query for forwarding, and reshaping a downstream
//! response's `data` keys back to the caller's naming convention.  The
//! payload and response objects are `serde_json` values, opaque to the
//! verifier; the decisions taken on what is read out of them are verified
//! functions over plain values.

use vstd::prelude::*;

use crate::convert::{convert_query_structure, opt_view, spec_convert_query};
use crate::names::{spec_transform_data_key, transform_data_key};
use crate::{ConversionError, SpecError};

verus! {

#[verifier::external_type_specification]
#[verifier::external_body]
pub struct ExValue(serde_json::Value);

/// What the request payload holds under `query`: nothing, a non-text
/// value, or the query text itself.
pub enum QueryField {
    Missing,
    NotText,
    Text(String),
}

/// Relies on `serde_json::Value::get` and `serde_json::Value::as_str`:
/// reads the payload's `query` member and reports whether it is absent,
/// present but not a string, or a string (handed over as owned text).
#[verifier::external_body]
fn payload_query_field(payload: &serde_json::Value) -> QueryField {
    match payload.get("query") {
        None => QueryField::Missing,
        Some(v) => match v.as_str() {
            None => QueryField::NotText,
            Some(s) => QueryField::Text(s.to_string()),
        },
    }
}

/// Relies on `serde_json::Map::insert` and the `Value::Object` /
/// `Value::String` constructors: builds the one-member object
/// `{"query": <text>}` that is forwarded downstream.
#[verifier::external_body]
fn query_object(text: String) -> serde_json::Value {
    let mut m = serde_json::Map::new();
    m.insert("query".to_string(), serde_json::Value::String(text));
    serde_json::Value::Object(m)
}

/// What translation of an extracted payload field yields: a missing
/// `query` member is reported by name, a non-text one is a format error,
/// and text is translated as a query.
pub open spec fn spec_payload_query(field: &QueryField, chain: Option<Seq<char>>) -> Result<
    Seq<char>,
    SpecError,
> {
    match field {
        QueryField::Missing => Err(SpecError::Missing("query"@)),
        QueryField::NotText => Err(SpecError::Invalid),
        QueryField::Text(s) => spec_convert_query(s@, chain),
    }
}

/// Translate the `query` member of a request payload, as extracted into a
/// [`QueryField`], failing exactly when the member is missing, is not
/// text, or cannot be translated.
pub fn convert_payload_query(field: &QueryField, chain_id: Option<&str>) -> (r: Result<
    String,
    ConversionError,
>)
    ensures
        crate::res_matches(&r, spec_payload_query(field, opt_view(chain_id))),
{
    match field {
        QueryField::Missing => Err(ConversionError::MissingField(String::from_str("query"))),
        QueryField::NotText => Err(ConversionError::InvalidQueryFormat),
        QueryField::Text(s) => convert_query_structure(s.as_str(), chain_id),
    }
}

/// Translate a request payload into the downstream request object.  The
/// payload's `query` member is read through the JSON boundary; the
/// translation of the extracted field is exactly
/// [`spec_payload_query`], and on success the result object carries the
/// translated text under `query`.
pub fn convert_subgraph_to_hyperindex(
    payload: &serde_json::Value,
    chain_id: Option<&str>,
) -> Result<serde_json::Value, ConversionError> {
    let field = payload_query_field(payload);
    match convert_payload_query(&field, chain_id) {
        Err(e) => Err(e),
        Ok(text) => Ok(query_object(text)),
    }
}

/// The entries of a response object's member list with every key mapped
/// through [`transform_data_key`] and every value carried unchanged.
pub fn transform_data_entries(entries: Vec<(String, serde_json::Value)>) -> (r: Vec<
    (String, serde_json::Value),
>)
    ensures
        r@.len() == entries@.len(),
        forall|i: int|
            0 <= i < entries@.len() ==> (#[trigger] r@[i]).0@ == spec_transform_data_key(
                entries@[i].0@,
            ) && r@[i].1 == entries@[i].1,
{
    let n = entries.len();
    let mut out: Vec<(String, serde_json::Value)> = Vec::new();
    let mut rest = entries;
    let ghost ev = rest@;
    let mut i: usize = 0;
    while i < n
        invariant
            0 <= i <= n,
            n == ev.len(),
            rest@ =~= ev.skip(i as int),
            out@.len() == i,
            forall|k: int|
                0 <= k < i ==> (#[trigger] out@[k]).0@ == spec_transform_data_key(ev[k].0@)
                    && out@[k].1 == ev[k].1,
        decreases n - i,
    {
        let (k, v) = rest.remove(0);
        let nk = transform_data_key(k.as_str());
        out.push((nk, v));
        proof {
            assert(rest@ =~= ev.skip(i + 1));
        }
        i += 1;
    }
    out
}

/// Relies on `serde_json::Value::as_object`, map iteration and `clone`:
/// the member list of an object value, in the map's order, or nothing for
/// a non-object.
#[verifier::external_body]
fn object_entries(v: &serde_json::Value) -> Option<Vec<(String, serde_json::Value)>> {
    v.as_object().map(|m| m.iter().map(|(k, val)| (k.clone(), val.clone())).collect())
}

/// Relies on `serde_json::Map::FromIterator` and the `Value::Object`
/// constructor: an object value holding exactly the given members.
#[verifier::external_body]
fn object_from_entries(entries: Vec<(String, serde_json::Value)>) -> serde_json::Value {
    serde_json::Value::Object(entries.into_iter().collect())
}

/// Reshape a downstream response: every key of its `data` object is
/// mapped through [`transform_data_key`] (primary-key result keys are
/// stripped and lowercased, Pascal-case type keys are re-pluralized and
/// lowercased); everything else passes through unchanged.
pub fn transform_response_to_subgraph_shape(resp: serde_json::Value) -> (r: serde_json::Value) {
    match object_entries(&resp) {
        None => resp,
        Some(root_entries) => {
            let n = root_entries.len();
            let mut new_root: Vec<(String, serde_json::Value)> = Vec::new();
            let mut rest = root_entries;
            let mut i: usize = 0;
            while i < n
                invariant
                    0 <= i <= n,
                    n == i + rest@.len(),
                decreases n - i,
            {
                let (k, v) = rest.remove(0);
                if crate::chars::str_eq(k.as_str(), "data") {
                    match object_entries(&v) {
                        Some(data_entries) => {
                            let transformed = transform_data_entries(data_entries);
                            new_root.push((k, object_from_entries(transformed)));
                        },
                        None => {
                            new_root.push((k, v));
                        },
                    }
                } else {
                    new_root.push((k, v));
                }
                i += 1;
            }
            object_from_entries(new_root)
        },
    }
}

} // verus!
