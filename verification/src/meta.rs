//! The constrained `_meta` query: only `_meta { block { number } }` is
//! translatable; every other `_meta` shape is a structured failure.

use vstd::prelude::*;

use crate::chars::{contains_at_all, contains_sub};
use crate::{ConversionError, SpecError};

verus! {

/// What [`convert_meta_query`] returns.  A query containing any of the
/// disqualifying fragments fails as a complex `_meta` query; the one
/// supported shape yields the fixed chain-metadata translation; any other
/// `_meta` occurrence is complex too.
pub open spec fn spec_convert_meta(q: Seq<char>) -> Result<Seq<char>, SpecError> {
    if contains_at_all(q, "block { hash"@) || contains_at_all(q, "block { parentHash"@)
        || contains_at_all(q, "block { timestamp"@) || contains_at_all(q, "deployment"@)
        || contains_at_all(q, "hasIndexingErrors"@) {
        Err(SpecError::ComplexMeta)
    } else if contains_at_all(q, "_meta { block { number } }"@) {
        Ok("query {\n  chain_metadata {\n    latest_fetched_block_number\n  }\n}"@)
    } else if contains_at_all(q, "_meta"@) {
        Err(SpecError::ComplexMeta)
    } else {
        Err(SpecError::Invalid)
    }
}

/// Translate a query that mentions `_meta`.  Exactly the shape
/// `_meta { block { number } }` maps to the fixed chain-metadata query of
/// the target dialect; anything richer (block hash, parent hash,
/// timestamp, deployment, indexing-error flags) is rejected.
pub fn convert_meta_query(query: &str) -> (r: Result<String, ConversionError>)
    ensures
        crate::res_matches(&r, spec_convert_meta(query@)),
{
    if contains_sub(query, "block { hash") || contains_sub(query, "block { parentHash")
        || contains_sub(query, "block { timestamp") || contains_sub(query, "deployment")
        || contains_sub(query, "hasIndexingErrors") {
        return Err(ConversionError::ComplexMetaQuery);
    }
    if contains_sub(query, "_meta { block { number } }") {
        return Ok(
            String::from_str("query {\n  chain_metadata {\n    latest_fetched_block_number\n  }\n}"),
        );
    }
    if contains_sub(query, "_meta") {
        return Err(ConversionError::ComplexMetaQuery);
    }
    Err(ConversionError::InvalidQueryFormat)
}

} // verus!
