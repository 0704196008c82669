//! Translates queries written in a subgraph-style GraphQL dialect
//! (filter suffixes such as `_gt` and `_contains_nocase`, `first`/`skip`
//! pagination, `where: {...}` filter objects) into an equivalent query in a
//! Hasura-style dialect (`limit`/`offset`, `order_by`, structured comparison
//! objects such as `{_eq: ...}`).

use vstd::prelude::*;

pub mod argmap;
pub mod chars;
pub mod convert;
pub mod entities;
pub mod fields;
pub mod filters;
pub mod fragments;
pub mod json;
pub mod laws;
pub mod meta;
pub mod names;
pub mod params;
pub mod scanner;

pub use argmap::ArgMap;
pub use convert::{convert_main_query, convert_query_structure};
pub use entities::extract_multiple_entities;
pub use fields::{
    extract_field_info_from_selection_recursive, sanitize_fragment_arguments,
    sanitize_selection_set, ChildInfo, FieldSets,
};
pub use filters::{convert_basic_filter_to_hasura_condition, convert_filters_to_where_clause,
    process_nested_filters_recursive};
pub use fragments::extract_fragments_and_main_query;
pub use json::{convert_payload_query, convert_subgraph_to_hyperindex, transform_data_entries,
    transform_response_to_subgraph_shape, QueryField};
pub use meta::convert_meta_query;
pub use names::{is_pascal_case, pluralize_lowercase, singularize_and_capitalize,
    transform_data_key};
pub use params::{flatten_where_map, parse_graphql_params, parse_nested_where_clause,
    parse_single_param};

verus! {

/// A translation failure: the input query (or a filter it uses) cannot be
/// expressed in the target dialect.  All failures are local and
/// non-retryable.
#[derive(Debug)]
pub enum ConversionError {
    /// The query text is structurally malformed (unbalanced delimiters,
    /// missing required pieces) or the payload's query field is not text.
    InvalidQueryFormat,
    /// The request payload lacks a required field (named here).
    MissingField(String),
    /// The filter path named here belongs to a suffix family that the
    /// target dialect does not support.
    UnsupportedFilter(String),
    /// A `_meta` query in any shape other than `_meta { block { number } }`.
    ComplexMetaQuery,
}

/// Mathematical model of a [`ConversionError`], over character sequences.
pub enum SpecError {
    Invalid,
    Missing(Seq<char>),
    Unsupported(Seq<char>),
    ComplexMeta,
}

/// The executable error `e` carries exactly the model `m`.
pub open spec fn err_matches(e: &ConversionError, m: SpecError) -> bool {
    match (e, m) {
        (ConversionError::InvalidQueryFormat, SpecError::Invalid) => true,
        (ConversionError::MissingField(f), SpecError::Missing(g)) => f@ == g,
        (ConversionError::UnsupportedFilter(f), SpecError::Unsupported(g)) => f@ == g,
        (ConversionError::ComplexMetaQuery, SpecError::ComplexMeta) => true,
        _ => false,
    }
}

/// The executable outcome `r` carries exactly the model `m`: the same text
/// on success, a matching error otherwise.
pub open spec fn res_matches(r: &Result<String, ConversionError>, m: Result<
    Seq<char>,
    SpecError,
>) -> bool {
    match r {
        Ok(s) => m == Ok::<Seq<char>, SpecError>(s@),
        Err(e) => m is Err && err_matches(e, m->Err_0),
    }
}

impl ConversionError {
    /// The human-readable message surfaced to callers, with the failing
    /// detail echoed back verbatim.
    pub fn message(&self) -> (r: String)
        ensures
            match self {
                ConversionError::InvalidQueryFormat => r@ == "Invalid GraphQL query format"@,
                ConversionError::MissingField(f) => r@ == "Missing required field: "@ + f@,
                ConversionError::UnsupportedFilter(f) => r@ == "Unsupported filter: "@ + f@,
                ConversionError::ComplexMetaQuery => r@
                    == "Complex _meta queries are not supported. Only _meta { block { number } } is currently available"@,
            },
    {
        match self {
            ConversionError::InvalidQueryFormat => String::from_str("Invalid GraphQL query format"),
            ConversionError::MissingField(f) => {
                let mut r = String::from_str("Missing required field: ");
                r.append(f.as_str());
                r
            },
            ConversionError::UnsupportedFilter(f) => {
                let mut r = String::from_str("Unsupported filter: ");
                r.append(f.as_str());
                r
            },
            ConversionError::ComplexMetaQuery => String::from_str(
                "Complex _meta queries are not supported. Only _meta { block { number } } is currently available",
            ),
        }
    }
}

} // verus!
