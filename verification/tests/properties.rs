use serde_json::Value;
use subgraph_converter::argmap::ArgMap;
use subgraph_converter::{
    convert_basic_filter_to_hasura_condition, convert_meta_query, convert_payload_query,
    convert_query_structure, convert_subgraph_to_hyperindex, extract_fragments_and_main_query,
    flatten_where_map, parse_graphql_params, pluralize_lowercase, sanitize_selection_set,
    singularize_and_capitalize, ConversionError, FieldSets, QueryField,
};

fn create_payload(query: &str) -> Value {
    let mut m = serde_json::Map::new();
    m.insert("query".to_string(), Value::String(query.to_string()));
    Value::Object(m)
}

#[test]
fn flattened_and_nested_where_agree() {
    let nested = create_payload("query { streams(where: {a: {b: \"x\"}}) { id } }");
    let flat = create_payload("query { streams(where: {a.b: \"x\"}) { id } }");
    let out_nested = convert_subgraph_to_hyperindex(&nested, None).unwrap();
    let out_flat = convert_subgraph_to_hyperindex(&flat, None).unwrap();
    assert_eq!(out_nested, out_flat);
    assert!(out_nested["query"].as_str().unwrap().contains("a: {b: {_eq: \"x\"}}"));
}

#[test]
fn flatten_map_is_idempotent_on_values() {
    let mut m = ArgMap::new();
    m.insert("where".to_string(), "{alias_contains: \"113\", chainId: \"1\"}".to_string());
    m.insert("first".to_string(), "10".to_string());
    let flat = flatten_where_map(m);
    let flat_entries = flat.entries.clone();
    let again = flatten_where_map(flat);
    assert_eq!(flat_entries, again.entries);
    assert!(again.entries.iter().all(|(k, _)| k != "where"));
}

#[test]
fn primary_key_ignores_chain_id() {
    let payload = create_payload("query { stream(id: \"7\") { id } }");
    let with_chain = convert_subgraph_to_hyperindex(&payload, Some("42")).unwrap();
    let without = convert_subgraph_to_hyperindex(&payload, None).unwrap();
    assert_eq!(with_chain, without);
    let q = with_chain["query"].as_str().unwrap();
    assert!(q.contains("stream_by_pk(id: \"7\")"));
    assert!(!q.contains("chainId"));
    assert!(!q.contains("where"));
}

#[test]
fn pluralization_round_trips() {
    assert_eq!(singularize_and_capitalize("tranches"), "Tranche");
    assert_eq!(pluralize_lowercase("Tranche"), "tranches");
    assert_eq!(singularize_and_capitalize("batches"), "Batch");
    assert_eq!(pluralize_lowercase("Batch"), "batches");
    assert_eq!(singularize_and_capitalize("streams"), "Stream");
    assert_eq!(pluralize_lowercase("Stream"), "streams");
    assert_eq!(singularize_and_capitalize("users"), "User");
    assert_eq!(pluralize_lowercase("User"), "users");
    assert_eq!(singularize_and_capitalize("companies"), "Company");
    assert_eq!(pluralize_lowercase("Company"), "companies");
}

#[test]
fn meta_query_shapes() {
    let ok = convert_meta_query("query { _meta { block { number } } }").unwrap();
    assert_eq!(ok, "query {\n  chain_metadata {\n    latest_fetched_block_number\n  }\n}");
    for bad in [
        "query { _meta { block { hash } } }",
        "query { _meta { block { parentHash } } }",
        "query { _meta { block { timestamp } } }",
        "query { _meta { deployment } }",
        "query { _meta { hasIndexingErrors } }",
        "query { _meta { block { number timestamp } } }",
    ] {
        match convert_meta_query(bad) {
            Err(ConversionError::ComplexMetaQuery) => {}
            other => panic!("expected ComplexMetaQuery for {bad}, got {other:?}"),
        }
    }
}

#[test]
fn entity_reference_heuristic_direct() {
    let nested_sel = FieldSets { nested: vec!["pair".to_string()], regular: vec!["id".to_string()] };
    let cond = convert_basic_filter_to_hasura_condition("pair", "\"0\"", &nested_sel).unwrap();
    assert_eq!(cond, "pair: {id: {_eq: \"0\"}}");
    let scalar_sel = FieldSets { nested: vec![], regular: vec!["id".to_string(), "token".to_string()] };
    let cond = convert_basic_filter_to_hasura_condition("token", "\"0\"", &scalar_sel).unwrap();
    assert_eq!(cond, "token: {_eq: \"0\"}");
    let chain_sel = FieldSets { nested: vec!["chainId".to_string()], regular: vec![] };
    let cond = convert_basic_filter_to_hasura_condition("chainId", "\"1\"", &chain_sel).unwrap();
    assert_eq!(cond, "chainId: {_eq: \"1\"}");
}

#[test]
fn longest_suffix_wins() {
    let sets = FieldSets { nested: vec![], regular: vec![] };
    let cond =
        convert_basic_filter_to_hasura_condition("name_not_contains_nocase", "\"x\"", &sets).unwrap();
    assert_eq!(cond, "_not: {name: {_ilike: \"%x%\"}}");
    let cond = convert_basic_filter_to_hasura_condition("name_contains_nocase", "\"x\"", &sets).unwrap();
    assert_eq!(cond, "name: {_ilike: \"%x%\"}");
    let cond = convert_basic_filter_to_hasura_condition("name_not_in", "[1, 2]", &sets).unwrap();
    assert_eq!(cond, "name: {_nin: [1, 2]}");
    let cond = convert_basic_filter_to_hasura_condition("name_not", "1", &sets).unwrap();
    assert_eq!(cond, "name: {_neq: 1}");
}

#[test]
fn same_base_filters_combine_under_and() {
    let payload = create_payload("query { streams(amount_gt: 100, amount_lte: 1000) { id amount } }");
    let result = convert_subgraph_to_hyperindex(&payload, None).unwrap();
    let q = result["query"].as_str().unwrap();
    assert_eq!(
        q,
        "query {\n  Stream(where: {_and: [{amount: {_gt: 100}}, {amount: {_lte: 1000}}]}) {\n    id amount\n  }\n}"
    );
}

#[test]
fn payload_field_errors_are_exact() {
    match convert_payload_query(&QueryField::Missing, None) {
        Err(ConversionError::MissingField(f)) => assert_eq!(f, "query"),
        other => panic!("expected MissingField, got {other:?}"),
    }
    match convert_payload_query(&QueryField::NotText, None) {
        Err(ConversionError::InvalidQueryFormat) => {}
        other => panic!("expected InvalidQueryFormat, got {other:?}"),
    }
    let ok = convert_payload_query(
        &QueryField::Text("query { streams { id } }".to_string()),
        None,
    )
    .unwrap();
    assert_eq!(ok, "query {\n  Stream {\n    id\n  }\n}");
}

#[test]
fn fragments_survive_with_arguments_stripped() {
    let (fragments, main) = extract_fragments_and_main_query(
        "query { actions { ...A } } fragment A on Action { id stream(first: 5) { id } }",
    )
    .unwrap();
    assert_eq!(fragments, "fragment A on Action {id stream { id }}");
    assert_eq!(main, "query { actions { ...A } }");
}

#[test]
fn sanitize_preserves_paren_free_text() {
    let s = "id name ...SpreadName nested { a b }";
    assert_eq!(sanitize_selection_set(s), s);
    assert_eq!(sanitize_selection_set("a(first: 1, skip: (2)) b"), "a b");
}

#[test]
fn parse_params_handles_strings_and_depth() {
    let mut m = ArgMap::new();
    parse_graphql_params("name: \"a, b\", ids: [1, 2], where: {x_gt: 3}", &mut m).unwrap();
    assert_eq!(m.get_value("name").unwrap(), "\"a, b\"");
    assert_eq!(m.get_value("ids").unwrap(), "[1, 2]");
    assert_eq!(m.get_value("x_gt").unwrap(), "3");
    assert!(m.get_value("where").is_none());
}

#[test]
fn dotted_paths_from_nested_objects() {
    let mut m = ArgMap::new();
    parse_graphql_params("pair: {token: {amount: \"0\"}}", &mut m).unwrap();
    assert_eq!(m.get_value("pair.token.amount").unwrap(), "\"0\"");
}

#[test]
fn unterminated_query_is_invalid() {
    match convert_query_structure("query { streams(first: 10 { id }", None) {
        Err(ConversionError::InvalidQueryFormat) => {}
        other => panic!("expected InvalidQueryFormat, got {other:?}"),
    }
}

#[test]
fn variable_pagination_is_omitted() {
    let payload = create_payload("query { streams(first: $count, skip: 5) { id } }");
    let result = convert_subgraph_to_hyperindex(&payload, None).unwrap();
    let q = result["query"].as_str().unwrap();
    assert!(!q.contains("limit"));
    assert!(q.contains("offset: 5"));
}

#[test]
fn error_messages_echo_the_detail() {
    let e = ConversionError::UnsupportedFilter("tags_containsAny".to_string());
    assert_eq!(e.message(), "Unsupported filter: tags_containsAny");
    let e = ConversionError::MissingField("query".to_string());
    assert_eq!(e.message(), "Missing required field: query");
    assert_eq!(ConversionError::InvalidQueryFormat.message(), "Invalid GraphQL query format");
}

#[test]
fn multiple_entities_translate_in_order() {
    let payload = create_payload(
        "query { streams(first: 5) { id } actions(first: 3) { id } assets { id } }",
    );
    let result = convert_subgraph_to_hyperindex(&payload, None).unwrap();
    let q = result["query"].as_str().unwrap();
    assert_eq!(
        q,
        "query {\n  Stream(limit: 5) {\n    id\n  }\n  Action(limit: 3) {\n    id\n  }\n  Asset {\n    id\n  }\n}"
    );
}

#[test]
fn stop_listed_tokens_are_not_entities() {
    let payload = create_payload("query { on { id } streams { id } }");
    let result = convert_subgraph_to_hyperindex(&payload, None).unwrap();
    let q = result["query"].as_str().unwrap();
    assert!(q.contains("Stream"));
    assert!(!q.contains("On {"));
}

#[test]
fn variable_order_by_is_omitted() {
    let payload = create_payload("query { streams(orderBy: $field, orderDirection: desc) { id } }");
    let result = convert_subgraph_to_hyperindex(&payload, None).unwrap();
    let q = result["query"].as_str().unwrap();
    assert!(!q.contains("order_by"));
}

#[test]
fn order_direction_defaults_to_ascending() {
    let payload = create_payload("query { streams(orderBy: name) { id } }");
    let result = convert_subgraph_to_hyperindex(&payload, None).unwrap();
    let q = result["query"].as_str().unwrap();
    assert!(q.contains("order_by: {name: asc}"));
}

#[test]
fn escaped_quotes_stay_inside_values() {
    let mut m = ArgMap::new();
    parse_graphql_params("name: \"a \\\" , b\", first: 2", &mut m).unwrap();
    assert_eq!(m.get_value("name").unwrap(), "\"a \\\" , b\"");
    assert_eq!(m.get_value("first").unwrap(), "2");
}

#[test]
fn where_conditions_sort_by_base_field() {
    let payload = create_payload("query { streams(zeta: 1, alpha: 2) { id } }");
    let result = convert_subgraph_to_hyperindex(&payload, Some("9")).unwrap();
    let q = result["query"].as_str().unwrap();
    assert!(q.contains(
        "where: {chainId: {_eq: \"9\"}, alpha: {id: {_eq: 2}}, zeta: {id: {_eq: 1}}}"
    ));
}
