use serde_json::Value;
use subgraph_converter::{convert_subgraph_to_hyperindex, singularize_and_capitalize, ConversionError};

fn create_test_payload(query: &str) -> Value {
    let mut m = serde_json::Map::new();
    m.insert("query".to_string(), Value::String(query.to_string()));
    Value::Object(m)
}

fn expected_payload(query: &str) -> Value {
    create_test_payload(query)
}

#[test]
fn test_basic_collection_query() {
    let payload = create_test_payload("query { streams(first: 10, skip: 0) { id name } }");
    let result = convert_subgraph_to_hyperindex(&payload, Some("1")).unwrap();
    let expected = expected_payload("query {\n  Stream(limit: 10, offset: 0, where: {chainId: {_eq: \"1\"}}) {\n    id name\n  }\n}");
    assert_eq!(result, expected);
}

#[test]
fn test_single_entity_query() {
    let payload = create_test_payload("query { stream(id: \"123\") { id name } }");
    let result = convert_subgraph_to_hyperindex(&payload, Some("1")).unwrap();
    let expected = expected_payload("query {\n  stream_by_pk(id: \"123\") {\n    id name\n  }\n}");
    assert_eq!(result, expected);
}

#[test]
fn test_meta_query_simple() {
    let payload = create_test_payload("query { _meta { block { number } } }");
    let result = convert_subgraph_to_hyperindex(&payload, Some("1")).unwrap();
    let expected = expected_payload("query {\n  chain_metadata {\n    latest_fetched_block_number\n  }\n}");
    assert_eq!(result, expected);
}

#[test]
fn test_meta_query_complex() {
    let payload = create_test_payload("query { _meta { block { hash number } } }");
    let result = convert_subgraph_to_hyperindex(&payload, Some("1"));
    assert!(result.is_err());
    match result {
        Err(ConversionError::ComplexMetaQuery) => {}
        _ => panic!("Expected ComplexMetaQuery error"),
    }
}

#[test]
fn test_equality_filter() {
    let payload = create_test_payload("query { streams(name: \"test\") { id name } }");
    let result = convert_subgraph_to_hyperindex(&payload, Some("1")).unwrap();
    let expected = expected_payload("query {\n  Stream(where: {chainId: {_eq: \"1\"}, name: {_eq: \"test\"}}) {\n    id name\n  }\n}");
    assert_eq!(result, expected);
}

#[test]
fn test_not_filter() {
    let payload = create_test_payload("query { streams(name_not: \"test\") { id name } }");
    let result = convert_subgraph_to_hyperindex(&payload, Some("1")).unwrap();
    let expected = expected_payload("query {\n  Stream(where: {chainId: {_eq: \"1\"}, name: {_neq: \"test\"}}) {\n    id name\n  }\n}");
    assert_eq!(result, expected);
}

#[test]
fn test_greater_than_filter() {
    let payload = create_test_payload("query { streams(amount_gt: 100) { id amount } }");
    let result = convert_subgraph_to_hyperindex(&payload, Some("1")).unwrap();
    let expected = expected_payload("query {\n  Stream(where: {chainId: {_eq: \"1\"}, amount: {_gt: 100}}) {\n    id amount\n  }\n}");
    assert_eq!(result, expected);
}

#[test]
fn test_greater_than_or_equal_filter() {
    let payload = create_test_payload("query { streams(amount_gte: 100) { id amount } }");
    let result = convert_subgraph_to_hyperindex(&payload, Some("1")).unwrap();
    let expected = expected_payload("query {\n  Stream(where: {chainId: {_eq: \"1\"}, amount: {_gte: 100}}) {\n    id amount\n  }\n}");
    assert_eq!(result, expected);
}

#[test]
fn test_less_than_filter() {
    let payload = create_test_payload("query { streams(amount_lt: 100) { id amount } }");
    let result = convert_subgraph_to_hyperindex(&payload, Some("1")).unwrap();
    let expected = expected_payload("query {\n  Stream(where: {chainId: {_eq: \"1\"}, amount: {_lt: 100}}) {\n    id amount\n  }\n}");
    assert_eq!(result, expected);
}

#[test]
fn test_less_than_or_equal_filter() {
    let payload = create_test_payload("query { streams(amount_lte: 100) { id amount } }");
    let result = convert_subgraph_to_hyperindex(&payload, Some("1")).unwrap();
    let expected = expected_payload("query {\n  Stream(where: {chainId: {_eq: \"1\"}, amount: {_lte: 100}}) {\n    id amount\n  }\n}");
    assert_eq!(result, expected);
}

#[test]
fn test_in_filter() {
    let payload = create_test_payload("query { streams(id_in: [\"1\", \"2\", \"3\"]) { id name } }");
    let result = convert_subgraph_to_hyperindex(&payload, Some("1")).unwrap();
    let expected = expected_payload("query {\n  Stream(where: {chainId: {_eq: \"1\"}, id: {_in: [\"1\", \"2\", \"3\"]}}) {\n    id name\n  }\n}");
    assert_eq!(result, expected);
}

#[test]
fn test_not_in_filter() {
    let payload = create_test_payload("query { streams(id_not_in: [\"1\", \"2\", \"3\"]) { id name } }");
    let result = convert_subgraph_to_hyperindex(&payload, Some("1")).unwrap();
    let expected = expected_payload("query {\n  Stream(where: {chainId: {_eq: \"1\"}, id: {_nin: [\"1\", \"2\", \"3\"]}}) {\n    id name\n  }\n}");
    assert_eq!(result, expected);
}

#[test]
fn test_contains_filter() {
    let payload = create_test_payload("query { streams(name_contains: \"test\") { id name } }");
    let result = convert_subgraph_to_hyperindex(&payload, Some("1")).unwrap();
    let expected = expected_payload("query {\n  Stream(where: {chainId: {_eq: \"1\"}, name: {_ilike: \"%test%\"}}) {\n    id name\n  }\n}");
    assert_eq!(result, expected);
}

#[test]
fn test_not_contains_filter() {
    let payload = create_test_payload("query { streams(name_not_contains: \"test\") { id name } }");
    let result = convert_subgraph_to_hyperindex(&payload, Some("1")).unwrap();
    let expected = expected_payload("query {\n  Stream(where: {chainId: {_eq: \"1\"}, _not: {name: {_ilike: \"%test%\"}}}) {\n    id name\n  }\n}");
    assert_eq!(result, expected);
}

#[test]
fn test_starts_with_filter() {
    let payload = create_test_payload("query { streams(name_starts_with: \"test\") { id name } }");
    let result = convert_subgraph_to_hyperindex(&payload, Some("1")).unwrap();
    let expected = expected_payload("query {\n  Stream(where: {chainId: {_eq: \"1\"}, name: {_ilike: \"test%\"}}) {\n    id name\n  }\n}");
    assert_eq!(result, expected);
}

#[test]
fn test_ends_with_filter() {
    let payload = create_test_payload("query { streams(name_ends_with: \"test\") { id name } }");
    let result = convert_subgraph_to_hyperindex(&payload, Some("1")).unwrap();
    let expected = expected_payload("query {\n  Stream(where: {chainId: {_eq: \"1\"}, name: {_ilike: \"%test\"}}) {\n    id name\n  }\n}");
    assert_eq!(result, expected);
}

#[test]
fn test_not_starts_with_filter() {
    let payload = create_test_payload("query { streams(name_not_starts_with: \"test\") { id name } }");
    let result = convert_subgraph_to_hyperindex(&payload, Some("1")).unwrap();
    let expected = expected_payload("query {\n  Stream(where: {chainId: {_eq: \"1\"}, _not: {name: {_ilike: \"test%\"}}}) {\n    id name\n  }\n}");
    assert_eq!(result, expected);
}

#[test]
fn test_not_ends_with_filter() {
    let payload = create_test_payload("query { streams(name_not_ends_with: \"test\") { id name } }");
    let result = convert_subgraph_to_hyperindex(&payload, Some("1")).unwrap();
    let expected = expected_payload("query {\n  Stream(where: {chainId: {_eq: \"1\"}, _not: {name: {_ilike: \"%test\"}}}) {\n    id name\n  }\n}");
    assert_eq!(result, expected);
}

#[test]
fn test_contains_nocase_filter() {
    let payload = create_test_payload("query { streams(name_contains_nocase: \"test\") { id name } }");
    let result = convert_subgraph_to_hyperindex(&payload, Some("1")).unwrap();
    let expected = expected_payload("query {\n  Stream(where: {chainId: {_eq: \"1\"}, name: {_ilike: \"%test%\"}}) {\n    id name\n  }\n}");
    assert_eq!(result, expected);
}

#[test]
fn test_not_contains_nocase_filter() {
    let payload = create_test_payload("query { streams(name_not_contains_nocase: \"test\") { id name } }");
    let result = convert_subgraph_to_hyperindex(&payload, Some("1")).unwrap();
    let expected = expected_payload("query {\n  Stream(where: {chainId: {_eq: \"1\"}, _not: {name: {_ilike: \"%test%\"}}}) {\n    id name\n  }\n}");
    assert_eq!(result, expected);
}

#[test]
fn test_starts_with_nocase_filter() {
    let payload = create_test_payload("query { streams(name_starts_with_nocase: \"test\") { id name } }");
    let result = convert_subgraph_to_hyperindex(&payload, Some("1")).unwrap();
    let expected = expected_payload("query {\n  Stream(where: {chainId: {_eq: \"1\"}, name: {_ilike: \"test%\"}}) {\n    id name\n  }\n}");
    assert_eq!(result, expected);
}

#[test]
fn test_ends_with_nocase_filter() {
    let payload = create_test_payload("query { streams(name_ends_with_nocase: \"test\") { id name } }");
    let result = convert_subgraph_to_hyperindex(&payload, Some("1")).unwrap();
    let expected = expected_payload("query {\n  Stream(where: {chainId: {_eq: \"1\"}, name: {_ilike: \"%test\"}}) {\n    id name\n  }\n}");
    assert_eq!(result, expected);
}

#[test]
fn test_not_starts_with_nocase_filter() {
    let payload = create_test_payload("query { streams(name_not_starts_with_nocase: \"test\") { id name } }");
    let result = convert_subgraph_to_hyperindex(&payload, Some("1")).unwrap();
    let expected = expected_payload("query {\n  Stream(where: {chainId: {_eq: \"1\"}, _not: {name: {_ilike: \"test%\"}}}) {\n    id name\n  }\n}");
    assert_eq!(result, expected);
}

#[test]
fn test_not_ends_with_nocase_filter() {
    let payload = create_test_payload("query { streams(name_not_ends_with_nocase: \"test\") { id name } }");
    let result = convert_subgraph_to_hyperindex(&payload, Some("1")).unwrap();
    let expected = expected_payload("query {\n  Stream(where: {chainId: {_eq: \"1\"}, _not: {name: {_ilike: \"%test\"}}}) {\n    id name\n  }\n}");
    assert_eq!(result, expected);
}

#[test]
fn test_unsupported_contains_any_filter() {
    let payload = create_test_payload("query { streams(tags_containsAny: [\"tag1\", \"tag2\"]) { id name } }");
    let result = convert_subgraph_to_hyperindex(&payload, Some("1"));
    assert!(result.is_err());
    match result {
        Err(ConversionError::UnsupportedFilter(filter)) => {
            assert_eq!(filter, "tags_containsAny");
        }
        _ => panic!("Expected UnsupportedFilter error"),
    }
}

#[test]
fn test_unsupported_contains_all_filter() {
    let payload = create_test_payload("query { streams(tags_containsAll: [\"tag1\", \"tag2\"]) { id name } }");
    let result = convert_subgraph_to_hyperindex(&payload, Some("1"));
    assert!(result.is_err());
    match result {
        Err(ConversionError::UnsupportedFilter(filter)) => {
            assert_eq!(filter, "tags_containsAll");
        }
        _ => panic!("Expected UnsupportedFilter error"),
    }
}

#[test]
fn test_multiple_filters() {
    let payload = create_test_payload(
        "query { streams(name_contains: \"test\", amount_gt: 100, status: \"active\") { id name amount status } }",
    );
    let result = convert_subgraph_to_hyperindex(&payload, Some("1")).unwrap();
    let query = result["query"].as_str().unwrap();
    assert!(query.contains("chainId: {_eq: \"1\"}"));
    assert!(query.contains("name: {_ilike: \"%test%\"}"));
    assert!(query.contains("amount: {_gt: 100}"));
    assert!(query.contains("status: {_eq: \"active\"}"));
    assert!(query.contains("id name amount status"));
    assert!(query.contains("Stream"));
}

#[test]
fn test_non_stream_entity() {
    let payload = create_test_payload("query { users(name_contains: \"john\") { id name } }");
    let result = convert_subgraph_to_hyperindex(&payload, Some("1")).unwrap();
    let expected = expected_payload("query {\n  User(where: {chainId: {_eq: \"1\"}, name: {_ilike: \"%john%\"}}) {\n    id name\n  }\n}");
    assert_eq!(result, expected);
}

#[test]
fn test_pagination_parameters() {
    let payload = create_test_payload("query { streams(first: 5, skip: 10) { id name } }");
    let result = convert_subgraph_to_hyperindex(&payload, Some("1")).unwrap();
    let expected = expected_payload("query {\n  Stream(limit: 5, offset: 10, where: {chainId: {_eq: \"1\"}}) {\n    id name\n  }\n}");
    assert_eq!(result, expected);
}

#[test]
fn test_order_parameters() {
    let payload = create_test_payload("query { streams(orderBy: name, orderDirection: desc) { id name } }");
    let result = convert_subgraph_to_hyperindex(&payload, Some("1")).unwrap();
    let expected = expected_payload("query {\n  Stream(order_by: {name: desc}, where: {chainId: {_eq: \"1\"}}) {\n    id name\n  }\n}");
    assert_eq!(result, expected);
}

#[test]
fn test_order_by_with_skip_and_where() {
    let payload = create_test_payload(
        "query { streams(orderBy: alias, skip: 10, where: {alias_contains: \"113\"}) { alias asset { address } } }",
    );
    let result = convert_subgraph_to_hyperindex(&payload, Some("1")).unwrap();
    let expected = expected_payload("query {\n  Stream(offset: 10, order_by: {alias: asc}, where: {chainId: {_eq: \"1\"}, alias: {_ilike: \"%113%\"}}) {\n    alias asset { address }\n  }\n}");
    assert_eq!(result, expected);
}

#[test]
fn test_complex_selection_set() {
    let payload = create_test_payload("query { streams { id name amount status { id name } } }");
    let result = convert_subgraph_to_hyperindex(&payload, Some("1")).unwrap();
    let expected = expected_payload("query {\n  Stream(where: {chainId: {_eq: \"1\"}}) {\n    id name amount status { id name }\n  }\n}");
    assert_eq!(result, expected);
}

#[test]
fn test_missing_query_field() {
    let payload = Value::Object(serde_json::Map::new());
    let result = convert_subgraph_to_hyperindex(&payload, Some("1"));
    assert!(result.is_err());
    match result {
        Err(ConversionError::MissingField(field)) => {
            assert_eq!(field, "query");
        }
        _ => panic!("Expected MissingField error"),
    }
}

#[test]
fn test_invalid_query_format() {
    let mut m = serde_json::Map::new();
    m.insert("query".to_string(), Value::Number(serde_json::Number::from(123u64)));
    let payload = Value::Object(m);
    let result = convert_subgraph_to_hyperindex(&payload, Some("1"));
    assert!(result.is_err());
    match result {
        Err(ConversionError::InvalidQueryFormat) => {}
        _ => panic!("Expected InvalidQueryFormat error"),
    }
}

#[test]
fn test_singularize_and_capitalize() {
    assert_eq!(singularize_and_capitalize("streams"), "Stream");
    assert_eq!(singularize_and_capitalize("users"), "User");
    assert_eq!(singularize_and_capitalize("stream"), "Stream");
    assert_eq!(singularize_and_capitalize("user"), "User");
}

#[test]
fn test_basic_collection_query_no_chain_id() {
    let payload = create_test_payload("query { streams(first: 10, skip: 0) { id name } }");
    let result = convert_subgraph_to_hyperindex(&payload, None).unwrap();
    let expected = expected_payload("query {\n  Stream(limit: 10, offset: 0) {\n    id name\n  }\n}");
    assert_eq!(result, expected);
}

#[test]
fn test_single_entity_query_no_chain_id() {
    let payload = create_test_payload("query { stream(id: \"123\") { id name } }");
    let result = convert_subgraph_to_hyperindex(&payload, None).unwrap();
    let expected = expected_payload("query {\n  stream_by_pk(id: \"123\") {\n    id name\n  }\n}");
    assert_eq!(result, expected);
}

#[test]
fn test_equality_filter_no_chain_id() {
    let payload = create_test_payload("query { streams(name: \"test\") { id name } }");
    let result = convert_subgraph_to_hyperindex(&payload, None).unwrap();
    let expected = expected_payload("query {\n  Stream(where: {name: {_eq: \"test\"}}) {\n    id name\n  }\n}");
    assert_eq!(result, expected);
}

#[test]
fn test_non_stream_entity_no_chain_id() {
    let payload = create_test_payload("query { users(name_contains: \"john\") { id name } }");
    let result = convert_subgraph_to_hyperindex(&payload, None).unwrap();
    let expected = expected_payload("query {\n  User(where: {name: {_ilike: \"%john%\"}}) {\n    id name\n  }\n}");
    assert_eq!(result, expected);
}

#[test]
fn test_different_chain_id() {
    let payload = create_test_payload("query { streams(name: \"test\") { id name } }");
    let result = convert_subgraph_to_hyperindex(&payload, Some("5")).unwrap();
    let expected = expected_payload("query {\n  Stream(where: {chainId: {_eq: \"5\"}, name: {_eq: \"test\"}}) {\n    id name\n  }\n}");
    assert_eq!(result, expected);
}

#[test]
fn test_where_clause_with_multiple_filters() {
    let payload = create_test_payload(
        "query { streams(where: {alias_contains: \"113\", chainId: \"1\"}) { id alias } }",
    );
    let result = convert_subgraph_to_hyperindex(&payload, Some("1")).unwrap();
    let query = result["query"].as_str().unwrap();
    assert!(query.contains("alias: {_ilike: \"%113%\"}"));
    assert!(query.contains("chainId: {_eq: \"1\"}"));
    assert!(query.contains("Stream"));
}

#[test]
fn test_where_clause_single_filter() {
    let payload = create_test_payload("query { streams(where: {alias_contains: \"113\"}) { id alias } }");
    let result = convert_subgraph_to_hyperindex(&payload, Some("1")).unwrap();
    let query = result["query"].as_str().unwrap();
    assert!(query.contains("alias: {_ilike: \"%113%\"}"));
    assert!(query.contains("chainId: {_eq: \"1\"}"));
    assert!(query.contains("Stream"));
}

#[test]
fn test_named_query_with_fragments_after_operation() {
    let payload = create_test_payload(
        "query GetActions { actions { ...ActionFragment } }\nfragment ContractFragment on Contract { id address category version }\nfragment ActionFragment on Action { id chainId stream { id } category hash block timestamp from addressA addressB amountA amountB contract { ...ContractFragment } }",
    );
    let result = convert_subgraph_to_hyperindex(&payload, Some("1")).unwrap();
    let query = result["query"].as_str().unwrap();
    assert!(query.contains("fragment ContractFragment on Contract"));
    assert!(query.contains("fragment ActionFragment on Action"));
    assert!(query.contains("Action("));
    assert!(query.contains("where: {chainId: {_eq: \"1\"}}"));
    assert!(query.contains("...ActionFragment"));
}

#[test]
fn test_single_line_query_with_fragments() {
    let payload = create_test_payload(
        "query GetActions { actions { ...ActionFragment } } fragment ContractFragment on Contract { id address category version } fragment ActionFragment on Action { id chainId stream { id } category hash block timestamp from addressA addressB amountA amountB contract { ...ContractFragment } }",
    );
    let result = convert_subgraph_to_hyperindex(&payload, Some("1")).unwrap();
    let query = result["query"].as_str().unwrap();
    assert!(query.contains("fragment ContractFragment on Contract"));
    assert!(query.contains("fragment ActionFragment on Action"));
    assert!(query.contains("Action("));
    assert!(query.contains("where: {chainId: {_eq: \"1\"}}"));
    assert!(query.contains("...ActionFragment"));
}

#[test]
fn test_batches_pluralization_with_fragment() {
    let payload = create_test_payload(
        "query GetBatches { batches { ...BatchFragment } } fragment BatchFragment on Batch { id label size }",
    );
    let result = convert_subgraph_to_hyperindex(&payload, Some("1")).unwrap();
    let query = result["query"].as_str().unwrap();
    assert!(query.contains("fragment BatchFragment on Batch"));
    assert!(query.contains("Batch("));
    assert!(query.contains("where: {chainId: {_eq: \"1\"}}"));
    assert!(query.contains("...BatchFragment"));
}

#[test]
fn test_tranches_pluralization_with_fragment() {
    let payload = create_test_payload(
        "query GetTranches { tranches { ...TrancheFragment } } fragment TrancheFragment on Tranche { id position amount timestamp endTime startTime startAmount endAmount }",
    );
    let result = convert_subgraph_to_hyperindex(&payload, Some("1")).unwrap();
    let query = result["query"].as_str().unwrap();
    assert!(query.contains("fragment TrancheFragment on Tranche"));
    assert!(query.contains("Tranche("));
    assert!(query.contains("where: {chainId: {_eq: \"1\"}}"));
    assert!(query.contains("...TrancheFragment"));
}

#[test]
fn test_boolean_filter_in_where_clause() {
    let payload = create_test_payload(
        "query Trades { trades(first: 10000, where: { isOpen: true }) { id trader isOpen } }",
    );
    let result = convert_subgraph_to_hyperindex(&payload, Some("1")).unwrap();
    let query = result["query"].as_str().unwrap();
    assert!(
        query.contains("isOpen: {_eq: true}"),
        "Expected isOpen: {{_eq: true}} in converted query, got: {}",
        query
    );
    assert!(query.contains("Trade("));
    assert!(query.contains("chainId: {_eq: \"1\"}"));
}

#[test]
fn test_boolean_filter_multiline_query_format() {
    let query = r#"query Trades {
                                        trades(
                                            first: 10000
                                            where: {
                                            isOpen: true
                                            }
                                        ) {
                                            id
                                            trader
                                            isOpen
                                        }
                                        }"#;
    let payload = create_test_payload(query);
    let result = convert_subgraph_to_hyperindex(&payload, Some("1")).unwrap();
    let converted_query = result["query"].as_str().unwrap();
    assert!(
        converted_query.contains("isOpen: {_eq: true}"),
        "Expected isOpen: {{_eq: true}} in converted query, got: {}",
        converted_query
    );
    assert!(converted_query.contains("Trade("));
}

#[test]
fn test_boolean_filter_not_operator_multiline() {
    let query = r#"query {
  trades(
    where: {
      isOpen_not: false
    }
  ) {
    id
    isOpen
  }
}"#;
    let payload = create_test_payload(query);
    let result = convert_subgraph_to_hyperindex(&payload, Some("1")).unwrap();
    let converted_query = result["query"].as_str().unwrap();
    assert!(
        converted_query.contains("isOpen: {_neq: false}"),
        "Expected isOpen: {{_neq: false}} in converted query, got: {}",
        converted_query
    );
}

#[test]
fn test_boolean_filter_in_operator_multiline() {
    let query = r#"query {
                                trades(
                                    where: {
                                    isOpen_in: [true, false]
                                    }
                                ) {
                                    id
                                    isOpen
                                }
                                }"#;
    let payload = create_test_payload(query);
    let result = convert_subgraph_to_hyperindex(&payload, Some("1")).unwrap();
    let converted_query = result["query"].as_str().unwrap();
    assert!(
        converted_query.contains("isOpen: {_in: [true, false]}"),
        "Expected isOpen: {{_in: [true, false]}} in converted query, got: {}",
        converted_query
    );
}

#[test]
fn test_boolean_filter_false_in_where_clause() {
    let payload = create_test_payload("query { streams(where: { isOpen: false }) { id isOpen } }");
    let result = convert_subgraph_to_hyperindex(&payload, Some("1")).unwrap();
    let query = result["query"].as_str().unwrap();
    assert!(
        query.contains("isOpen: {_eq: false}"),
        "Expected isOpen: {{_eq: false}} in converted query, got: {}",
        query
    );
}

#[test]
fn test_boolean_filter_with_other_filters() {
    let payload = create_test_payload(
        "query { trades(where: { isOpen: true, trader: \"0x123\" }) { id trader isOpen } }",
    );
    let result = convert_subgraph_to_hyperindex(&payload, Some("1")).unwrap();
    let query = result["query"].as_str().unwrap();
    assert!(
        query.contains("isOpen: {_eq: true}"),
        "Expected isOpen: {{_eq: true}} in converted query"
    );
    assert!(
        query.contains("trader: {_eq: \"0x123\"}"),
        "Expected trader: {{_eq: \"0x123\"}} in converted query"
    );
}

#[test]
fn test_numeric_operators_multiline_format() {
    let query = r#"query {
  streams(
    where: {
      amount_gt: 100
      amount_lte: 1000
    }
  ) {
    id
    amount
  }
}"#;
    let payload = create_test_payload(query);
    let result = convert_subgraph_to_hyperindex(&payload, Some("1")).unwrap();
    let converted_query = result["query"].as_str().unwrap();
    assert!(
        converted_query.contains("amount: {_gt: 100}"),
        "Expected amount: {{_gt: 100}} in converted query, got: {}",
        converted_query
    );
    assert!(
        converted_query.contains("amount: {_lte: 1000}"),
        "Expected amount: {{_lte: 1000}} in converted query, got: {}",
        converted_query
    );
}

#[test]
fn test_nested_entity_reference_in_where_clause() {
    let query = r#"query Trades {
  trades(
    first: 10000
    where: {
      pair: "0"
    }
  ) {
    id
    trader
    index
    tradeID
    tradeType
    openPrice
    closePrice
    takeProfitPrice
    stopLossPrice
    collateral
    notional
    tradeNotional
    highestLeverage
    leverage
    isBuy
    isOpen
    closeInitiated
    funding
    rollover
    timestamp
  }
}"#;
    let payload = create_test_payload(query);
    let result = convert_subgraph_to_hyperindex(&payload, Some("1")).unwrap();
    let converted_query = result["query"].as_str().unwrap();
    assert!(
        converted_query.contains("pair: {id: {_eq: \"0\"}}"),
        "Expected pair: {{id: {{_eq: \"0\"}}}} in converted query, got: {}",
        converted_query
    );
    assert!(
        !converted_query.contains("pair: {_eq:"),
        "Converted query should not contain 'pair: {{_eq:' in where clause, got: {}",
        converted_query
    );
}

#[test]
fn test_nested_entity_reference_with_other_filters() {
    let query = r#"query {
  trades(
    where: {
      pair: "0"
      isOpen: true
    }
  ) {
    id
    isOpen
    pair {
      id
    }
  }
}"#;
    let payload = create_test_payload(query);
    let result = convert_subgraph_to_hyperindex(&payload, Some("1")).unwrap();
    let converted_query = result["query"].as_str().unwrap();
    assert!(
        converted_query.contains("pair: {id: {_eq: \"0\"}}"),
        "Expected pair: {{id: {{_eq: \"0\"}}}} in converted query, got: {}",
        converted_query
    );
    assert!(
        converted_query.contains("isOpen: {_eq: true}"),
        "Expected isOpen: {{_eq: true}} in converted query, got: {}",
        converted_query
    );
}

#[test]
fn test_nested_entity_reference_with_operators() {
    let query = r#"query {
  trades(
    where: {
      pair: "0"
      amount_gt: 100
    }
  ) {
    id
    amount
    pair {
      id
    }
  }
}"#;
    let payload = create_test_payload(query);
    let result = convert_subgraph_to_hyperindex(&payload, Some("1")).unwrap();
    let converted_query = result["query"].as_str().unwrap();
    assert!(
        converted_query.contains("pair: {id: {_eq: \"0\"}}"),
        "Expected pair: {{id: {{_eq: \"0\"}}}} in converted query, got: {}",
        converted_query
    );
    assert!(
        converted_query.contains("amount: {_gt: 100}"),
        "Expected amount: {{_gt: 100}} in converted query, got: {}",
        converted_query
    );
}

#[test]
fn test_nested_entity_reference_with_nested_field_filter() {
    let query = r#"query {
  trades(
    where: {
      pair: {
        name: "ETH"
      }
    }
  ) {
    id
    pair {
      name
    }
  }
}"#;
    let payload = create_test_payload(query);
    let result = convert_subgraph_to_hyperindex(&payload, Some("1")).unwrap();
    let converted_query = result["query"].as_str().unwrap();
    assert!(
        converted_query.contains("pair: {name: {_eq: \"ETH\"}}"),
        "Expected pair: {{name: {{_eq: \"ETH\"}}}} in converted query, got: {}",
        converted_query
    );
}

#[test]
fn test_deeply_nested_entity_reference() {
    let query = r#"query {
  trades(
    where: {
      pair: {
        token: "0"
      }
    }
  ) {
    id
    pair {
      token {
        id
      }
    }
  }
}"#;
    let payload = create_test_payload(query);
    let result = convert_subgraph_to_hyperindex(&payload, Some("1")).unwrap();
    let converted_query = result["query"].as_str().unwrap();
    assert!(
        converted_query.contains("pair: {token: {id: {_eq: \"0\"}}}"),
        "Expected pair: {{token: {{id: {{_eq: \"0\"}}}}}} in converted query, got: {}",
        converted_query
    );
}

#[test]
fn test_deeply_nested_regular_field() {
    let query = r#"query {
  trades(
    where: {
      pair: {
        token: {
          amount: "0"
        }
      }
    }
  ) {
    id
    pair {
      token {
        id
        amount
      }
    }
  }
}"#;
    let payload = create_test_payload(query);
    let result = convert_subgraph_to_hyperindex(&payload, Some("1")).unwrap();
    let converted_query = result["query"].as_str().unwrap();
    assert!(
        converted_query.contains("pair: {token: {amount: {_eq: \"0\"}}}"),
        "Expected pair: {{token: {{amount: {{_eq: \"0\"}}}}}} in converted query, got: {}",
        converted_query
    );
    assert!(
        !converted_query.contains("pair: {token: {amount: {id: {_eq: \"0\"}}}}"),
        "Should NOT have id wrapper for regular field 'amount', got: {}",
        converted_query
    );
}

#[test]
fn test_nested_entity_with_non_id_field() {
    let query = r#"query {
  trades(
    where: {
      pair: {
        token: {
          name: "ETH"
        }
      }
    }
  ) {
    id
    pair {
      token {
        id
        name
      }
    }
  }
}"#;
    let payload = create_test_payload(query);
    let result = convert_subgraph_to_hyperindex(&payload, Some("1")).unwrap();
    let converted_query = result["query"].as_str().unwrap();
    assert!(
        converted_query.contains("pair: {token: {name: {_eq: \"ETH\"}}}"),
        "Expected pair: {{token: {{name: {{_eq: \"ETH\"}}}}}} in converted query, got: {}",
        converted_query
    );
    assert!(
        !converted_query.contains("pair: {token: {name: {id: {_eq: \"ETH\"}}}}"),
        "Should NOT have id wrapper for regular field 'name' within token, got: {}",
        converted_query
    );
}

#[test]
fn test_regular_field_in_selection() {
    let query = r#"query {
  trades(
    where: {
      token: "0"
    }
  ) {
    id
    token
  }
}"#;
    let payload = create_test_payload(query);
    let result = convert_subgraph_to_hyperindex(&payload, Some("1")).unwrap();
    let converted_query = result["query"].as_str().unwrap();
    assert!(
        converted_query.contains("token: {_eq: \"0\"}"),
        "Expected token: {{_eq: \"0\"}} (regular field) in converted query, got: {}",
        converted_query
    );
    assert!(
        !converted_query.contains("token: {id: {_eq: \"0\"}}"),
        "Should NOT have id wrapper for regular field 'token', got: {}",
        converted_query
    );
}
