use serde_json::Value;
use subgraph_converter::{pluralize_lowercase, transform_response_to_subgraph_shape};

#[test]
fn test_pluralize_lowercase_basic() {
    assert_eq!(pluralize_lowercase("Stream"), "streams");
    assert_eq!(pluralize_lowercase("Batch"), "batches");
    assert_eq!(pluralize_lowercase("Asset"), "assets");
    assert_eq!(pluralize_lowercase("Action"), "actions");
}

fn one_item(id: u64) -> Value {
    let mut m = serde_json::Map::new();
    m.insert("id".to_string(), Value::Number(serde_json::Number::from(id)));
    Value::Object(m)
}

#[test]
fn test_transform_data_keys() {
    let mut data = serde_json::Map::new();
    data.insert("Stream".to_string(), Value::Array(vec![one_item(1)]));
    data.insert("Batch".to_string(), Value::Array(vec![one_item(2)]));
    data.insert("stream_by_pk".to_string(), one_item(3));
    let mut root = serde_json::Map::new();
    root.insert("data".to_string(), Value::Object(data));
    let resp = Value::Object(root);
    let out = transform_response_to_subgraph_shape(resp);
    let data = out.get("data").unwrap();
    assert!(data.get("streams").is_some());
    assert!(data.get("batches").is_some());
    assert!(data.get("stream").is_some());
    assert!(data.get("Stream").is_none());
    assert!(data.get("Batch").is_none());
    assert!(data.get("stream_by_pk").is_none());
}
