use singer_protocol::json::Json;
use singer_protocol::catalog::Include;
use singer_protocol::catalog::ReplicationMethod;
use singer_protocol::catalog::NonDiscoverableMetadata;
use singer_protocol::catalog::DiscoverableMetadata;
use singer_protocol::catalog::Metadata;
use singer_protocol::catalog::Stream;
use singer_protocol::catalog::Catalog;
use singer_protocol::json::encode_json;
use singer_protocol::error::DecodeError;

#[test]
fn default_inclusion_is_available() {
    // a discoverable-metadata object lacking the `inclusion` key
    let j = Json::Obj(vec![("selected-by-default".to_string(), Json::Bool(true))]);
    let m = DiscoverableMetadata::from_json(&j).unwrap();
    assert!(matches!(m.inclusion, Include::Available));
    assert!(m.selected_by_default);
    assert!(m.valid_replication_keys.is_empty());
}

#[test]
fn include_default_value() {
    assert!(matches!(Include::default(), Include::Available));
}

#[test]
fn discoverable_metadata_wire_names() {
    let m = DiscoverableMetadata {
        inclusion: Include::Automatic,
        selected_by_default: false,
        valid_replication_keys: vec!["updated_at".to_string()],
        forced_replication_method: Some(ReplicationMethod::Incremental),
        table_key_properties: vec!["id".to_string()],
        schema_name: None,
        is_view: Some(false),
        row_count: Some(42),
        database_name: None,
        sql_database: None,
    };
    let text = encode_json(&m.to_json());
    assert_eq!(
        text,
        r#"{"inclusion":"automatic","selected-by-default":false,"valid-replication-keys":["updated_at"],"forced-replication-method":"INCREMENTAL","table-key-properties":["id"],"is-view":false,"row-count":42}"#
    );
    let back = DiscoverableMetadata::from_json(&m.to_json()).unwrap();
    assert_eq!(encode_json(&back.to_json()), text);
}

#[test]
fn non_discoverable_metadata_omits_unset() {
    let m = NonDiscoverableMetadata {
        selected: Some(true),
        replication_method: None,
        replication_key: None,
        view_key_properties: None,
    };
    assert_eq!(encode_json(&m.to_json()), r#"{"selected":true}"#);
    let empty = NonDiscoverableMetadata {
        selected: None,
        replication_method: None,
        replication_key: None,
        view_key_properties: None,
    };
    assert_eq!(encode_json(&empty.to_json()), r#"{}"#);
}

#[test]
fn replication_method_tokens() {
    let m = NonDiscoverableMetadata {
        selected: None,
        replication_method: Some(ReplicationMethod::LogBased),
        replication_key: Some("lsn".to_string()),
        view_key_properties: None,
    };
    let text = encode_json(&m.to_json());
    assert_eq!(text, r#"{"replication-method":"LOG_BASED","replication-key":"lsn"}"#);
    let back = NonDiscoverableMetadata::from_json(&m.to_json()).unwrap();
    assert!(matches!(back.replication_method, Some(ReplicationMethod::LogBased)));
}

#[test]
fn bad_replication_token_is_schema_violation() {
    let j = Json::Obj(vec![(
        "replication-method".to_string(),
        Json::Str("SIDEWAYS".to_string()),
    )]);
    assert!(matches!(
        NonDiscoverableMetadata::from_json(&j),
        Err(DecodeError::SchemaViolation)
    ));
}

#[test]
fn metadata_breadcrumb_round_trip() {
    let m = Metadata {
        metadata: Json::Obj(vec![("selected".to_string(), Json::Bool(true))]),
        breadcrumb: vec!["properties".to_string(), "id".to_string()],
    };
    let text = encode_json(&m.to_json());
    assert_eq!(text, r#"{"metadata":{"selected":true},"breadcrumb":["properties","id"]}"#);
    let back = Metadata::from_json(&m.to_json()).unwrap();
    assert_eq!(encode_json(&back.to_json()), text);
}

#[test]
fn bad_breadcrumb_is_schema_violation() {
    let j = Json::Obj(vec![
        ("metadata".to_string(), Json::Obj(vec![])),
        ("breadcrumb".to_string(), Json::Arr(vec![Json::Int(1)])),
    ]);
    assert!(matches!(Metadata::from_json(&j), Err(DecodeError::SchemaViolation)));
}

#[test]
fn catalog_round_trip() {
    let catalog = Catalog {
        streams: vec![
            Stream {
                stream: "users".to_string(),
                tap_stream_id: "db-users".to_string(),
                schema: Json::Obj(vec![("type".to_string(), Json::Str("object".to_string()))]),
                table_name: Some("users_v2".to_string()),
                metadata: Some(vec![Metadata {
                    metadata: Json::Obj(vec![("selected".to_string(), Json::Bool(true))]),
                    breadcrumb: vec![],
                }]),
            },
            Stream {
                stream: "orders".to_string(),
                tap_stream_id: "db-orders".to_string(),
                schema: Json::Obj(vec![]),
                table_name: None,
                metadata: None,
            },
        ],
    };
    let text = catalog.encode();
    assert_eq!(
        text,
        r#"{"streams":[{"stream":"users","tap_stream_id":"db-users","schema":{"type":"object"},"table_name":"users_v2","metadata":[{"metadata":{"selected":true},"breadcrumb":[]}]},{"stream":"orders","tap_stream_id":"db-orders","schema":{}}]}"#
    );
    let back = Catalog::decode(text.as_str()).unwrap();
    assert_eq!(back.encode(), text);
    assert_eq!(back.streams.len(), 2);
    assert!(back.streams[1].table_name.is_none());
    assert!(back.streams[1].metadata.is_none());
}

#[test]
fn catalog_decode_requires_streams() {
    assert!(matches!(Catalog::decode(r#"{}"#), Err(DecodeError::MissingRequiredField)));
    assert!(matches!(Catalog::decode(r#"{"streams":5}"#), Err(DecodeError::SchemaViolation)));
    assert!(matches!(Catalog::decode("nope"), Err(DecodeError::MalformedJson)));
}

#[test]
fn stream_decode_errors() {
    let j = Json::Obj(vec![("stream".to_string(), Json::Str("users".to_string()))]);
    assert!(matches!(Stream::from_json(&j), Err(DecodeError::MissingRequiredField)));
    let j2 = Json::Obj(vec![
        ("stream".to_string(), Json::Str("users".to_string())),
        ("tap_stream_id".to_string(), Json::Int(3)),
    ]);
    assert!(matches!(Stream::from_json(&j2), Err(DecodeError::SchemaViolation)));
}

#[test]
fn row_count_accepts_full_u64_range() {
    let j = Json::Obj(vec![("row-count".to_string(), Json::Num("18446744073709551615".to_string()))]);
    let m = DiscoverableMetadata::from_json(&j).unwrap();
    assert_eq!(m.row_count, Some(u64::MAX));
    let too_big = Json::Obj(vec![("row-count".to_string(), Json::Num("18446744073709551616".to_string()))]);
    assert!(matches!(DiscoverableMetadata::from_json(&too_big), Err(DecodeError::SchemaViolation)));
}
