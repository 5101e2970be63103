use singer_protocol::json::Json;
use singer_protocol::message::Message;
use singer_protocol::metric::Metric;
use singer_protocol::metric::MetricType;
use singer_protocol::metric::MetricValue;
use singer_protocol::error::DecodeError;

fn state_kv() -> Message {
    Message::State {
        value: Json::Obj(vec![("key".to_string(), Json::Str("value".to_string()))]),
    }
}

#[test]
fn state_serialization() {
    let result = state_kv().encode();
    assert_eq!(result, r#"{"type":"STATE","value":{"key":"value"}}"#.to_string());
}

#[test]
fn metric_serialization() {
    let example_metric = Metric {
        metric_type: MetricType::Counter,
        metric: "records".to_string(),
        value: MetricValue::Integer(42),
        tags: Json::Obj(vec![
            ("number_of_tags".to_string(), Json::Int(1)),
            ("quality of tags".to_string(), Json::Str("great".to_string())),
        ]),
    };
    assert_eq!(
        r#"{"type":"counter","metric":"records","value":42,"tags":{"number_of_tags":1,"quality of tags":"great"}}"#,
        example_metric.encode()
    );
}

#[test]
fn metric_float_keeps_fraction() {
    let m = Metric {
        metric_type: MetricType::Timer,
        metric: "job_duration".to_string(),
        value: MetricValue::Float("3.5".to_string()),
        tags: Json::Obj(vec![]),
    };
    assert_eq!(r#"{"type":"timer","metric":"job_duration","value":3.5,"tags":{}}"#, m.encode());
}

#[test]
fn metric_round_trip() {
    let text = r#"{"type":"counter","metric":"records","value":42,"tags":{}}"#;
    let m = Metric::decode(text).unwrap();
    assert!(matches!(m.value, MetricValue::Integer(42)));
    assert_eq!(m.encode(), text);
}

#[test]
fn metric_unknown_type() {
    let text = r#"{"type":"gauge","metric":"records","value":42,"tags":{}}"#;
    assert!(matches!(Metric::decode(text), Err(DecodeError::UnknownMetricType)));
}

#[test]
fn record_without_time_extracted() {
    let text = r#"{"type":"RECORD","stream":"users","record":{"id":1}}"#;
    let m = Message::decode(text).unwrap();
    match &m {
        Message::Record { stream, time_extracted, .. } => {
            assert_eq!(stream, "users");
            assert!(time_extracted.is_none());
        },
        _ => panic!("wrong variant"),
    }
    assert_eq!(m.encode(), text);
}

#[test]
fn record_with_time_extracted_round_trip() {
    let text = r#"{"type":"RECORD","stream":"users","record":{"id":1},"time_extracted":"2021-03-04T05:06:07Z"}"#;
    let m = Message::decode(text).unwrap();
    assert_eq!(m.encode(), text);
}

#[test]
fn record_rejects_naive_timestamp() {
    let text = r#"{"type":"RECORD","stream":"users","record":{},"time_extracted":"2021-03-04T05:06:07"}"#;
    assert!(matches!(Message::decode(text), Err(DecodeError::WrongFieldKind)));
}

#[test]
fn schema_without_bookmarks() {
    let text = r#"{"type":"SCHEMA","stream":"users","schema":{},"key_properties":["id"]}"#;
    let m = Message::decode(text).unwrap();
    match &m {
        Message::Schema { key_properties, bookmark_properties, .. } => {
            assert_eq!(key_properties, &vec!["id".to_string()]);
            assert!(bookmark_properties.is_none());
        },
        _ => panic!("wrong variant"),
    }
    assert_eq!(m.encode(), text);
}

#[test]
fn unknown_message_type() {
    let text = r#"{"type":"ACTIVATE_VERSION","stream":"users"}"#;
    assert!(matches!(Message::decode(text), Err(DecodeError::UnknownMessageType)));
}

#[test]
fn malformed_json() {
    assert!(matches!(Message::decode("{not json"), Err(DecodeError::MalformedJson)));
}

#[test]
fn missing_required_field() {
    let text = r#"{"type":"RECORD","record":{}}"#;
    assert!(matches!(Message::decode(text), Err(DecodeError::MissingRequiredField)));
}

#[test]
fn state_round_trip() {
    let text = state_kv().encode();
    let m = Message::decode(text.as_str()).unwrap();
    assert_eq!(m.encode(), text);
}

#[test]
fn null_optional_reads_as_absent() {
    let text = r#"{"type":"SCHEMA","stream":"u","schema":{},"key_properties":[],"bookmark_properties":null}"#;
    let m = Message::decode(text).unwrap();
    match &m {
        Message::Schema { bookmark_properties, .. } => assert!(bookmark_properties.is_none()),
        _ => panic!("wrong variant"),
    }
    // a conforming encoder omits the key rather than writing null
    assert_eq!(m.encode(), r#"{"type":"SCHEMA","stream":"u","schema":{},"key_properties":[]}"#);
}

#[test]
fn unknown_extra_fields_ignored() {
    let text = r#"{"type":"STATE","value":1,"something_new":true}"#;
    let m = Message::decode(text).unwrap();
    assert_eq!(m.encode(), r#"{"type":"STATE","value":1}"#);
}

#[test]
fn string_escapes_round_trip() {
    let m = Message::State {
        value: Json::Str("a\"b\\c\nd\te\u{0001}".to_string()),
    };
    let text = m.encode();
    let back = Message::decode(text.as_str()).unwrap();
    assert_eq!(back.encode(), text);
    assert_eq!(text, "{\"type\":\"STATE\",\"value\":\"a\\\"b\\\\c\\nd\\te\\u0001\"}");
}

#[test]
fn big_numbers_kept_textually() {
    let text = r#"{"type":"STATE","value":123456789012345678901234567890}"#;
    let m = Message::decode(text).unwrap();
    assert_eq!(m.encode(), text);
}

#[test]
fn non_string_type_is_unknown_message_type() {
    assert!(matches!(
        Message::decode(r#"{"type":5,"stream":"users","record":{}}"#),
        Err(DecodeError::UnknownMessageType)
    ));
    assert!(matches!(
        Message::decode(r#"{"type":null,"value":{}}"#),
        Err(DecodeError::UnknownMessageType)
    ));
}

#[test]
fn non_string_metric_type_is_unknown_metric_type() {
    assert!(matches!(
        Metric::decode(r#"{"type":7,"metric":"records","value":1,"tags":{}}"#),
        Err(DecodeError::UnknownMetricType)
    ));
}

#[test]
fn lowercase_rfc3339_markers_accepted() {
    let text = r#"{"type":"RECORD","stream":"users","record":{},"time_extracted":"2021-03-04t05:06:07z"}"#;
    let m = Message::decode(text).unwrap();
    // the text is kept exactly as it came
    assert_eq!(m.encode(), text);
}
