#![allow(unused_imports, dead_code)]

use cel::objects::Key;
use cel::Value;
use kube_cel::engine::to_cel;
use kube_cel::json::{JsonNumber, JsonValue};
use std::sync::Arc;

fn json_to_cel(value: &JsonValue) -> Value {
    to_cel(&kube_cel::values::json_to_cel(value))
}

fn json_to_cel_with_schema(value: &JsonValue, schema: &JsonValue) -> Value {
    to_cel(&kube_cel::values::json_to_cel_with_schema(value, schema))
}

fn parse_go_duration(input: &str) -> Option<chrono::Duration> {
    kube_cel::values::parse_go_duration(input).map(chrono::Duration::nanoseconds)
}

fn convert(v: &serde_json::Value) -> JsonValue {
    match v {
        serde_json::Value::Null => JsonValue::Null,
        serde_json::Value::Bool(b) => JsonValue::Bool(*b),
        serde_json::Value::Number(n) => JsonValue::Number(match (n.as_i64(), n.as_u64()) {
            (Some(i), _) => JsonNumber::Int(i),
            (None, Some(u)) => JsonNumber::UInt(u),
            (None, None) => JsonNumber::Float(n.clone()),
        }),
        serde_json::Value::String(s) => JsonValue::String(s.clone()),
        serde_json::Value::Array(a) => JsonValue::Array(a.iter().map(convert).collect()),
        serde_json::Value::Object(o) => {
            JsonValue::Object(o.iter().map(|(k, v)| (k.clone(), convert(v))).collect())
        }
    }
}

fn json(text: &str) -> JsonValue {
    convert(&serde_json::from_str(text).unwrap())
}

#[test]
fn test_null() {
    assert_eq!(json_to_cel(&json(r#"null"#)), Value::Null);
}

#[test]
fn test_bool() {
    assert_eq!(json_to_cel(&json(r#"true"#)), Value::Bool(true));
    assert_eq!(json_to_cel(&json(r#"false"#)), Value::Bool(false));
}

#[test]
fn test_i64() {
    assert_eq!(json_to_cel(&json(r#"42"#)), Value::Int(42));
    assert_eq!(json_to_cel(&json(r#"-1"#)), Value::Int(-1));
    assert_eq!(json_to_cel(&json(r#"0"#)), Value::Int(0));
}

#[test]
fn test_u64_beyond_i64() {
    let big: u64 = (i64::MAX as u64) + 1;
    let v = json_to_cel(&convert(&serde_json::Value::Number(serde_json::Number::from(big))));
    assert_eq!(v, Value::UInt(big));
}

#[test]
fn test_float() {
    assert_eq!(json_to_cel(&json(r#"3.14"#)), Value::Float(3.14));
    assert_eq!(json_to_cel(&json(r#"0.0"#)), Value::Float(0.0));
}

#[test]
fn test_string() {
    assert_eq!(
        json_to_cel(&json(r#""hello""#)),
        Value::String(Arc::new("hello".into()))
    );
}

#[test]
fn test_empty_string() {
    assert_eq!(
        json_to_cel(&json(r#""""#)),
        Value::String(Arc::new(String::new()))
    );
}

#[test]
fn test_array_mixed() {
    let v = json_to_cel(&json(r#"[1, "two", true, null]"#));
    let expected = Value::List(Arc::new(vec![
        Value::Int(1),
        Value::String(Arc::new("two".into())),
        Value::Bool(true),
        Value::Null,
    ]));
    assert_eq!(v, expected);
}

#[test]
fn test_empty_array() {
    assert_eq!(json_to_cel(&json(r#"[]"#)), Value::List(Arc::new(vec![])));
}

#[test]
fn test_object() {
    let v = json_to_cel(&json(r#"{"name": "test", "count": 5}"#));
    if let Value::Map(map) = v {
        assert_eq!(
            map.map.get(&Key::String(Arc::new("name".into()))),
            Some(&Value::String(Arc::new("test".into())))
        );
        assert_eq!(
            map.map.get(&Key::String(Arc::new("count".into()))),
            Some(&Value::Int(5))
        );
    } else {
        panic!("expected Map");
    }
}

#[test]
fn test_empty_object() {
    let v = json_to_cel(&json(r#"{}"#));
    if let Value::Map(map) = v {
        assert!(map.map.is_empty());
    } else {
        panic!("expected Map");
    }
}

#[test]
fn test_nested_structure() {
    let v = json_to_cel(&json(r#"{
        "spec": {
            "replicas": 3,
            "items": [1, 2, 3]
        }
    }"#));
    if let Value::Map(outer) = v {
        let spec = outer
            .map
            .get(&Key::String(Arc::new("spec".into())))
            .unwrap();
        if let Value::Map(inner) = spec {
            assert_eq!(
                inner.map.get(&Key::String(Arc::new("replicas".into()))),
                Some(&Value::Int(3))
            );
            assert_eq!(
                inner.map.get(&Key::String(Arc::new("items".into()))),
                Some(&Value::List(Arc::new(vec![
                    Value::Int(1),
                    Value::Int(2),
                    Value::Int(3),
                ])))
            );
        } else {
            panic!("expected inner Map");
        }
    } else {
        panic!("expected outer Map");
    }
}

#[test]
fn test_number_priority() {
    // i64 range → Int
    assert_eq!(json_to_cel(&json(r#"42"#)), Value::Int(42));
    // u64 beyond i64 → UInt
    let big: u64 = (i64::MAX as u64) + 1;
    assert_eq!(
        json_to_cel(&convert(&serde_json::Value::Number(serde_json::Number::from(big)))),
        Value::UInt(big)
    );
    // float → Float
    assert_eq!(json_to_cel(&json(r#"1.5"#)), Value::Float(1.5));
}

// ── parse_go_duration tests ─────────────────────────────────────

#[test]
fn parse_duration_hours() {
    assert_eq!(
        parse_go_duration("1h"),
        Some(chrono::Duration::hours(1))
    );
}

#[test]
fn parse_duration_minutes() {
    assert_eq!(
        parse_go_duration("30m"),
        Some(chrono::Duration::minutes(30))
    );
}

#[test]
fn parse_duration_seconds() {
    assert_eq!(
        parse_go_duration("45s"),
        Some(chrono::Duration::seconds(45))
    );
}

#[test]
fn parse_duration_milliseconds() {
    assert_eq!(
        parse_go_duration("500ms"),
        Some(chrono::Duration::milliseconds(500))
    );
}

#[test]
fn parse_duration_microseconds() {
    assert_eq!(
        parse_go_duration("100us"),
        Some(chrono::Duration::microseconds(100))
    );
}

#[test]
fn parse_duration_nanoseconds() {
    assert_eq!(
        parse_go_duration("999ns"),
        Some(chrono::Duration::nanoseconds(999))
    );
}

#[test]
fn parse_duration_compound() {
    assert_eq!(
        parse_go_duration("1h30m"),
        Some(chrono::Duration::hours(1) + chrono::Duration::minutes(30))
    );
    assert_eq!(
        parse_go_duration("1h30m10s"),
        Some(
            chrono::Duration::hours(1)
                + chrono::Duration::minutes(30)
                + chrono::Duration::seconds(10)
        )
    );
}

#[test]
fn parse_duration_negative() {
    assert_eq!(
        parse_go_duration("-1h"),
        Some(chrono::Duration::hours(-1))
    );
    assert_eq!(
        parse_go_duration("-30s"),
        Some(chrono::Duration::seconds(-30))
    );
}

#[test]
fn parse_duration_zero() {
    assert_eq!(parse_go_duration("0"), Some(chrono::Duration::zero()));
}

#[test]
fn parse_duration_invalid() {
    assert_eq!(parse_go_duration(""), None);
    assert_eq!(parse_go_duration("abc"), None);
    assert_eq!(parse_go_duration("1x"), None);
    assert_eq!(parse_go_duration("h"), None);
}

// ── Schema-aware conversion tests ───────────────────────────────

#[test]
fn timestamp_parsed_from_schema() {
    let schema = json(r#"{
        "type": "string",
        "format": "date-time"
    }"#);
    let value = json(r#""2024-01-01T00:00:00Z""#);
    let result = json_to_cel_with_schema(&value, &schema);
    assert!(matches!(result, Value::Timestamp(_)));
}

#[test]
fn timestamp_parse_failure_falls_back_to_string() {
    let schema = json(r#"{
        "type": "string",
        "format": "date-time"
    }"#);
    let value = json(r#""not-a-date""#);
    let result = json_to_cel_with_schema(&value, &schema);
    assert_eq!(result, Value::String(Arc::new("not-a-date".into())));
}

#[test]
fn duration_parsed_from_schema() {
    let schema = json(r#"{
        "type": "string",
        "format": "duration"
    }"#);
    let value = json(r#""1h30m""#);
    let result = json_to_cel_with_schema(&value, &schema);
    assert!(matches!(result, Value::Duration(_)));
}

#[test]
fn duration_parse_failure_falls_back_to_string() {
    let schema = json(r#"{
        "type": "string",
        "format": "duration"
    }"#);
    let value = json(r#""not-a-duration""#);
    let result = json_to_cel_with_schema(&value, &schema);
    assert_eq!(result, Value::String(Arc::new("not-a-duration".into())));
}

#[test]
fn nested_object_properties_format() {
    let schema = json(r#"{
        "type": "object",
        "properties": {
            "createdAt": {
                "type": "string",
                "format": "date-time"
            },
            "name": {
                "type": "string"
            },
            "timeout": {
                "type": "string",
                "format": "duration"
            }
        }
    }"#);
    let value = json(r#"{
        "createdAt": "2024-06-15T10:30:00Z",
        "name": "test",
        "timeout": "30s"
    }"#);
    let result = json_to_cel_with_schema(&value, &schema);
    if let Value::Map(map) = result {
        assert!(matches!(
            map.map.get(&Key::String(Arc::new("createdAt".into()))),
            Some(Value::Timestamp(_))
        ));
        assert!(matches!(
            map.map.get(&Key::String(Arc::new("name".into()))),
            Some(Value::String(_))
        ));
        assert!(matches!(
            map.map.get(&Key::String(Arc::new("timeout".into()))),
            Some(Value::Duration(_))
        ));
    } else {
        panic!("expected Map");
    }
}

#[test]
fn array_items_format() {
    let schema = json(r#"{
        "type": "array",
        "items": {
            "type": "string",
            "format": "date-time"
        }
    }"#);
    let value = json(r#"["2024-01-01T00:00:00Z", "2024-06-15T12:00:00+09:00"]"#);
    let result = json_to_cel_with_schema(&value, &schema);
    if let Value::List(items) = result {
        assert!(matches!(items[0], Value::Timestamp(_)));
        assert!(matches!(items[1], Value::Timestamp(_)));
    } else {
        panic!("expected List");
    }
}

#[test]
fn no_format_leaves_string_unchanged() {
    let schema = json(r#"{
        "type": "string"
    }"#);
    let value = json(r#""2024-01-01T00:00:00Z""#);
    let result = json_to_cel_with_schema(&value, &schema);
    assert_eq!(
        result,
        Value::String(Arc::new("2024-01-01T00:00:00Z".into()))
    );
}

#[test]
fn json_to_cel_unchanged_with_no_schema() {
    // Without a schema every string stays a string
    let value = json(r#""2024-01-01T00:00:00Z""#);
    let result = json_to_cel(&value);
    assert_eq!(
        result,
        Value::String(Arc::new("2024-01-01T00:00:00Z".into()))
    );
}
