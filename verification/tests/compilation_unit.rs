#![allow(unused_imports, dead_code)]

use kube_cel::compilation::{
    compile_rule, compile_schema, compile_schema_validations, CompilationError, Rule,
};
use kube_cel::json::{JsonNumber, JsonValue};

fn convert(v: &serde_json::Value) -> JsonValue {
    match v {
        serde_json::Value::Null => JsonValue::Null,
        serde_json::Value::Bool(b) => JsonValue::Bool(*b),
        serde_json::Value::Number(n) => JsonValue::Number(match (n.as_i64(), n.as_u64()) {
            (Some(i), _) => JsonNumber::Int(i),
            (None, Some(u)) => JsonNumber::UInt(u),
            (None, None) => JsonNumber::Float(n.clone()),
        }),
        serde_json::Value::String(s) => JsonValue::String(s.clone()),
        serde_json::Value::Array(a) => JsonValue::Array(a.iter().map(convert).collect()),
        serde_json::Value::Object(o) => {
            JsonValue::Object(o.iter().map(|(k, v)| (k.clone(), convert(v))).collect())
        }
    }
}

fn json(text: &str) -> JsonValue {
    convert(&serde_json::from_str(text).unwrap())
}

#[test]
fn compile_simple_rule() {
    let rule = Rule {
        rule: "self.replicas >= 0".into(),
        message: None,
        message_expression: None,
        reason: None,
        field_path: None,
        optional_old_self: None,
    };
    let result = compile_rule(&rule).unwrap();
    assert!(!result.is_transition_rule);
}

#[test]
fn detect_transition_rule() {
    let rule = Rule {
        rule: "self.replicas >= oldSelf.replicas".into(),
        message: None,
        message_expression: None,
        reason: None,
        field_path: None,
        optional_old_self: None,
    };
    let result = compile_rule(&rule).unwrap();
    assert!(result.is_transition_rule);
}

#[test]
fn detect_non_transition_rule() {
    let rule = Rule {
        rule: "self.replicas > 0".into(),
        message: None,
        message_expression: None,
        reason: None,
        field_path: None,
        optional_old_self: None,
    };
    let result = compile_rule(&rule).unwrap();
    assert!(!result.is_transition_rule);
}

#[test]
fn parse_error_on_invalid_cel() {
    let rule = Rule {
        rule: "self.replicas >=".into(),
        message: None,
        message_expression: None,
        reason: None,
        field_path: None,
        optional_old_self: None,
    };
    let err = compile_rule(&rule).unwrap_err();
    assert!(matches!(err, CompilationError::Parse { .. }));
    // Display should contain the rule text
    let msg = err.to_string();
    assert!(msg.contains("self.replicas >="));
}

#[test]
fn deserialize_rule_all_fields() {
    let raw = json(r#"{
        "rule": "self.x > 0",
        "message": "x must be positive",
        "messageExpression": "\"x is \" + string(self.x)",
        "reason": "FieldValueInvalid",
        "fieldPath": ".spec.x",
        "optionalOldSelf": true
    }"#);
    let rule = Rule::from_json(&raw).unwrap();
    assert_eq!(rule.rule, "self.x > 0");
    assert_eq!(rule.message.as_deref(), Some("x must be positive"));
    assert_eq!(
        rule.message_expression.as_deref(),
        Some("\"x is \" + string(self.x)")
    );
    assert_eq!(rule.reason.as_deref(), Some("FieldValueInvalid"));
    assert_eq!(rule.field_path.as_deref(), Some(".spec.x"));
    assert_eq!(rule.optional_old_self, Some(true));
}

#[test]
fn deserialize_rule_minimal() {
    let raw = json(r#"{"rule": "self.x > 0"}"#);
    let rule = Rule::from_json(&raw).unwrap();
    assert_eq!(rule.rule, "self.x > 0");
    assert!(rule.message.is_none());
    assert!(rule.message_expression.is_none());
    assert!(rule.reason.is_none());
    assert!(rule.field_path.is_none());
    assert!(rule.optional_old_self.is_none());
}

#[test]
fn schema_validations_extracts_and_compiles() {
    let schema = json(r#"{
        "type": "object",
        "x-kubernetes-validations": [
            {"rule": "self.replicas >= 0", "message": "must be non-negative"},
            {"rule": "self.name.size() > 0"}
        ]
    }"#);
    let results = compile_schema_validations(&schema);
    assert_eq!(results.len(), 2);
    assert!(results[0].is_ok());
    assert!(results[1].is_ok());
}

#[test]
fn schema_validations_no_key() {
    let schema = json(r#"{"type": "object"}"#);
    let results = compile_schema_validations(&schema);
    assert!(results.is_empty());
}

#[test]
fn schema_validations_empty_array() {
    let schema = json(r#"{
        "x-kubernetes-validations": []
    }"#);
    let results = compile_schema_validations(&schema);
    assert!(results.is_empty());
}

#[test]
fn message_expression_compiled() {
    let rule = Rule {
        rule: "self.x > 0".into(),
        message: Some("x must be positive".into()),
        message_expression: Some("'x is ' + string(self.x)".into()),
        reason: None,
        field_path: None,
        optional_old_self: None,
    };
    let result = compile_rule(&rule).unwrap();
    assert!(result.message_program.is_some());
}

#[test]
fn message_expression_invalid_ignored() {
    let rule = Rule {
        rule: "self.x > 0".into(),
        message: Some("fallback".into()),
        message_expression: Some("invalid >=".into()),
        reason: None,
        field_path: None,
        optional_old_self: None,
    };
    let result = compile_rule(&rule).unwrap();
    // Invalid messageExpression is silently ignored
    assert!(result.message_program.is_none());
}

#[test]
fn message_expression_none() {
    let rule = Rule {
        rule: "self.x > 0".into(),
        message: None,
        message_expression: None,
        reason: None,
        field_path: None,
        optional_old_self: None,
    };
    let result = compile_rule(&rule).unwrap();
    assert!(result.message_program.is_none());
}

#[test]
fn compile_schema_tree() {
    let schema = json(r#"{
        "type": "object",
        "x-kubernetes-validations": [{"rule": "has(self.spec)"}],
        "properties": {
            "spec": {
                "type": "object",
                "x-kubernetes-validations": [{"rule": "self.replicas >= 0"}],
                "properties": {
                    "replicas": {"type": "integer"}
                }
            }
        }
    }"#);
    let compiled = compile_schema(&schema);
    assert_eq!(compiled.validations.len(), 1);
    assert!(compiled.property("spec").is_some());
    let spec = compiled.property("spec").unwrap();
    assert_eq!(spec.validations.len(), 1);
    assert!(spec.property("replicas").is_some());
}

#[test]
fn compile_schema_with_items() {
    let schema = json(r#"{
        "type": "array",
        "items": {
            "type": "object",
            "x-kubernetes-validations": [{"rule": "self.name.size() > 0"}]
        }
    }"#);
    let compiled = compile_schema(&schema);
    assert!(compiled.items.is_some());
    assert_eq!(compiled.items.as_ref().unwrap().validations.len(), 1);
}

#[test]
fn compile_schema_empty() {
    let schema = json(r#"{"type": "object"}"#);
    let compiled = compile_schema(&schema);
    assert!(compiled.validations.is_empty());
    assert!(compiled.properties.is_empty());
    assert!(compiled.items.is_none());
    assert!(compiled.additional_properties.is_none());
}

#[test]
fn schema_validations_partial_errors() {
    let schema = json(r#"{
        "x-kubernetes-validations": [
            {"rule": "self.x > 0"},
            {"rule": "self.y >="},
            {"rule": "self.z == true"}
        ]
    }"#);
    let results = compile_schema_validations(&schema);
    assert_eq!(results.len(), 3);
    assert!(results[0].is_ok());
    assert!(results[1].is_err());
    assert!(results[2].is_ok());
}
