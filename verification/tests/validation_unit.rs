use kube_cel::compilation::compile_schema;
use kube_cel::json::{JsonNumber, JsonValue};
use kube_cel::validation::{validate, validate_compiled, ValidationError, Validator};

fn convert(v: &serde_json::Value) -> JsonValue {
    match v {
        serde_json::Value::Null => JsonValue::Null,
        serde_json::Value::Bool(b) => JsonValue::Bool(*b),
        serde_json::Value::Number(n) => JsonValue::Number(match (n.as_i64(), n.as_u64()) {
            (Some(i), _) => JsonNumber::Int(i),
            (None, Some(u)) => JsonNumber::UInt(u),
            (None, None) => JsonNumber::Float(n.clone()),
        }),
        serde_json::Value::String(s) => JsonValue::String(s.clone()),
        serde_json::Value::Array(a) => JsonValue::Array(a.iter().map(convert).collect()),
        serde_json::Value::Object(o) => {
            JsonValue::Object(o.iter().map(|(k, v)| (k.clone(), convert(v))).collect())
        }
    }
}

fn run(
    program: &cel::Program,
    ctx: &cel::Context<'static>,
) -> Result<cel::Value, cel::ExecutionError> {
    program.execute(ctx)
}

fn json(text: &str) -> JsonValue {
    convert(&serde_json::from_str(text).unwrap())
}

fn make_schema(validations: JsonValue) -> JsonValue {
    let mut schema = json(
        r#"{
        "type": "object",
        "properties": {
            "replicas": {"type": "integer"},
            "name": {"type": "string"}
        }
    }"#,
    );
    if let JsonValue::Object(members) = &mut schema {
        members.push(("x-kubernetes-validations".to_string(), validations));
    }
    schema
}

#[test]
fn validation_passes() {
    let schema = make_schema(json(r#"[
        {"rule": "self.replicas >= 0", "message": "must be non-negative"}
    ]"#));
    let obj = json(r#"{"replicas": 3, "name": "app"}"#);
    let errors = validate(&schema, &obj, None, run);
    assert!(errors.is_empty());
}

#[test]
fn validation_fails() {
    let schema = make_schema(json(r#"[
        {"rule": "self.replicas >= 0", "message": "must be non-negative"}
    ]"#));
    let obj = json(r#"{"replicas": -1, "name": "app"}"#);
    let errors = validate(&schema, &obj, None, run);
    assert_eq!(errors.len(), 1);
    assert_eq!(errors[0].message, "must be non-negative");
    assert_eq!(errors[0].rule, "self.replicas >= 0");
}

#[test]
fn default_message_when_none() {
    let schema = make_schema(json(r#"[
        {"rule": "self.replicas >= 0"}
    ]"#));
    let obj = json(r#"{"replicas": -1, "name": "app"}"#);
    let errors = validate(&schema, &obj, None, run);
    assert_eq!(errors.len(), 1);
    assert!(errors[0].message.contains("self.replicas >= 0"));
}

#[test]
fn reason_preserved() {
    let schema = make_schema(json(r#"[
        {"rule": "self.replicas >= 0", "message": "bad", "reason": "FieldValueInvalid"}
    ]"#));
    let obj = json(r#"{"replicas": -1, "name": "app"}"#);
    let errors = validate(&schema, &obj, None, run);
    assert_eq!(errors[0].reason.as_deref(), Some("FieldValueInvalid"));
}

#[test]
fn transition_rule_skipped_without_old_object() {
    let schema = make_schema(json(r#"[
        {"rule": "self.replicas >= oldSelf.replicas", "message": "cannot scale down"}
    ]"#));
    let obj = json(r#"{"replicas": 1, "name": "app"}"#);
    let errors = validate(&schema, &obj, None, run);
    assert!(errors.is_empty());
}

#[test]
fn transition_rule_evaluated_with_old_object() {
    let schema = make_schema(json(r#"[
        {"rule": "self.replicas >= oldSelf.replicas", "message": "cannot scale down"}
    ]"#));
    let obj = json(r#"{"replicas": 1, "name": "app"}"#);
    let old = json(r#"{"replicas": 3, "name": "app"}"#);
    let errors = validate(&schema, &obj, Some(&old), run);
    assert_eq!(errors.len(), 1);
    assert_eq!(errors[0].message, "cannot scale down");
}

#[test]
fn transition_rule_passes() {
    let schema = make_schema(json(r#"[
        {"rule": "self.replicas >= oldSelf.replicas", "message": "cannot scale down"}
    ]"#));
    let obj = json(r#"{"replicas": 5, "name": "app"}"#);
    let old = json(r#"{"replicas": 3, "name": "app"}"#);
    let errors = validate(&schema, &obj, Some(&old), run);
    assert!(errors.is_empty());
}

#[test]
fn nested_property_field_path() {
    let schema = json(r#"{
        "type": "object",
        "properties": {
            "spec": {
                "type": "object",
                "properties": {
                    "replicas": {
                        "type": "integer",
                        "x-kubernetes-validations": [
                            {"rule": "self >= 0", "message": "must be non-negative"}
                        ]
                    }
                }
            }
        }
    }"#);
    let obj = json(r#"{"spec": {"replicas": -1}}"#);
    let errors = validate(&schema, &obj, None, run);
    assert_eq!(errors.len(), 1);
    assert_eq!(errors[0].field_path, "spec.replicas");
    assert_eq!(errors[0].message, "must be non-negative");
}

#[test]
fn array_items_validation() {
    let schema = json(r#"{
        "type": "object",
        "properties": {
            "items": {
                "type": "array",
                "items": {
                    "type": "object",
                    "properties": {
                        "name": {"type": "string"}
                    },
                    "x-kubernetes-validations": [
                        {"rule": "self.name.size() > 0", "message": "name required"}
                    ]
                }
            }
        }
    }"#);
    let obj = json(r#"{
        "items": [
            {"name": "good"},
            {"name": ""},
            {"name": "also-good"}
        ]
    }"#);
    let errors = validate(&schema, &obj, None, run);
    assert_eq!(errors.len(), 1);
    assert_eq!(errors[0].field_path, "items[1]");
    assert_eq!(errors[0].message, "name required");
}

#[test]
fn missing_field_not_validated() {
    let schema = json(r#"{
        "type": "object",
        "properties": {
            "optional_field": {
                "type": "integer",
                "x-kubernetes-validations": [
                    {"rule": "self >= 0", "message": "must be non-negative"}
                ]
            }
        }
    }"#);
    let obj = json(r#"{}"#);
    let errors = validate(&schema, &obj, None, run);
    assert!(errors.is_empty());
}

#[test]
fn multiple_rules_partial_failure() {
    let schema = make_schema(json(r#"[
        {"rule": "self.replicas >= 0", "message": "non-negative"},
        {"rule": "self.name.size() > 0", "message": "name required"}
    ]"#));
    let obj = json(r#"{"replicas": -1, "name": ""}"#);
    let errors = validate(&schema, &obj, None, run);
    assert_eq!(errors.len(), 2);
}

#[test]
fn compilation_error_reported() {
    let schema = make_schema(json(r#"[
        {"rule": "self.replicas >="}
    ]"#));
    let obj = json(r#"{"replicas": 1, "name": "app"}"#);
    let errors = validate(&schema, &obj, None, run);
    assert_eq!(errors.len(), 1);
    assert!(errors[0].message.contains("failed to compile"));
}

#[test]
fn no_validations_no_errors() {
    let schema = json(r#"{
        "type": "object",
        "properties": {
            "replicas": {"type": "integer"}
        }
    }"#);
    let obj = json(r#"{"replicas": -1}"#);
    let errors = validate(&schema, &obj, None, run);
    assert!(errors.is_empty());
}

#[test]
fn display_with_field_path() {
    let err = ValidationError {
        rule: "self >= 0".into(),
        message: "must be non-negative".into(),
        field_path: "spec.replicas".into(),
        reason: None,
    };
    assert_eq!(err.to_string(), "spec.replicas: must be non-negative");
}

#[test]
fn display_without_field_path() {
    let err = ValidationError {
        rule: "self >= 0".into(),
        message: "must be non-negative".into(),
        field_path: String::new(),
        reason: None,
    };
    assert_eq!(err.to_string(), "must be non-negative");
}

#[test]
fn validator_default() {
    let v = Validator::default();
    let schema = make_schema(json(r#"[{"rule": "self.replicas >= 0"}]"#));
    let obj = json(r#"{"replicas": 1, "name": "app"}"#);
    assert!(v.validate(&schema, &obj, None, run).is_empty());
}

#[test]
fn additional_properties_walking() {
    let schema = json(r#"{
        "type": "object",
        "additionalProperties": {
            "type": "integer",
            "x-kubernetes-validations": [
                {"rule": "self >= 0", "message": "must be non-negative"}
            ]
        }
    }"#);
    let obj = json(r#"{"a": 1, "b": -1, "c": 5}"#);
    let errors = validate(&schema, &obj, None, run);
    assert_eq!(errors.len(), 1);
    assert_eq!(errors[0].field_path, "b");
}

// ── Messages, optional prior values and compiled schemas

#[test]
fn message_expression_produces_dynamic_message() {
    let schema = make_schema(json(r#"[{
        "rule": "self.replicas >= 0",
        "message": "static fallback",
        "messageExpression": "'replicas is ' + string(self.replicas) + ', must be >= 0'"
    }]"#));
    let obj = json(r#"{"replicas": -5, "name": "app"}"#);
    let errors = validate(&schema, &obj, None, run);
    assert_eq!(errors.len(), 1);
    assert_eq!(errors[0].message, "replicas is -5, must be >= 0");
}

#[test]
fn message_expression_falls_back_to_static() {
    let schema = make_schema(json(r#"[{
        "rule": "self.replicas >= 0",
        "message": "static message",
        "messageExpression": "invalid >="
    }]"#));
    let obj = json(r#"{"replicas": -1, "name": "app"}"#);
    let errors = validate(&schema, &obj, None, run);
    assert_eq!(errors.len(), 1);
    // messageExpression failed to compile → falls back to static message
    assert_eq!(errors[0].message, "static message");
}

#[test]
fn optional_old_self_evaluated_on_create() {
    let schema = make_schema(json(r#"[{
        "rule": "oldSelf == null || self.replicas >= oldSelf.replicas",
        "message": "cannot scale down",
        "optionalOldSelf": true
    }]"#));
    // Create (no old object): rule is evaluated with oldSelf = null
    let obj = json(r#"{"replicas": 1, "name": "app"}"#);
    let errors = validate(&schema, &obj, None, run);
    assert!(errors.is_empty()); // oldSelf == null → true
}

#[test]
fn optional_old_self_with_old_object() {
    let schema = make_schema(json(r#"[{
        "rule": "oldSelf == null || self.replicas >= oldSelf.replicas",
        "message": "cannot scale down",
        "optionalOldSelf": true
    }]"#));
    let obj = json(r#"{"replicas": 1, "name": "app"}"#);
    let old = json(r#"{"replicas": 3, "name": "app"}"#);
    let errors = validate(&schema, &obj, Some(&old), run);
    assert_eq!(errors.len(), 1);
    assert_eq!(errors[0].message, "cannot scale down");
}

#[test]
fn optional_old_self_false_still_skips() {
    let schema = make_schema(json(r#"[{
        "rule": "self.replicas >= oldSelf.replicas",
        "message": "cannot scale down",
        "optionalOldSelf": false
    }]"#));
    let obj = json(r#"{"replicas": 1, "name": "app"}"#);
    // optionalOldSelf: false → transition rule skipped on create
    let errors = validate(&schema, &obj, None, run);
    assert!(errors.is_empty());
}

#[test]
fn validate_compiled_matches_validate() {
    let schema = json(r#"{
        "type": "object",
        "properties": {
            "spec": {
                "type": "object",
                "x-kubernetes-validations": [
                    {"rule": "self.replicas >= 0", "message": "non-negative"}
                ],
                "properties": {
                    "replicas": {"type": "integer"}
                }
            }
        }
    }"#);
    let obj = json(r#"{"spec": {"replicas": -1}}"#);

    let errors_schema = validate(&schema, &obj, None, run);
    let compiled = compile_schema(&schema);
    let errors_compiled = validate_compiled(&compiled, &obj, None, run);

    assert_eq!(errors_schema.len(), errors_compiled.len());
    assert_eq!(errors_schema[0].message, errors_compiled[0].message);
    assert_eq!(errors_schema[0].field_path, errors_compiled[0].field_path);
}

#[test]
fn validate_compiled_reuse() {
    let schema = json(r#"{
        "type": "object",
        "x-kubernetes-validations": [
            {"rule": "self.x > 0", "message": "x must be positive"}
        ],
        "properties": {"x": {"type": "integer"}}
    }"#);
    let compiled = compile_schema(&schema);

    // Validate multiple objects with the same compiled schema
    assert_eq!(
        validate_compiled(&compiled, &json(r#"{"x": 1}"#), None, run).len(),
        0
    );
    assert_eq!(
        validate_compiled(&compiled, &json(r#"{"x": -1}"#), None, run).len(),
        1
    );
    assert_eq!(
        validate_compiled(&compiled, &json(r#"{"x": 5}"#), None, run).len(),
        0
    );
    assert_eq!(
        validate_compiled(&compiled, &json(r#"{"x": 0}"#), None, run).len(),
        1
    );
}
