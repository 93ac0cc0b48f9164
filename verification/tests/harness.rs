use mcp_core::testing::{
    domain_error_verdict, is_truthy, wait_for_port_step, CallToolResultExt, JsonField,
    PayloadFields, PortWait, ToolOutcome,
};
use rmcp::model::{CallToolResult, Content};
use serde_json::Value;

fn object(fields: Vec<(&str, Value)>) -> Value {
    let mut map = serde_json::Map::new();
    for (key, value) in fields {
        map.insert(key.to_string(), value);
    }
    Value::Object(map)
}

/// Mirror how servers build a result: a single JSON text block (`Content::json`).
fn json_result(value: Value) -> CallToolResult {
    CallToolResult::success(vec![Content::json(value).expect("serialize json content")])
}

#[test]
fn json_extracts_the_text_block() {
    let result = json_result(object(vec![
        ("found", Value::Bool(true)),
        ("count", Value::from(2)),
    ]));
    assert!(!result.text().is_empty());
    assert_eq!(result.json().unwrap()["count"], 2);
}

#[test]
fn json_prefers_structured_content() {
    let mut result = CallToolResult::success(vec![Content::text("not json")]);
    result.structured_content = Some(object(vec![("ok", Value::Bool(true))]));
    assert_eq!(result.json().unwrap()["ok"], true);
}

#[test]
fn is_domain_error_flags_in_band_failures() {
    let ok = ToolOutcome::new(json_result(object(vec![("found", Value::Bool(true))])));
    assert!(!ok.is_domain_error());

    let not_found = ToolOutcome::new(json_result(object(vec![
        ("found", Value::Bool(false)),
        ("error", Value::from("missing")),
    ])));
    assert!(not_found.is_domain_error());
}

#[test]
fn non_json_text_is_treated_as_an_error() {
    let result = CallToolResult::success(vec![Content::text("Error: bad input")]);
    assert!(result.json().is_err());
    let outcome = ToolOutcome::new(result);
    assert!(outcome.is_domain_error());
}

#[test]
fn text_concatenates_text_blocks_only() {
    let result = CallToolResult::success(vec![
        Content::text("ab"),
        Content::image("aGk=", "image/png"),
        Content::text("cd"),
    ]);
    assert_eq!(result.text(), "abcd");
    assert_eq!(ToolOutcome::new(result).text(), "abcd");
}

#[test]
fn json_error_keeps_the_raw_text() {
    let result = CallToolResult::success(vec![Content::text("plain "), Content::text("words")]);
    let err = result.json().unwrap_err();
    assert_eq!(err.raw(), "plain words");
}

#[test]
fn protocol_error_flag_wins() {
    let result = CallToolResult::error(vec![Content::text("{\"found\": true}")]);
    assert!(ToolOutcome::new(result).is_domain_error());
}

#[test]
fn null_error_field_is_not_an_error() {
    let outcome = ToolOutcome::new(json_result(object(vec![("error", Value::Null)])));
    assert!(!outcome.is_domain_error());
    let outcome = ToolOutcome::new(json_result(object(vec![("error", Value::from("x"))])));
    assert!(outcome.is_domain_error());
}

#[test]
fn verdict_table() {
    let fields = |error, found| Some(PayloadFields { error, found });
    assert!(domain_error_verdict(Some(true), fields(JsonField::Absent, JsonField::Bool(true))));
    assert!(!domain_error_verdict(Some(false), fields(JsonField::Absent, JsonField::Bool(true))));
    assert!(!domain_error_verdict(None, fields(JsonField::Null, JsonField::Absent)));
    assert!(domain_error_verdict(None, fields(JsonField::Text("x".to_string()), JsonField::Absent)));
    assert!(domain_error_verdict(None, fields(JsonField::Absent, JsonField::Bool(false))));
    assert!(!domain_error_verdict(None, fields(JsonField::Absent, JsonField::Text("false".to_string()))));
    assert!(domain_error_verdict(Some(false), None));
}

#[test]
fn truthiness_of_fields() {
    assert!(!is_truthy(&JsonField::Absent));
    assert!(!is_truthy(&JsonField::Null));
    assert!(!is_truthy(&JsonField::Bool(false)));
    assert!(is_truthy(&JsonField::Bool(true)));
    assert!(!is_truthy(&JsonField::Number("0".to_string())));
    assert!(!is_truthy(&JsonField::Number("-0.0".to_string())));
    assert!(!is_truthy(&JsonField::Number("0.0e5".to_string())));
    assert!(is_truthy(&JsonField::Number("1".to_string())));
    assert!(is_truthy(&JsonField::Number("0.5".to_string())));
    assert!(is_truthy(&JsonField::Number("1e-7".to_string())));
    assert!(!is_truthy(&JsonField::Text(String::new())));
    assert!(is_truthy(&JsonField::Text("missing".to_string())));
    assert!(is_truthy(&JsonField::Array));
    assert!(is_truthy(&JsonField::Object));
}

#[test]
fn falsy_error_fields_are_not_errors() {
    for value in [Value::Bool(false), Value::from(0), Value::from(0.0), Value::from("")] {
        let outcome = ToolOutcome::new(json_result(object(vec![("error", value)])));
        assert!(!outcome.is_domain_error());
    }
    for value in [Value::Bool(true), Value::from(3), Value::from("boom"), Value::Array(vec![])] {
        let outcome = ToolOutcome::new(json_result(object(vec![("error", value)])));
        assert!(outcome.is_domain_error());
    }
}

#[test]
fn structured_content_wins_over_parsable_text() {
    let mut result = CallToolResult::success(vec![Content::text("{\"ok\": false}")]);
    result.structured_content = Some(object(vec![("ok", Value::Bool(true))]));
    assert_eq!(result.json().unwrap(), object(vec![("ok", Value::Bool(true))]));
    let outcome = ToolOutcome::new(result);
    assert_eq!(outcome.json().unwrap()["ok"], true);
}

#[test]
fn structured_found_false_is_an_error() {
    let mut result = CallToolResult::success(vec![Content::text("{\"found\": true}")]);
    result.structured_content = Some(object(vec![("found", Value::Bool(false))]));
    assert!(ToolOutcome::new(result).is_domain_error());
}

#[test]
fn port_wait_steps() {
    assert_eq!(wait_for_port_step(0, true), PortWait::Ready);
    assert_eq!(wait_for_port_step(40_000, true), PortWait::Ready);
    assert_eq!(wait_for_port_step(0, false), PortWait::RetryAfterMillis(50));
    assert_eq!(wait_for_port_step(29_999, false), PortWait::RetryAfterMillis(50));
    assert_eq!(wait_for_port_step(30_000, false), PortWait::TimedOut);
}

#[test]
fn outcome_gives_back_the_result() {
    let outcome = ToolOutcome::new(CallToolResult::success(vec![Content::text("x")]));
    assert_eq!(outcome.result().is_error, Some(false));
    assert_eq!(outcome.is_error, Some(false));
    assert_eq!(outcome.content.len(), 1);
    let result = outcome.into_result();
    assert_eq!(result.content.len(), 1);
}
