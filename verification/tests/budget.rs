use mcp_core::budget::{
    enforce_response_budget, json_escape, BudgetedHandler, DEFAULT_HINT,
    DEFAULT_MAX_RESPONSE_CHARS,
};
use rmcp::model::{CallToolResult, Content};

fn payload_of(result: &CallToolResult) -> serde_json::Value {
    let text = result.content[0]
        .as_text()
        .map(|t| t.text.as_str())
        .unwrap_or_default();
    serde_json::from_str(text).expect("error payload is json")
}

#[test]
fn under_budget_passes_through_unchanged() {
    let result = CallToolResult::success(vec![Content::text("small")]);
    let guarded = enforce_response_budget(result, 100, DEFAULT_HINT);
    assert_ne!(guarded.is_error, Some(true));
    assert_eq!(
        guarded.content[0].as_text().map(|t| t.text.as_str()),
        Some("small")
    );
}

#[test]
fn over_budget_becomes_structured_error() {
    let big = "x".repeat(200);
    let result = CallToolResult::success(vec![Content::text(big)]);
    let guarded = enforce_response_budget(result, 50, "use pagination");

    assert_eq!(guarded.is_error, Some(true));
    let text = guarded.content[0]
        .as_text()
        .map(|t| t.text.as_str())
        .unwrap_or_default();
    let json: serde_json::Value = serde_json::from_str(text).expect("error payload is json");
    assert_eq!(json["error"], "response_exceeds_budget");
    assert_eq!(json["response_chars"], 200);
    assert_eq!(json["budget_chars"], 50);
    assert_eq!(json["hint"], "use pagination");
}

#[test]
fn budget_sums_across_content_items() {
    let result = CallToolResult::success(vec![
        Content::text("x".repeat(30)),
        Content::text("y".repeat(30)),
    ]);
    // 60 chars total exceeds 50 even though no single item does.
    let guarded = enforce_response_budget(result, 50, DEFAULT_HINT);
    assert_eq!(guarded.is_error, Some(true));
}

#[test]
fn exactly_at_budget_passes() {
    let result = CallToolResult::success(vec![Content::text("abcde")]);
    let guarded = enforce_response_budget(result, 5, "h");
    assert_eq!(guarded.is_error, Some(false));
    assert_eq!(guarded.content.len(), 1);
}

#[test]
fn size_is_measured_in_utf8_bytes() {
    // Three chars, six bytes.
    let result = CallToolResult::success(vec![Content::text("äöü")]);
    let guarded = enforce_response_budget(result, 5, "h");
    assert_eq!(guarded.is_error, Some(true));
    assert_eq!(payload_of(&guarded)["response_chars"], 6);
}

#[test]
fn non_text_blocks_count_nothing() {
    let result = CallToolResult::success(vec![
        Content::image("aGVsbG8gd29ybGQgaGVsbG8gd29ybGQ=", "image/png"),
        Content::text("tiny"),
    ]);
    let guarded = enforce_response_budget(result, 4, "h");
    assert_eq!(guarded.is_error, Some(false));
    assert_eq!(guarded.content.len(), 2);
}

#[test]
fn error_payload_is_exact_text() {
    let result = CallToolResult::success(vec![Content::text("0123456789")]);
    let guarded = enforce_response_budget(result, 3, "say \"less\"");
    assert_eq!(guarded.content.len(), 1);
    assert_eq!(
        guarded.content[0].as_text().map(|t| t.text.as_str()),
        Some(
            "{\"error\":\"response_exceeds_budget\",\"response_chars\":10,\"budget_chars\":3,\"hint\":\"say \\\"less\\\"\"}"
        )
    );
}

#[test]
fn hint_with_specials_round_trips_through_json() {
    let hint = "line1\nline2\t\"quoted\" back\\slash \u{1} bell\u{7} — ünï";
    let result = CallToolResult::success(vec![Content::text("x".repeat(20))]);
    let guarded = enforce_response_budget(result, 10, hint);
    let json = payload_of(&guarded);
    assert_eq!(json["hint"], hint);
    assert_eq!(json["response_chars"], 20);
    assert_eq!(json["budget_chars"], 10);
}

#[test]
fn budget_error_drops_structured_content() {
    let mut result = CallToolResult::success(vec![Content::text("x".repeat(10))]);
    result.structured_content = Some(serde_json::Value::Bool(true));
    let guarded = enforce_response_budget(result, 5, "h");
    assert_eq!(guarded.is_error, Some(true));
    assert!(guarded.structured_content.is_none());
    assert!(guarded.meta.is_none());
}

#[test]
fn json_escape_leaves_no_control_chars_and_keeps_plain_text() {
    let all: String = (0u32..0x80).filter_map(char::from_u32).collect();
    assert!(json_escape(&all).chars().all(|c| (c as u32) >= 0x20));
    let plain = "Plain text, with ünïcödé and symbols: {}[]/'#";
    assert_eq!(json_escape(plain), plain);
}

#[test]
fn json_escape_exact_outputs() {
    assert_eq!(json_escape("plain"), "plain");
    assert_eq!(json_escape("a\"b"), "a\\\"b");
    assert_eq!(json_escape("a\\b"), "a\\\\b");
    assert_eq!(json_escape("\n\r\t"), "\\n\\r\\t");
    assert_eq!(json_escape("\u{1}\u{1f}"), "\\u0001\\u001f");
    assert_eq!(json_escape("é—"), "é—");
    assert_eq!(json_escape(""), "");
}

#[test]
fn large_numbers_render_in_decimal() {
    let result = CallToolResult::success(vec![Content::text("x".repeat(12345))]);
    let guarded = enforce_response_budget(result, 0, "h");
    assert_eq!(payload_of(&guarded)["response_chars"], 12345);
    assert_eq!(payload_of(&guarded)["budget_chars"], 0);
}

#[test]
fn handler_defaults_and_hint() {
    let handler = BudgetedHandler::new(7u32, DEFAULT_MAX_RESPONSE_CHARS);
    assert_eq!(*handler.inner(), 7);
    assert_eq!(handler.max_chars(), 50_000);
    assert_eq!(handler.hint(), DEFAULT_HINT);
    let handler = handler.with_hint("Use the tool's pagination parameters.");
    assert_eq!(handler.hint(), "Use the tool's pagination parameters.");
    assert_eq!(handler.max_chars(), 50_000);
}

#[test]
fn handler_guards_with_its_own_budget() {
    let handler = BudgetedHandler::new((), 4).with_hint("page");
    let guarded = handler.guard_tool_result(CallToolResult::success(vec![Content::text("12345")]));
    assert_eq!(guarded.is_error, Some(true));
    let json = payload_of(&guarded);
    assert_eq!(json["budget_chars"], 4);
    assert_eq!(json["hint"], "page");
    let kept = handler.guard_tool_result(CallToolResult::success(vec![Content::text("1234")]));
    assert_eq!(kept.is_error, Some(false));
}
