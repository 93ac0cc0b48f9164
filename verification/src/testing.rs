//! Evaluation helpers of the integration-test harness.
//!
//! Consumers spawn their MCP server binary and drive it with a real rmcp
//! client; the helpers here evaluate what a tool call returned. Tools built on
//! this framework return their structured output as a single JSON text block,
//! so [`CallToolResultExt::json`] extracts that payload, and
//! [`ToolOutcome::is_domain_error`] understands the in-band
//! `{ "found": false, "error": ".." }` convention servers use to report
//! failures.

use rmcp::model::CallToolResult;
use vstd::prelude::*;

use crate::budget::{
    is_error_flag, text_blocks, texts_view, tool_result_is_error, tool_result_structured,
    tool_result_texts,
};
use crate::chars::chars_of;

verus! {

#[verifier::external_type_specification]
#[verifier::external_body]
pub struct ExJsonValue(serde_json::Value);

#[verifier::external_type_specification]
#[verifier::external_body]
pub struct ExJsonError(serde_json::Error);

/// The document that `serde_json` parses from `text`, or `None` when the
/// text is not JSON.
pub uninterp spec fn json_text_value(text: Seq<char>) -> Option<serde_json::Value>;

/// The field `key` of a JSON document, told apart by its kind.
pub uninterp spec fn json_value_field(value: serde_json::Value, key: Seq<char>) -> JsonField;

/// A field of a JSON document, as the in-band failure convention reads it:
/// absent, or the kind of value it holds, with the value where the
/// convention needs it.
#[derive(Debug)]
pub enum JsonField {
    /// The document is no object, or has no such field.
    Absent,
    /// `null`.
    Null,
    /// `true` or `false`.
    Bool(bool),
    /// A number, as `serde_json` renders it.
    Number(String),
    /// A string.
    Text(String),
    /// An array.
    Array,
    /// An object.
    Object,
}

/// `CallToolResult::structured_content` (rmcp), cloned. Claimed: the copy is
/// the result's structured content (serde_json derives `Clone` on `Value`).
#[verifier::external_body]
fn structured_content(result: &CallToolResult) -> (res: Option<serde_json::Value>)
    ensures
        res == tool_result_structured(*result),
{
    result.structured_content.clone()
}

/// `serde_json::from_str::<Value>`: the parsed document or the parse error.
/// Claimed: it succeeds exactly when `json_text_value` of the text is
/// `Some`, and then with that document.
#[verifier::external_body]
fn parse_json(text: &str) -> (res: Result<serde_json::Value, serde_json::Error>)
    ensures
        match res {
            Ok(v) => json_text_value(text@) == Some(v),
            Err(_) => json_text_value(text@) is None,
        },
{
    serde_json::from_str(text)
}

/// `Value::get(key)` (serde_json), with the value found told apart by its
/// variant (a number rendered by its `Display`, a string copied). Claimed:
/// the result is `json_value_field` of the document and key.
#[verifier::external_body]
fn json_field(value: &serde_json::Value, key: &str) -> (res: JsonField)
    ensures
        res == json_value_field(*value, key@),
{
    match value.get(key) {
        None => JsonField::Absent,
        Some(serde_json::Value::Null) => JsonField::Null,
        Some(serde_json::Value::Bool(b)) => JsonField::Bool(*b),
        Some(serde_json::Value::Number(n)) => JsonField::Number(n.to_string()),
        Some(serde_json::Value::String(t)) => JsonField::Text(t.clone()),
        Some(serde_json::Value::Array(_)) => JsonField::Array,
        Some(serde_json::Value::Object(_)) => JsonField::Object,
    }
}

/// The texts of the text blocks, concatenated in order.
pub open spec fn joined_texts(blocks: Seq<Option<Seq<char>>>) -> Seq<char>
    decreases blocks.len(),
{
    if blocks.len() == 0 {
        seq![]
    } else {
        joined_texts(blocks.drop_last()) + match blocks.last() {
            Some(t) => t,
            None => seq![],
        }
    }
}

/// A tool payload that is not JSON: the parse error and the raw text.
#[derive(Debug)]
pub struct NotJsonError {
    source: serde_json::Error,
    raw: String,
}

impl NotJsonError {
    /// The raw text that failed to parse.
    pub closed spec fn spec_raw(&self) -> Seq<char> {
        self.raw@
    }

    /// The raw text that failed to parse.
    pub fn raw(&self) -> (res: &str)
        ensures
            res@ == self.spec_raw(),
    {
        self.raw.as_str()
    }

    /// The JSON parse error.
    pub closed spec fn spec_source(&self) -> serde_json::Error {
        self.source
    }

    /// The JSON parse error.
    pub fn source(&self) -> (res: &serde_json::Error)
        ensures
            *res == self.spec_source(),
    {
        &self.source
    }
}

/// Parsing conveniences for a raw `CallToolResult`, so the raw result
/// composes with the same JSON evaluation as [`ToolOutcome`].
pub trait CallToolResultExt {
    /// The concatenated text of every text content block.
    fn text(&self) -> String;

    /// The payload as JSON: prefers `structured_content`, else parses the
    /// text blocks.
    fn json(&self) -> Result<serde_json::Value, NotJsonError>;
}

/// Concatenate the text of every text block of `result`.
fn result_text(result: &CallToolResult) -> (res: String)
    ensures
        res@ == joined_texts(tool_result_texts(*result)),
{
    let blocks = text_blocks(result);
    let ghost view = texts_view(blocks@);
    let mut out = String::new();
    let mut i: usize = 0;
    while i < blocks.len()
        invariant
            view == texts_view(blocks@),
            i <= blocks@.len(),
            out@ == joined_texts(view.take(i as int)),
        decreases blocks@.len() - i,
    {
        assert(view.take(i + 1).drop_last() =~= view.take(i as int));
        match blocks[i] {
            Some(t) => out.append(t),
            None => {},
        }
        assert(out@ =~= joined_texts(view.take(i + 1)));
        i += 1;
    }
    assert(view.take(blocks@.len() as int) =~= view);
    out
}

/// The payload of a tool result as a JSON document: its structured content
/// when it has some, else its text parsed as JSON (`None` when that is not
/// JSON).
pub open spec fn payload_value(result: CallToolResult) -> Option<serde_json::Value> {
    match tool_result_structured(result) {
        Some(v) => Some(v),
        None => json_text_value(joined_texts(tool_result_texts(result))),
    }
}

/// The payload of `result` as JSON.
fn result_json(result: &CallToolResult) -> (res: Result<serde_json::Value, NotJsonError>)
    ensures
        match res {
            Ok(v) => payload_value(*result) == Some(v),
            Err(e) => payload_value(*result) is None && e.spec_raw() == joined_texts(
                tool_result_texts(*result),
            ),
        },
{
    if let Some(structured) = structured_content(result) {
        return Ok(structured);
    }
    let text = result_text(result);
    match parse_json(text.as_str()) {
        Ok(value) => Ok(value),
        Err(source) => Err(NotJsonError { source, raw: text }),
    }
}

impl CallToolResultExt for CallToolResult {
    fn text(&self) -> (res: String)
        ensures
            res@ == joined_texts(tool_result_texts(*self)),
    {
        result_text(self)
    }

    fn json(&self) -> (res: Result<serde_json::Value, NotJsonError>)
        ensures
            match res {
                Ok(v) => payload_value(*self) == Some(v),
                Err(e) => payload_value(*self) is None && e.spec_raw() == joined_texts(
                    tool_result_texts(*self),
                ),
            },
    {
        result_json(self)
    }
}

/// Whether the text of a JSON number denotes zero: every character before
/// any exponent is a zero digit, a point or a sign.
pub open spec fn zero_number_text(t: Seq<char>) -> bool
    decreases t.len(),
{
    if t.len() == 0 {
        true
    } else if t[0] == 'e' || t[0] == 'E' {
        true
    } else {
        (t[0] == '0' || t[0] == '.' || t[0] == '-' || t[0] == '+') && zero_number_text(t.skip(1))
    }
}

/// Whether `c` may stand in the text of a JSON number.
pub open spec fn number_char(c: char) -> bool {
    ('0' <= c <= '9') || c == '.' || c == '-' || c == '+' || c == 'e' || c == 'E'
}

/// Whether the text of a number has a nonzero digit before its exponent
/// (if any).
pub open spec fn has_nonzero_mantissa_digit(t: Seq<char>) -> bool {
    exists|i: int|
        0 <= i < t.len() && '1' <= #[trigger] t[i] <= '9' && forall|j: int|
            0 <= j < i ==> t[j] != 'e' && t[j] != 'E'
}

/// A number written in JSON's characters denotes zero exactly when no digit
/// before its exponent is nonzero: `0`, `-0.0` and `0e5` are zero, `10`,
/// `500`, `1.0` and `0.5` are not.
pub proof fn law_zero_number_text_means_no_nonzero_digit(t: Seq<char>)
    requires
        forall|i: int| 0 <= i < t.len() ==> number_char(#[trigger] t[i]),
    ensures
        zero_number_text(t) <==> !has_nonzero_mantissa_digit(t),
    decreases t.len(),
{
    if t.len() > 0 {
        let r = t.skip(1);
        assert forall|i: int| 0 <= i < r.len() implies number_char(#[trigger] r[i]) by {
            assert(r[i] == t[i + 1]);
        }
        law_zero_number_text_means_no_nonzero_digit(r);
        if t[0] == 'e' || t[0] == 'E' {
            if has_nonzero_mantissa_digit(t) {
                let i = choose|i: int|
                    0 <= i < t.len() && '1' <= #[trigger] t[i] <= '9' && forall|j: int|
                        0 <= j < i ==> t[j] != 'e' && t[j] != 'E';
                assert(i != 0);
                assert(t[0] != 'e' && t[0] != 'E');
            }
        } else if '1' <= t[0] <= '9' {
            assert(has_nonzero_mantissa_digit(t));
        } else {
            if has_nonzero_mantissa_digit(t) {
                let i = choose|i: int|
                    0 <= i < t.len() && '1' <= #[trigger] t[i] <= '9' && forall|j: int|
                        0 <= j < i ==> t[j] != 'e' && t[j] != 'E';
                assert(i > 0);
                assert(r[i - 1] == t[i]);
                assert forall|j: int| 0 <= j < i - 1 implies r[j] != 'e' && r[j] != 'E' by {
                    assert(r[j] == t[j + 1]);
                }
                assert(has_nonzero_mantissa_digit(r));
            }
            if has_nonzero_mantissa_digit(r) {
                let i = choose|i: int|
                    0 <= i < r.len() && '1' <= #[trigger] r[i] <= '9' && forall|j: int|
                        0 <= j < i ==> r[j] != 'e' && r[j] != 'E';
                assert(t[i + 1] == r[i]);
                assert forall|j: int| 0 <= j < i + 1 implies t[j] != 'e' && t[j] != 'E' by {
                    if j > 0 {
                        assert(t[j] == r[j - 1]);
                    }
                }
                assert(has_nonzero_mantissa_digit(t));
            }
        }
    }
}

/// Whether a field is truthy: present and not `null`, `false`, zero or the
/// empty string.
pub open spec fn truthy(field: JsonField) -> bool {
    match field {
        JsonField::Absent => false,
        JsonField::Null => false,
        JsonField::Bool(b) => b,
        JsonField::Number(t) => !zero_number_text(t@),
        JsonField::Text(t) => t@.len() > 0,
        JsonField::Array => true,
        JsonField::Object => true,
    }
}

/// Whether a JSON number's text denotes zero.
fn is_zero_number_text(t: &str) -> (res: bool)
    ensures
        res == zero_number_text(t@),
{
    let v = chars_of(t);
    let mut i: usize = 0;
    assert(t@.skip(0) =~= t@);
    while i < v.len()
        invariant
            v@ == t@,
            i <= v@.len(),
            zero_number_text(t@) == zero_number_text(t@.skip(i as int)),
        decreases v@.len() - i,
    {
        let c = v[i];
        if c == 'e' || c == 'E' {
            return true;
        }
        if !(c == '0' || c == '.' || c == '-' || c == '+') {
            return false;
        }
        assert(t@.skip(i as int).skip(1) =~= t@.skip(i + 1));
        i += 1;
    }
    true
}

/// Whether a field is truthy.
pub fn is_truthy(field: &JsonField) -> (res: bool)
    ensures
        res == truthy(*field),
{
    match field {
        JsonField::Absent => false,
        JsonField::Null => false,
        JsonField::Bool(b) => *b,
        JsonField::Number(t) => !is_zero_number_text(t.as_str()),
        JsonField::Text(t) => !t.as_str().is_empty(),
        JsonField::Array => true,
        JsonField::Object => true,
    }
}

/// What the in-band failure convention reads from a JSON payload: its
/// `error` and `found` fields.
pub struct PayloadFields {
    /// The payload's `error` field.
    pub error: JsonField,
    /// The payload's `found` field.
    pub found: JsonField,
}

/// Whether a tool call reports an error: the protocol `is_error` flag, OR
/// the in-band convention (a truthy `error` field or `"found": false`), OR a
/// payload that is not JSON (`None`, the plain-text failure path).
pub open spec fn domain_error(is_error: Option<bool>, payload: Option<PayloadFields>) -> bool {
    is_error == Some(true) || match payload {
        Some(fields) => truthy(fields.error) || fields.found == JsonField::Bool(false),
        None => true,
    }
}

/// The `error` and `found` fields of a tool result's payload, or `None` when
/// the payload is not JSON.
pub open spec fn payload_fields(result: CallToolResult) -> Option<PayloadFields> {
    match payload_value(result) {
        Some(v) => Some(
            PayloadFields {
                error: json_value_field(v, "error"@),
                found: json_value_field(v, "found"@),
            },
        ),
        None => None,
    }
}

/// The verdict of the in-band failure convention, from the protocol flag and
/// the payload's fields (`None` when the payload is not JSON).
pub fn domain_error_verdict(is_error: Option<bool>, payload: Option<PayloadFields>) -> (res: bool)
    ensures
        res == domain_error(is_error, payload),
{
    if is_error == Some(true) {
        return true;
    }
    match payload {
        Some(fields) => {
            if is_truthy(&fields.error) {
                return true;
            }
            match fields.found {
                JsonField::Bool(b) => !b,
                _ => false,
            }
        },
        None => true,
    }
}

/// The outcome of a tool call: the raw `CallToolResult` plus conveniences
/// for evaluating it.
pub struct ToolOutcome {
    result: CallToolResult,
}

impl ToolOutcome {
    /// The raw result.
    pub closed spec fn spec_result(&self) -> CallToolResult {
        self.result
    }

    /// Wrap a raw result.
    pub fn new(result: CallToolResult) -> (outcome: Self)
        ensures
            outcome.spec_result() == result,
    {
        ToolOutcome { result }
    }

    /// The raw result, by value.
    pub fn into_result(self) -> (res: CallToolResult)
        ensures
            res == self.spec_result(),
    {
        self.result
    }

    /// The raw result, by reference.
    pub fn result(&self) -> (res: &CallToolResult)
        ensures
            *res == self.spec_result(),
    {
        &self.result
    }

    /// The concatenated text of every text content block (usually exactly
    /// one).
    pub fn text(&self) -> (res: String)
        ensures
            res@ == joined_texts(tool_result_texts(self.spec_result())),
    {
        result_text(&self.result)
    }

    /// The tool payload as JSON. Prefers `structured_content` when the tool
    /// sets it; otherwise parses the text blocks as JSON. Errors (with the
    /// raw text) when the payload is not JSON, e.g. a plain-text error
    /// message.
    pub fn json(&self) -> (res: Result<serde_json::Value, NotJsonError>)
        ensures
            match res {
                Ok(v) => payload_value(self.spec_result()) == Some(v),
                Err(e) => payload_value(self.spec_result()) is None && e.spec_raw()
                    == joined_texts(tool_result_texts(self.spec_result())),
            },
    {
        result_json(&self.result)
    }

    /// Whether the call reports an error: the protocol `is_error` flag, OR
    /// the in-band convention (a truthy `"error"` field or `"found": false`),
    /// OR a non-JSON text payload (the plain-text failure path).
    pub fn is_domain_error(&self) -> (res: bool)
        ensures
            res == domain_error(
                tool_result_is_error(self.spec_result()),
                payload_fields(self.spec_result()),
            ),
    {
        let is_error = is_error_flag(&self.result);
        if is_error == Some(true) {
            return true;
        }
        let payload = match result_json(&self.result) {
            Ok(value) => Some(
                PayloadFields { error: json_field(&value, "error"), found: json_field(&value, "found") },
            ),
            Err(_) => None,
        };
        domain_error_verdict(is_error, payload)
    }
}

/// How long the harness waits for a spawned server to listen, in
/// milliseconds.
pub const PORT_WAIT_LIMIT_MS: u64 = 30_000;

/// The pause between two connection attempts, in milliseconds.
pub const PORT_RETRY_DELAY_MS: u64 = 50;

/// What waiting for a spawned server's port does after one connection
/// attempt.
#[derive(Debug, Clone, Copy, PartialEq, Eq, Structural)]
pub enum PortWait {
    /// The port accepted the connection: the server is listening.
    Ready,
    /// The deadline has passed: give up with the connection error.
    TimedOut,
    /// Sleep this many milliseconds, then try again.
    RetryAfterMillis(u64),
}

/// One step of waiting for a port: done when the attempt connected, timed
/// out once `elapsed_ms` reaches the limit, else retry after a short pause.
pub fn wait_for_port_step(elapsed_ms: u64, connected: bool) -> (a: PortWait)
    ensures
        connected ==> a == PortWait::Ready,
        !connected && elapsed_ms >= PORT_WAIT_LIMIT_MS ==> a == PortWait::TimedOut,
        !connected && elapsed_ms < PORT_WAIT_LIMIT_MS ==> a == PortWait::RetryAfterMillis(
            PORT_RETRY_DELAY_MS,
        ),
{
    if connected {
        PortWait::Ready
    } else if elapsed_ms >= PORT_WAIT_LIMIT_MS {
        PortWait::TimedOut
    } else {
        PortWait::RetryAfterMillis(PORT_RETRY_DELAY_MS)
    }
}

impl std::ops::Deref for ToolOutcome {
    type Target = CallToolResult;

    /// Direct access to the raw result's `content`, `is_error` and
    /// `structured_content`.
    fn deref(&self) -> (res: &CallToolResult)
        ensures
            *res == self.spec_result(),
    {
        &self.result
    }
}

} // verus!
