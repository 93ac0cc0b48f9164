//! Response-size budget for MCP tool results.
//!
//! MCP clients cap the size of a tool result (some at roughly 25k tokens).
//! A server that returns more fails opaquely on the
//! client side, with no signal the model can act on. Tools should bound their
//! own output, but a single guard at the handler edge turns any residual
//! overrun into an actionable in-band error instead of a broken response.
//!
//! [`BudgetedHandler`] wraps a server handler and post-processes only
//! `call_tool` results with [`enforce_response_budget`]; every other request
//! is forwarded unchanged.

use rmcp::model::{CallToolResult, Content};
use vstd::prelude::*;
use vstd::string::StringSliceAdditionalSpecFns;
use vstd::utf8::*;

use crate::chars::{
    chars_of, decimal_digit, decimal_digit_char, lemma_decimal_digit_code,
    lemma_lower_hex_digit_code, lower_hex_digit, lower_hex_digit_char, push_char,
};

verus! {

broadcast use vstd::utf8::group_utf8_lib;

/// A sensible default char budget: below the ~25k-token client cap with room
/// for the response envelope (prose runs a few characters per token).
/// Consumers may pass their own value; the number is policy, not framework.
pub const DEFAULT_MAX_RESPONSE_CHARS: usize = 50_000;

/// The default recovery hint, used when a consumer does not set one.
pub const DEFAULT_HINT: &'static str =
    "The response exceeds the size budget. Narrow the request \u{2014} use the tool's pagination or chunking parameters, or a more specific tool.";

// ---------------------------------------------------------------------------
// Decimal numbers
// ---------------------------------------------------------------------------

/// The decimal representation of `n`, without leading zeros.
pub open spec fn decimal(n: nat) -> Seq<char>
    decreases n,
{
    if n < 10 {
        seq![decimal_digit(n)]
    } else {
        decimal(n / 10).push(decimal_digit(n % 10))
    }
}

/// The number that a string of decimal digits denotes.
pub open spec fn decimal_value(digits: Seq<char>) -> int
    decreases digits.len(),
{
    if digits.len() == 0 {
        0
    } else {
        decimal_value(digits.drop_last()) * 10 + (digits.last() as u32 - 48)
    }
}

/// Whether `s` is written as a JSON integer without sign: one or more
/// digits, with no leading zero unless the whole number is `0`.
pub open spec fn json_unsigned_integer(s: Seq<char>) -> bool {
    &&& s.len() >= 1
    &&& forall|i: int| 0 <= i < s.len() ==> '0' <= #[trigger] s[i] <= '9'
    &&& s[0] == '0' ==> s.len() == 1
}

/// The decimal representation has no leading zero: it starts with `0` only
/// for zero itself, whose representation is the single digit `0`. So every
/// number in the budget payload is a valid JSON number.
pub proof fn law_decimal_has_no_leading_zero(n: nat)
    ensures
        decimal(n).len() >= 1,
        decimal(n)[0] == '0' <==> n == 0,
        n == 0 ==> decimal(n) == seq!['0'],
        json_unsigned_integer(decimal(n)),
    decreases n,
{
    law_decimal_round_trips(n);
    if n < 10 {
        lemma_decimal_digit_code(n);
        assert((48 + 0) as char == '0');
        if n == 0 {
            assert(decimal(n) =~= seq!['0']);
        }
    } else {
        law_decimal_has_no_leading_zero(n / 10);
        assert(decimal(n)[0] == decimal(n / 10)[0]);
        assert(n / 10 > 0);
    }
}

/// The decimal representation of a number reads back as that number, and
/// consists of digits only.
pub proof fn law_decimal_round_trips(n: nat)
    ensures
        decimal_value(decimal(n)) == n,
        forall|i: int|
            0 <= i < decimal(n).len() ==> '0' <= #[trigger] decimal(n)[i] <= '9',
    decreases n,
{
    assert(n == (n / 10) * 10 + n % 10) by (nonlinear_arith);
    let d = n % 10;
    lemma_decimal_digit_code(d);
    if n >= 10 {
        law_decimal_round_trips(n / 10);
        assert(decimal(n).drop_last() =~= decimal(n / 10));
        assert(decimal(n).last() == decimal_digit(d));
        assert(decimal_value(decimal(n)) == decimal_value(decimal(n / 10)) * 10 + d);
        assert forall|i: int| 0 <= i < decimal(n).len() implies '0' <= #[trigger] decimal(n)[i]
            <= '9' by {
            if i < decimal(n / 10).len() {
                assert(decimal(n)[i] == decimal(n / 10)[i]);
            }
        }
    } else {
        assert(decimal(n).drop_last() =~= Seq::<char>::empty());
        assert(decimal_value(Seq::<char>::empty()) == 0);
        assert(decimal(n).last() == decimal_digit(d));
        assert(decimal_value(decimal(n)) == d);
    }
}

/// Append the decimal representation of `n` to `out`.
fn push_decimal(out: &mut String, n: usize)
    ensures
        final(out)@ == old(out)@ + decimal(n as nat),
    decreases n,
{
    if n >= 10 {
        push_decimal(out, n / 10);
    }
    push_char(out, decimal_digit_char((n % 10) as u8));
    assert(final(out)@ =~= old(out)@ + decimal(n as nat));
}

// ---------------------------------------------------------------------------
// JSON string escaping
// ---------------------------------------------------------------------------

/// The JSON escape of one character: `"`, `\` and the common control
/// characters get their short escapes, other control characters a `\u00XX`
/// escape with lower-case hex digits, everything else stands for itself.
pub open spec fn escape_char(c: char) -> Seq<char> {
    if c == '"' {
        seq!['\\', '"']
    } else if c == '\\' {
        seq!['\\', '\\']
    } else if c == '\n' {
        seq!['\\', 'n']
    } else if c == '\r' {
        seq!['\\', 'r']
    } else if c == '\t' {
        seq!['\\', 't']
    } else if (c as u32) < 0x20 {
        seq![
            '\\',
            'u',
            '0',
            '0',
            lower_hex_digit((c as u32 / 16) as nat),
            lower_hex_digit((c as u32 % 16) as nat),
        ]
    } else {
        seq![c]
    }
}

/// The JSON escape of a text: each character escaped in turn.
pub open spec fn json_escaped(s: Seq<char>) -> Seq<char>
    decreases s.len(),
{
    if s.len() == 0 {
        seq![]
    } else {
        escape_char(s[0]) + json_escaped(s.drop_first())
    }
}

/// Escaping a text with one more character appends that character's escape.
proof fn lemma_json_escaped_push(s: Seq<char>, c: char)
    ensures
        json_escaped(s.push(c)) == json_escaped(s) + escape_char(c),
    decreases s.len(),
{
    if s.len() == 0 {
        assert(s.push(c).drop_first() =~= s);
        assert(json_escaped(s) == Seq::<char>::empty());
        assert(json_escaped(s.push(c)) =~= escape_char(c));
    } else {
        lemma_json_escaped_push(s.drop_first(), c);
        assert(s.push(c).drop_first() =~= s.drop_first().push(c));
        assert(json_escaped(s.push(c)) =~= json_escaped(s) + escape_char(c));
    }
}

/// Escape a string for embedding in a JSON string literal.
pub fn json_escape(s: &str) -> (res: String)
    ensures
        res@ == json_escaped(s@),
{
    let v = chars_of(s);
    let mut out = String::new();
    let mut i: usize = 0;
    while i < v.len()
        invariant
            v@ == s@,
            i <= v@.len(),
            out@ == json_escaped(s@.take(i as int)),
        decreases v@.len() - i,
    {
        let c = v[i];
        proof {
            lemma_json_escaped_push(s@.take(i as int), c);
            assert(s@.take(i + 1) =~= s@.take(i as int).push(c));
        }
        if c == '"' {
            push_char(&mut out, '\\');
            push_char(&mut out, '"');
        } else if c == '\\' {
            push_char(&mut out, '\\');
            push_char(&mut out, '\\');
        } else if c == '\n' {
            push_char(&mut out, '\\');
            push_char(&mut out, 'n');
        } else if c == '\r' {
            push_char(&mut out, '\\');
            push_char(&mut out, 'r');
        } else if c == '\t' {
            push_char(&mut out, '\\');
            push_char(&mut out, 't');
        } else if (c as u32) < 0x20 {
            let code = c as u32;
            push_char(&mut out, '\\');
            push_char(&mut out, 'u');
            push_char(&mut out, '0');
            push_char(&mut out, '0');
            push_char(&mut out, lower_hex_digit_char((code / 16) as u8));
            push_char(&mut out, lower_hex_digit_char((code % 16) as u8));
        } else {
            push_char(&mut out, c);
        }
        assert(out@ =~= json_escaped(s@.take(i as int)) + escape_char(c));
        i += 1;
    }
    assert(s@.take(v@.len() as int) =~= s@);
    out
}

/// The value of a hexadecimal digit character, if it is one.
pub open spec fn hex_value(c: char) -> Option<nat> {
    let u = c as u32;
    if 48 <= u <= 57 {
        Some((u - 48) as nat)
    } else if 97 <= u <= 102 {
        Some((u - 87) as nat)
    } else if 65 <= u <= 70 {
        Some((u - 55) as nat)
    } else {
        None
    }
}

/// The character that a one-letter JSON escape `\e` stands for, if `e` is
/// one of `" \ / b f n r t`.
pub open spec fn short_escape(e: char) -> Option<char> {
    if e == '"' {
        Some('"')
    } else if e == '\\' {
        Some('\\')
    } else if e == '/' {
        Some('/')
    } else if e == 'b' {
        Some('\u{8}')
    } else if e == 'f' {
        Some('\u{c}')
    } else if e == 'n' {
        Some('\n')
    } else if e == 'r' {
        Some('\r')
    } else if e == 't' {
        Some('\t')
    } else {
        None
    }
}

/// `c` in front of a decoded rest, if the rest decoded.
pub open spec fn prepend(c: char, rest: Option<Seq<char>>) -> Option<Seq<char>> {
    match rest {
        Some(r) => Some(seq![c] + r),
        None => None,
    }
}

/// What a JSON parser reads from the text between the quotes of a JSON
/// string literal (RFC 8259, section 7): escapes stand for the characters
/// they name, and `None` marks a body that is not well-formed (an unescaped
/// quote or control character, or a bad escape). A `\u` escape in the
/// surrogate range, which JSON uses only in pairs, is outside this model and
/// reads as `None`.
pub open spec fn json_unescaped(t: Seq<char>) -> Option<Seq<char>>
    decreases t.len(),
{
    if t.len() == 0 {
        Some(seq![])
    } else if t[0] == '\\' {
        if t.len() < 2 {
            None
        } else {
            match short_escape(t[1]) {
                Some(x) => prepend(x, json_unescaped(t.skip(2))),
                None => if t[1] == 'u' && t.len() >= 6 {
                    match (hex_value(t[2]), hex_value(t[3]), hex_value(t[4]), hex_value(t[5])) {
                        (Some(a), Some(b), Some(c), Some(d)) => {
                            let code = a * 4096 + b * 256 + c * 16 + d;
                            if 0xD800 <= code <= 0xDFFF {
                                None
                            } else {
                                prepend((code as u32) as char, json_unescaped(t.skip(6)))
                            }
                        },
                        _ => None,
                    }
                } else {
                    None
                },
            }
        }
    } else if t[0] == '"' || (t[0] as u32) < 0x20 {
        None
    } else {
        prepend(t[0], json_unescaped(t.skip(1)))
    }
}

/// Reading a lower-case hex digit back gives its value.
proof fn lemma_hex_digit_value(d: nat)
    requires
        d < 16,
    ensures
        hex_value(lower_hex_digit(d)) == Some(d),
{
    lemma_lower_hex_digit_code(d);
}

/// Reading the escape of one character, followed by any text, gives that
/// character in front of what the text reads as.
proof fn lemma_unescape_escape_char(c: char, t: Seq<char>)
    ensures
        json_unescaped(escape_char(c) + t) == prepend(c, json_unescaped(t)),
{
    let e = escape_char(c);
    let w = e + t;
    if c == '"' || c == '\\' || c == '\n' || c == '\r' || c == '\t' {
        assert(w[0] == '\\');
        assert(w.skip(2) =~= t);
    } else if (c as u32) < 0x20 {
        let code = c as u32;
        lemma_hex_digit_value((code / 16) as nat);
        lemma_hex_digit_value((code % 16) as nat);
        assert(w.skip(6) =~= t);
        assert(w[1] == 'u');
        assert(hex_value('0') == Some(0nat));
        assert(0nat * 4096 + 0nat * 256 + (code / 16) as nat * 16 + (code % 16) as nat == code);
        assert((code as u32) as char == c);
    } else {
        assert(w[0] == c);
        assert(w.skip(1) =~= t);
    }
}

/// The escape of a single character holds no control character.
proof fn lemma_escape_char_no_control(c: char)
    ensures
        forall|i: int| 0 <= i < escape_char(c).len() ==> #[trigger] escape_char(c)[i] as u32 >= 0x20,
{
    if c != '"' && c != '\\' && c != '\n' && c != '\r' && c != '\t' && (c as u32) < 0x20 {
        let code = c as u32;
        let hi = (code / 16) as nat;
        let lo = (code % 16) as nat;
        lemma_hex_digit_value(hi);
        lemma_hex_digit_value(lo);
        assert(lower_hex_digit(hi) as u32 >= 48);
        assert(lower_hex_digit(lo) as u32 >= 48);
    }
}

/// The escaped text holds no character below U+0020: every control
/// character is written as an escape.
pub proof fn law_json_escape_has_no_control_chars(s: Seq<char>)
    ensures
        forall|i: int|
            0 <= i < json_escaped(s).len() ==> #[trigger] json_escaped(s)[i] as u32 >= 0x20,
    decreases s.len(),
{
    if s.len() > 0 {
        law_json_escape_has_no_control_chars(s.drop_first());
        lemma_escape_char_no_control(s[0]);
        let e = escape_char(s[0]);
        let rest = json_escaped(s.drop_first());
        assert forall|i: int| 0 <= i < json_escaped(s).len() implies #[trigger] json_escaped(s)[i]
            as u32 >= 0x20 by {
            if i < e.len() {
                assert(json_escaped(s)[i] == e[i]);
            } else {
                assert(json_escaped(s)[i] == rest[i - e.len()]);
            }
        }
    }
}

/// Text without quotes, backslashes or control characters is left as it
/// is.
pub proof fn law_json_escape_keeps_plain_text(s: Seq<char>)
    requires
        forall|i: int|
            0 <= i < s.len() ==> #[trigger] s[i] != '"' && s[i] != '\\' && s[i] as u32 >= 0x20,
    ensures
        json_escaped(s) == s,
    decreases s.len(),
{
    if s.len() > 0 {
        assert(s[0] != '"' && s[0] != '\\' && s[0] as u32 >= 0x20);
        assert forall|i: int| 0 <= i < s.drop_first().len() implies #[trigger] s.drop_first()[i]
            != '"' && s.drop_first()[i] != '\\' && s.drop_first()[i] as u32 >= 0x20 by {
            assert(s.drop_first()[i] == s[i + 1]);
        }
        law_json_escape_keeps_plain_text(s.drop_first());
        assert(seq![s[0]] + s.drop_first() =~= s);
    }
}

/// Escaping round-trips: a JSON parser reading the escaped text (as the body
/// of a string literal) gets back exactly the text it started from. In particular
/// the escaped text holds no raw quote or control character that would end
/// or break the literal.
pub proof fn law_json_escape_round_trips(s: Seq<char>)
    ensures
        json_unescaped(json_escaped(s)) == Some(s),
    decreases s.len(),
{
    if s.len() == 0 {
    } else {
        law_json_escape_round_trips(s.drop_first());
        lemma_unescape_escape_char(s[0], json_escaped(s.drop_first()));
        assert(seq![s[0]] + s.drop_first() =~= s);
    }
}

// ---------------------------------------------------------------------------
// Tool results
// ---------------------------------------------------------------------------

#[verifier::external_type_specification]
#[verifier::external_body]
pub struct ExCallToolResult(rmcp::model::CallToolResult);

/// The content blocks of a tool result, each taken as its text when it is a
/// text block and as `None` otherwise, in order.
pub uninterp spec fn tool_result_texts(result: CallToolResult) -> Seq<Option<Seq<char>>>;

/// The `is_error` flag of a tool result.
pub uninterp spec fn tool_result_is_error(result: CallToolResult) -> Option<bool>;

/// The `structured_content` of a tool result.
pub uninterp spec fn tool_result_structured(result: CallToolResult) -> Option<serde_json::Value>;

/// Whether a tool result carries protocol-level metadata (`_meta`).
pub uninterp spec fn tool_result_has_meta(result: CallToolResult) -> bool;

/// Whether every content block of a tool result is bare: it carries no
/// annotations and, for a text block, no metadata of its own.
pub uninterp spec fn tool_result_blocks_bare(result: CallToolResult) -> bool;

/// The characters of each optional text.
pub open spec fn texts_view(v: Seq<Option<&str>>) -> Seq<Option<Seq<char>>> {
    v.map_values(
        |o: Option<&str>|
            match o {
                Some(t) => Some(t@),
                None => None,
            },
    )
}

/// `CallToolResult::content` with `Content::as_text` (rmcp) on each block:
/// the text of every text block and `None` for any other block, in order.
/// Claimed: that sequence is `tool_result_texts` of the result.
#[verifier::external_body]
pub(crate) fn text_blocks(result: &CallToolResult) -> (res: Vec<Option<&str>>)
    ensures
        texts_view(res@) == tool_result_texts(*result),
{
    result.content.iter().map(|c| c.as_text().map(|t| t.text.as_str())).collect()
}

/// `CallToolResult::is_error` (rmcp): the result's `is_error` flag.
#[verifier::external_body]
pub(crate) fn is_error_flag(result: &CallToolResult) -> (res: Option<bool>)
    ensures
        res == tool_result_is_error(*result),
{
    result.is_error
}

/// `CallToolResult::error` (rmcp) over a single `Content::text(payload)`
/// block. Claimed, as rmcp's source builds it: the result holds exactly that
/// one text block, bare (no annotations, no block metadata), its `is_error`
/// flag is `Some(true)`, and it has neither structured content nor
/// metadata.
#[verifier::external_body]
fn error_result(payload: String) -> (res: CallToolResult)
    ensures
        tool_result_texts(res) == seq![Some(payload@)],
        tool_result_is_error(res) == Some(true),
        tool_result_structured(res) is None,
        !tool_result_has_meta(res),
        tool_result_blocks_bare(res),
{
    CallToolResult::error(vec![Content::text(payload)])
}

/// Total UTF-8 length, in bytes, of the text blocks among `blocks`.
pub open spec fn text_bytes_total(blocks: Seq<Option<Seq<char>>>) -> nat
    decreases blocks.len(),
{
    if blocks.len() == 0 {
        0
    } else {
        text_bytes_total(blocks.drop_last()) + match blocks.last() {
            Some(t) => encode_utf8(t).len(),
            None => 0,
        }
    }
}

/// The text total is additive: the total of two runs of blocks laid end to
/// end is the sum of their totals, a text block counts its UTF-8 length and
/// any other block counts nothing, wherever it stands.
pub proof fn law_text_bytes_total_adds_up(a: Seq<Option<Seq<char>>>, b: Seq<Option<Seq<char>>>)
    ensures
        text_bytes_total(a + b) == text_bytes_total(a) + text_bytes_total(b),
        text_bytes_total(seq![None::<Seq<char>>]) == 0,
        forall|t: Seq<char>| #[trigger] text_bytes_total(seq![Some(t)]) == encode_utf8(t).len(),
        text_bytes_total(a + seq![None] + b) == text_bytes_total(a) + text_bytes_total(b),
{
    let empty = Seq::<Option<Seq<char>>>::empty();
    assert(text_bytes_total(empty) == 0);
    assert forall|t: Seq<char>| #[trigger] text_bytes_total(seq![Some(t)]) == encode_utf8(t).len() by {
        let one = seq![Some(t)];
        assert(one.drop_last() =~= empty);
        assert(one.last() == Some(t));
    }
    let none = seq![None::<Seq<char>>];
    assert(none.drop_last() =~= empty);
    assert(none.last() == None::<Seq<char>>);
    assert(text_bytes_total(none) == 0);
    lemma_text_bytes_total_concat(a, b);
    let an = a + none;
    lemma_text_bytes_total_concat(a, none);
    lemma_text_bytes_total_concat(an, b);
}

/// Additivity of the text total (the induction behind
/// `law_text_bytes_total_adds_up`).
proof fn lemma_text_bytes_total_concat(a: Seq<Option<Seq<char>>>, b: Seq<Option<Seq<char>>>)
    ensures
        text_bytes_total(a + b) == text_bytes_total(a) + text_bytes_total(b),
    decreases b.len(),
{
    if b.len() == 0 {
        assert(a + b =~= a);
    } else {
        lemma_text_bytes_total_concat(a, b.drop_last());
        assert((a + b).drop_last() =~= a + b.drop_last());
        assert((a + b).last() == b.last());
    }
}

/// `n`, or `usize::MAX` when `n` does not fit in a `usize`.
pub open spec fn saturated(n: nat) -> nat {
    if n > usize::MAX {
        usize::MAX as nat
    } else {
        n
    }
}

/// Total length, in bytes, of the text content of a tool result; `None`
/// when the total does not fit in a `usize`.
fn response_chars(result: &CallToolResult) -> (res: Option<usize>)
    ensures
        match res {
            Some(n) => n == text_bytes_total(tool_result_texts(*result)),
            None => text_bytes_total(tool_result_texts(*result)) > usize::MAX,
        },
{
    let blocks = text_blocks(result);
    let ghost view = texts_view(blocks@);
    let mut total: usize = 0;
    let mut i: usize = 0;
    while i < blocks.len()
        invariant
            view == texts_view(blocks@),
            view == tool_result_texts(*result),
            i <= blocks@.len(),
            total == text_bytes_total(view.take(i as int)),
        decreases blocks@.len() - i,
    {
        assert(view.take(i + 1).drop_last() =~= view.take(i as int));
        let len = match blocks[i] {
            Some(t) => t.as_bytes().len(),
            None => 0,
        };
        assert(len == match view.take(i + 1).last() {
            Some(t) => encode_utf8(t).len(),
            None => 0,
        });
        match total.checked_add(len) {
            Some(t) => total = t,
            None => {
                proof {
                    lemma_text_bytes_total_prefix(view, i + 1);
                }
                return None;
            },
        }
        i += 1;
    }
    assert(view.take(blocks@.len() as int) =~= view);
    Some(total)
}

/// The text total of a prefix never exceeds that of the whole sequence.
proof fn lemma_text_bytes_total_prefix(blocks: Seq<Option<Seq<char>>>, n: int)
    requires
        0 <= n <= blocks.len(),
    ensures
        text_bytes_total(blocks.take(n)) <= text_bytes_total(blocks),
    decreases blocks.len(),
{
    if n < blocks.len() {
        lemma_text_bytes_total_prefix(blocks.drop_last(), n);
        assert(blocks.drop_last().take(n) =~= blocks.take(n));
    } else {
        assert(blocks.take(n) =~= blocks);
    }
}

/// The machine-readable error payload for a result of `response_chars`
/// bytes of text against a budget of `budget_chars`, with a recovery `hint`:
/// a JSON object with the fields `error` (`"response_exceeds_budget"`),
/// `response_chars`, `budget_chars` and `hint`, in that order.
pub open spec fn budget_payload(response_chars: nat, budget_chars: nat, hint: Seq<char>) -> Seq<
    char,
> {
    "{\"error\":\"response_exceeds_budget\",\"response_chars\":"@ + decimal(response_chars)
        + ",\"budget_chars\":"@ + decimal(budget_chars) + ",\"hint\":\""@ + json_escaped(hint)
        + "\"}"@
}

/// Build the budget error payload (by hand: the payload is a fixed shape, and
/// only `hint` is free text that needs escaping).
fn budget_payload_text(response_chars: usize, budget_chars: usize, hint: &str) -> (res: String)
    ensures
        res@ == budget_payload(response_chars as nat, budget_chars as nat, hint@),
{
    let mut out = String::new();
    out.append("{\"error\":\"response_exceeds_budget\",\"response_chars\":");
    push_decimal(&mut out, response_chars);
    out.append(",\"budget_chars\":");
    push_decimal(&mut out, budget_chars);
    out.append(",\"hint\":\"");
    let escaped = json_escape(hint);
    out.append(escaped.as_str());
    out.append("\"}");
    out
}

/// If `result`'s text content exceeds `max_chars` bytes, replace it with an
/// `is_error` result carrying a machine-readable `response_exceeds_budget`
/// payload (the measured size, the budget, and a recovery `hint`); otherwise
/// return it unchanged.
pub fn enforce_response_budget(result: CallToolResult, max_chars: usize, hint: &str) -> (res:
    CallToolResult)
    ensures
        text_bytes_total(tool_result_texts(result)) <= max_chars ==> res == result,
        text_bytes_total(tool_result_texts(result)) > max_chars ==> {
            &&& tool_result_is_error(res) == Some(true)
            &&& tool_result_structured(res) is None
            &&& !tool_result_has_meta(res)
            &&& tool_result_blocks_bare(res)
            &&& tool_result_texts(res) == seq![
                Some(
                    budget_payload(
                        saturated(text_bytes_total(tool_result_texts(result))),
                        max_chars as nat,
                        hint@,
                    ),
                ),
            ]
        },
{
    let chars = match response_chars(&result) {
        Some(n) => {
            if n <= max_chars {
                return result;
            }
            n
        },
        None => usize::MAX,
    };
    let payload = budget_payload_text(chars, max_chars, hint);
    error_result(payload)
}

// ---------------------------------------------------------------------------
// The budgeted handler
// ---------------------------------------------------------------------------

/// Wraps a server handler, enforcing a response-size budget on every
/// `call_tool` result. All other handler requests are forwarded unchanged.
#[derive(Debug, Clone)]
pub struct BudgetedHandler<H> {
    inner: H,
    max_chars: usize,
    hint: String,
}

impl<H> BudgetedHandler<H> {
    /// The wrapped handler.
    pub closed spec fn spec_inner(&self) -> H {
        self.inner
    }

    /// The budget, in bytes of text.
    pub closed spec fn spec_max_chars(&self) -> nat {
        self.max_chars as nat
    }

    /// The recovery hint returned when a result exceeds the budget.
    pub closed spec fn spec_hint(&self) -> Seq<char> {
        self.hint@
    }

    /// Wrap `inner`, capping tool results at `max_chars` bytes of text, with
    /// the default recovery hint.
    pub fn new(inner: H, max_chars: usize) -> (h: Self)
        ensures
            h.spec_inner() == inner,
            h.spec_max_chars() == max_chars,
            h.spec_hint() == DEFAULT_HINT@,
    {
        BudgetedHandler { inner, max_chars, hint: DEFAULT_HINT.to_owned() }
    }

    /// Set the recovery hint returned when a result exceeds the budget (name
    /// the tool's own pagination parameters here).
    pub fn with_hint(self, hint: &str) -> (h: Self)
        ensures
            h.spec_inner() == self.spec_inner(),
            h.spec_max_chars() == self.spec_max_chars(),
            h.spec_hint() == hint@,
    {
        BudgetedHandler { hint: hint.to_owned(), ..self }
    }

    /// The wrapped handler.
    pub fn inner(&self) -> (res: &H)
        ensures
            *res == self.spec_inner(),
    {
        &self.inner
    }

    /// The budget, in bytes of text.
    pub fn max_chars(&self) -> (res: usize)
        ensures
            res == self.spec_max_chars(),
    {
        self.max_chars
    }

    /// The recovery hint.
    pub fn hint(&self) -> (res: &str)
        ensures
            res@ == self.spec_hint(),
    {
        self.hint.as_str()
    }

    /// Post-process a `call_tool` result: enforce this handler's budget and
    /// hint on it.
    pub fn guard_tool_result(&self, result: CallToolResult) -> (res: CallToolResult)
        ensures
            text_bytes_total(tool_result_texts(result)) <= self.spec_max_chars() ==> res
                == result,
            text_bytes_total(tool_result_texts(result)) > self.spec_max_chars() ==> {
                &&& tool_result_is_error(res) == Some(true)
                &&& tool_result_structured(res) is None
                &&& !tool_result_has_meta(res)
                &&& tool_result_blocks_bare(res)
                &&& tool_result_texts(res) == seq![
                    Some(
                        budget_payload(
                            saturated(text_bytes_total(tool_result_texts(result))),
                            self.spec_max_chars(),
                            self.spec_hint(),
                        ),
                    ),
                ]
            },
    {
        enforce_response_budget(result, self.max_chars, self.hint.as_str())
    }
}

} // verus!
