use mcp_core::text::{ceil_char_boundary, char_safe_chunk, floor_char_boundary};

#[test]
fn boundaries_snap_around_multibyte_chars() {
    // "ä" occupies bytes 0..2.
    assert_eq!(floor_char_boundary("äbc", 1), 0);
    assert_eq!(ceil_char_boundary("äbc", 1), 2);
    // Indices at or past the end clamp to len.
    assert_eq!(floor_char_boundary("abc", 9), 3);
    assert_eq!(ceil_char_boundary("abc", 9), 3);
    // Already on a boundary: unchanged.
    assert_eq!(floor_char_boundary("abc", 2), 2);
    assert_eq!(ceil_char_boundary("abc", 2), 2);
}

#[test]
fn chunk_never_splits_a_char_and_reports_continuation() {
    let text = "äöü12345"; // three 2-byte chars, then five 1-byte
    let (first, next) = char_safe_chunk(text, 0, 5);
    assert!(text.is_char_boundary(0));
    assert!(first.chars().count() >= 1);
    // The window (budget 5) lands mid-char and rounds up to a boundary.
    let n = next.expect("more text remains");
    assert!(text.is_char_boundary(n));
    // Continuing from `next` covers the rest without overlap or loss.
    let (second, _) = char_safe_chunk(text, n, text.len());
    assert_eq!(format!("{first}{second}"), text);
}

#[test]
fn exact_fit_and_past_end() {
    let (all, next) = char_safe_chunk("abc", 0, 3);
    assert_eq!(all, "abc");
    assert_eq!(next, None);

    let (empty, next) = char_safe_chunk("abc", 10, 5);
    assert_eq!(empty, "");
    assert_eq!(next, None);
}

#[test]
fn doc_example_rounds_up_and_continues() {
    let (a, next) = char_safe_chunk("äbcd", 0, 3);
    assert_eq!(a, "äb");
    assert_eq!(next, Some(3));
    let (b, end) = char_safe_chunk("äbcd", next.unwrap(), 3);
    assert_eq!(b, "cd");
    assert_eq!(end, None);
}

#[test]
fn offset_inside_a_char_snaps_down() {
    // Offset 1 is inside "ä"; the chunk starts at 0.
    let (chunk, next) = char_safe_chunk("äbc", 1, 1);
    assert_eq!(chunk, "ä");
    assert_eq!(next, Some(2));
}

#[test]
fn zero_budget_on_a_boundary_is_empty() {
    let (chunk, next) = char_safe_chunk("abc", 1, 0);
    assert_eq!(chunk, "");
    assert_eq!(next, Some(1));
}

#[test]
fn zero_budget_inside_a_char_takes_that_char() {
    // Start snaps down to 0, end snaps up to 3 ("€" is three bytes).
    let (chunk, next) = char_safe_chunk("€x", 2, 0);
    assert_eq!(chunk, "");
    assert_eq!(next, Some(0));
    let (chunk, next) = char_safe_chunk("€x", 0, 1);
    assert_eq!(chunk, "€");
    assert_eq!(next, Some(3));
}

#[test]
fn four_byte_chars_and_empty_text() {
    let s = "a😀b"; // 1 + 4 + 1 bytes
    assert_eq!(floor_char_boundary(s, 3), 1);
    assert_eq!(ceil_char_boundary(s, 3), 5);
    assert_eq!(floor_char_boundary(s, 5), 5);
    assert_eq!(floor_char_boundary("", 0), 0);
    assert_eq!(ceil_char_boundary("", 4), 0);
    assert_eq!(char_safe_chunk("", 0, 10), ("", None));
}

#[test]
fn chunking_from_zero_reassembles_the_text() {
    let text = "Grüße aus Köln — 😀 und tschüss";
    for budget in 1..12 {
        let mut out = String::new();
        let mut offset = 0;
        loop {
            let (chunk, next) = char_safe_chunk(text, offset, budget);
            out.push_str(chunk);
            match next {
                Some(n) => {
                    assert!(n > offset);
                    offset = n;
                }
                None => break,
            }
        }
        assert_eq!(out, text);
    }
}
