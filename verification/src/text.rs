//! Character-boundary-safe text slicing.
//!
//! MCP servers chunk large payloads by byte budget while keeping UTF-8 valid
//! and, where possible, breaking on a word boundary. These helpers give a
//! shared implementation so consumers stop hand-rolling `is_char_boundary`
//! loops.
//!
//! Every index here is a byte offset into the UTF-8 encoding of the text,
//! `s.spec_bytes()`, which is `encode_utf8(s@)`.

use vstd::prelude::*;
use vstd::string::StringSliceAdditionalSpecFns;
use vstd::utf8::*;

verus! {

broadcast use vstd::utf8::group_utf8_lib;

/// Largest char boundary of `bytes` at or below `index`; `bytes.len()` when
/// `index` is at or past the end.
pub open spec fn floor_boundary(bytes: Seq<u8>, index: nat) -> nat
    decreases index,
{
    if index >= bytes.len() {
        bytes.len()
    } else if index == 0 || is_char_boundary(bytes, index as int) {
        index
    } else {
        floor_boundary(bytes, (index - 1) as nat)
    }
}

/// Smallest char boundary of `bytes` at or above `index`, clamped to
/// `bytes.len()`.
pub open spec fn ceil_boundary(bytes: Seq<u8>, index: nat) -> nat
    decreases bytes.len() - index,
{
    if index >= bytes.len() {
        bytes.len()
    } else if is_char_boundary(bytes, index as int) {
        index
    } else {
        ceil_boundary(bytes, index + 1)
    }
}

/// `index` clamped to the length of `bytes`.
pub open spec fn clamp_to_len(bytes: Seq<u8>, index: int) -> nat {
    if index >= bytes.len() {
        bytes.len()
    } else if index <= 0 {
        0
    } else {
        index as nat
    }
}

/// Byte offset at which `char_safe_chunk(text, offset, _)` starts.
pub open spec fn chunk_start(bytes: Seq<u8>, offset: nat) -> nat {
    floor_boundary(bytes, clamp_to_len(bytes, offset as int))
}

/// Byte offset at which `char_safe_chunk(text, offset, budget)` ends.
pub open spec fn chunk_end(bytes: Seq<u8>, offset: nat, budget: nat) -> nat {
    ceil_boundary(bytes, clamp_to_len(bytes, (chunk_start(bytes, offset) + budget) as int))
}

/// The continuation offset reported by `char_safe_chunk(text, offset, budget)`.
pub open spec fn chunk_next(bytes: Seq<u8>, offset: nat, budget: nat) -> Option<nat> {
    let end = chunk_end(bytes, offset, budget);
    if end < bytes.len() {
        Some(end)
    } else {
        None
    }
}

/// What `floor_boundary` is: at most the (clamped) index, a char boundary, and
/// no char boundary lies strictly between it and the index.
pub proof fn lemma_floor_boundary(bytes: Seq<u8>, index: nat)
    requires
        valid_utf8(bytes),
    ensures
        floor_boundary(bytes, index) <= clamp_to_len(bytes, index as int),
        is_char_boundary(bytes, floor_boundary(bytes, index) as int),
        forall|k: int|
            floor_boundary(bytes, index) < k <= clamp_to_len(bytes, index as int)
                ==> !is_char_boundary(bytes, k),
    decreases index,
{
    if index >= bytes.len() {
    } else if index == 0 || is_char_boundary(bytes, index as int) {
    } else {
        lemma_floor_boundary(bytes, (index - 1) as nat);
    }
}

/// What `ceil_boundary` is: at least the (clamped) index, a char boundary,
/// and no char boundary lies between the index and it.
pub proof fn lemma_ceil_boundary(bytes: Seq<u8>, index: nat)
    requires
        valid_utf8(bytes),
    ensures
        clamp_to_len(bytes, index as int) <= ceil_boundary(bytes, index) <= bytes.len(),
        is_char_boundary(bytes, ceil_boundary(bytes, index) as int),
        forall|k: int|
            clamp_to_len(bytes, index as int) <= k < ceil_boundary(bytes, index)
                ==> !is_char_boundary(bytes, k),
    decreases bytes.len() - index,
{
    if index >= bytes.len() {
    } else if is_char_boundary(bytes, index as int) {
    } else {
        lemma_ceil_boundary(bytes, index + 1);
    }
}

/// A char boundary of a valid UTF-8 sequence is still a char boundary of any
/// prefix that ends on a char boundary at or after it.
proof fn lemma_boundary_in_prefix(bytes: Seq<u8>, start: int, end: int)
    requires
        valid_utf8(bytes),
        is_char_boundary(bytes, start),
        is_char_boundary(bytes, end),
        0 <= start <= end <= bytes.len(),
    ensures
        is_char_boundary(bytes.subrange(0, end), start),
        valid_utf8(bytes.subrange(0, end)),
{
    let prefix = bytes.subrange(0, end);
    assert(valid_utf8(prefix));
    if start == end {
        assert(is_char_boundary(prefix, prefix.len() as int));
    } else if start == 0 {
    } else {
        assert(is_char_boundary(bytes, start) <==> !is_continuation_byte(bytes[start]));
        assert(is_char_boundary(prefix, start) <==> !is_continuation_byte(prefix[start]));
    }
}

/// The bytes between two char boundaries of an encoded text decode to a
/// contiguous run of the text's characters.
proof fn lemma_slice_is_whole_chars(chars: Seq<char>, start: int, end: int)
    requires
        0 <= start <= end <= encode_utf8(chars).len(),
        is_char_boundary(encode_utf8(chars), start),
        is_char_boundary(encode_utf8(chars), end),
    ensures
        exists|i: int, j: int|
            0 <= i <= j <= chars.len() && decode_utf8(encode_utf8(chars).subrange(start, end))
                == chars.subrange(i, j),
{
    let bytes = encode_utf8(chars);
    let len = bytes.len() as int;
    let tail = bytes.subrange(start, len);
    lemma_boundary_in_prefix(bytes, start, end);
    let head = bytes.subrange(0, end);
    // chars == decode(bytes[..start]) + decode(bytes[start..end]) + decode(bytes[end..])
    assert(decode_utf8(bytes) == decode_utf8(bytes.subrange(0, end)) + decode_utf8(
        bytes.subrange(end, len),
    ));
    assert(decode_utf8(head) == decode_utf8(head.subrange(0, start)) + decode_utf8(
        head.subrange(start, end),
    ));
    assert(head.subrange(0, start) =~= bytes.subrange(0, start));
    assert(head.subrange(start, end) =~= bytes.subrange(start, end));
    let a = decode_utf8(bytes.subrange(0, start));
    let b = decode_utf8(bytes.subrange(start, end));
    let c = decode_utf8(bytes.subrange(end, len));
    assert(chars == a + b + c);
    assert(b == chars.subrange(a.len() as int, (a.len() + b.len()) as int));
}

/// Largest char boundary of `s` at or below `index` (clamped to `s.len()`).
pub fn floor_char_boundary(s: &str, index: usize) -> (res: usize)
    ensures
        res == floor_boundary(s.spec_bytes(), index as nat),
        res <= clamp_to_len(s.spec_bytes(), index as int),
        is_char_boundary(s.spec_bytes(), res as int),
        forall|k: int|
            res < k <= clamp_to_len(s.spec_bytes(), index as int)
                ==> !is_char_boundary(s.spec_bytes(), k),
{
    proof {
        lemma_floor_boundary(s.spec_bytes(), index as nat);
    }
    let ghost bytes = s.spec_bytes();
    let len = s.as_bytes().len();
    if index >= len {
        len
    } else {
        let mut i = index;
        while i > 0 && !s.is_char_boundary(i)
            invariant
                bytes == s.spec_bytes(),
                i <= index < bytes.len(),
                floor_boundary(bytes, i as nat) == floor_boundary(bytes, index as nat),
            decreases i,
        {
            i -= 1;
        }
        i
    }
}

/// Smallest char boundary of `s` at or above `index` (clamped to `s.len()`).
pub fn ceil_char_boundary(s: &str, index: usize) -> (res: usize)
    ensures
        res == ceil_boundary(s.spec_bytes(), index as nat),
        clamp_to_len(s.spec_bytes(), index as int) <= res <= s.spec_bytes().len(),
        is_char_boundary(s.spec_bytes(), res as int),
        forall|k: int|
            clamp_to_len(s.spec_bytes(), index as int) <= k < res
                ==> !is_char_boundary(s.spec_bytes(), k),
{
    proof {
        lemma_ceil_boundary(s.spec_bytes(), index as nat);
    }
    let ghost bytes = s.spec_bytes();
    let len = s.as_bytes().len();
    let mut i = index;
    while i < len && !s.is_char_boundary(i)
        invariant
            bytes == s.spec_bytes(),
            len == bytes.len(),
            index <= i,
            i <= len || i == index,
            ceil_boundary(bytes, i as nat) == ceil_boundary(bytes, index as nat),
        decreases len - i,
    {
        i += 1;
    }
    if i < len {
        i
    } else {
        len
    }
}

/// Take a char-boundary-safe slice of `text` starting at byte `offset` and
/// spanning about `budget` bytes.
///
/// `offset` is snapped down and the end snapped up to the nearest char
/// boundaries, so the returned `&str` is always valid UTF-8 and never splits
/// a character. The second element is the byte offset to continue from:
/// `Some` when more text remains, `None` when the slice reached the end. An
/// `offset` past the end yields an empty slice and `None`.
pub fn char_safe_chunk(text: &str, offset: usize, budget: usize) -> (res: (&str, Option<usize>))
    ensures
        chunk_start(text.spec_bytes(), offset as nat) <= chunk_end(
            text.spec_bytes(),
            offset as nat,
            budget as nat,
        ) <= text.spec_bytes().len(),
        res.0.spec_bytes() == text.spec_bytes().subrange(
            chunk_start(text.spec_bytes(), offset as nat) as int,
            chunk_end(text.spec_bytes(), offset as nat, budget as nat) as int,
        ),
        match res.1 {
            Some(n) => chunk_next(text.spec_bytes(), offset as nat, budget as nat) == Some(
                n as nat,
            ),
            None => chunk_next(text.spec_bytes(), offset as nat, budget as nat) is None,
        },
        exists|i: int, j: int| 0 <= i <= j <= text@.len() && res.0@ == text@.subrange(i, j),
{
    let ghost bytes = text.spec_bytes();
    let len = text.as_bytes().len();
    let clamped = if offset < len {
        offset
    } else {
        len
    };
    let start = floor_char_boundary(text, clamped);
    proof {
        lemma_floor_boundary(bytes, clamped as nat);
        assert(clamp_to_len(bytes, offset as int) == clamped);
    }
    let reach = start.saturating_add(budget);
    let limit = if reach < len {
        reach
    } else {
        len
    };
    let end = ceil_char_boundary(text, limit);
    proof {
        lemma_ceil_boundary(bytes, limit as nat);
        assert(clamp_to_len(bytes, start + budget) == limit);
        lemma_boundary_in_prefix(bytes, start as int, end as int);
    }
    let next = if end < len {
        Some(end)
    } else {
        None
    };
    let (head, _) = text.split_at(end);
    let (_, chunk) = head.split_at(start);
    assert(bytes.subrange(0, end as int).subrange(start as int, end as int) =~= bytes.subrange(
        start as int,
        end as int,
    ));
    proof {
        lemma_slice_is_whole_chars(text@, start as int, end as int);
        assert(chunk@ == decode_utf8(chunk.spec_bytes()));
    }
    (chunk, next)
}

/// Where a chunk starts and ends, in terms of char boundaries alone: it
/// starts at the last char boundary at or below the offset (the end of the
/// text for an offset past it); when the budget reaches past the end of the
/// text it runs to the end, and otherwise it ends at the first char boundary
/// at or after `start + budget`, so it spans at least the budget.
pub proof fn law_chunk_spans_budget(text: &str, offset: nat, budget: nat)
    ensures
        ({
            let bytes = text.spec_bytes();
            let len = bytes.len();
            let at: nat = if offset >= len {
                len
            } else {
                offset
            };
            let start = chunk_start(bytes, offset);
            let end = chunk_end(bytes, offset, budget);
            &&& start <= at
            &&& is_char_boundary(bytes, start as int)
            &&& forall|k: int| start < k <= at ==> !is_char_boundary(bytes, k)
            &&& start + budget >= len ==> end == len
            &&& start + budget < len ==> {
                &&& start + budget <= end <= len
                &&& is_char_boundary(bytes, end as int)
                &&& forall|k: int| start + budget <= k < end ==> !is_char_boundary(bytes, k)
            }
        }),
{
    let bytes = text.spec_bytes();
    lemma_floor_boundary(bytes, clamp_to_len(bytes, offset as int));
    let start = chunk_start(bytes, offset);
    lemma_ceil_boundary(bytes, clamp_to_len(bytes, (start + budget) as int));
}

/// Floor and ceiling leave a char boundary where it is.
pub proof fn law_boundaries_are_fixed_points(text: &str, index: nat)
    requires
        index <= text.spec_bytes().len(),
        is_char_boundary(text.spec_bytes(), index as int),
    ensures
        floor_boundary(text.spec_bytes(), index) == index,
        ceil_boundary(text.spec_bytes(), index) == index,
{
}

/// Floor never exceeds ceiling, and both stay within the text.
pub proof fn law_floor_at_most_ceil(text: &str, index: nat)
    ensures
        floor_boundary(text.spec_bytes(), index) <= ceil_boundary(text.spec_bytes(), index)
            <= text.spec_bytes().len(),
{
    lemma_floor_boundary(text.spec_bytes(), index);
    lemma_ceil_boundary(text.spec_bytes(), index);
}

/// Continuing from the offset that a chunk reports starts the next chunk
/// exactly there: consecutive chunks neither overlap nor leave a gap, so
/// their bytes concatenate to the bytes between the first start and the
/// second end.
pub proof fn law_continuation_is_seamless(text: &str, offset: nat, budget: nat, next_budget: nat)
    requires
        chunk_next(text.spec_bytes(), offset, budget) is Some,
    ensures
        ({
            let bytes = text.spec_bytes();
            let n = chunk_next(bytes, offset, budget)->0;
            &&& n == chunk_end(bytes, offset, budget)
            &&& chunk_start(bytes, n) == n
            &&& bytes.subrange(chunk_start(bytes, offset) as int, n as int) + bytes.subrange(
                n as int,
                chunk_end(bytes, n, next_budget) as int,
            ) == bytes.subrange(
                chunk_start(bytes, offset) as int,
                chunk_end(bytes, n, next_budget) as int,
            )
        }),
{
    let bytes = text.spec_bytes();
    let start = chunk_start(bytes, offset);
    lemma_floor_boundary(bytes, clamp_to_len(bytes, offset as int));
    lemma_ceil_boundary(bytes, clamp_to_len(bytes, (start + budget) as int));
    let n = chunk_end(bytes, offset, budget);
    assert(chunk_start(bytes, n) == n);
    lemma_ceil_boundary(bytes, clamp_to_len(bytes, (n + next_budget) as int));
    assert(bytes.subrange(start as int, n as int) + bytes.subrange(
        n as int,
        chunk_end(bytes, n, next_budget) as int,
    ) =~= bytes.subrange(start as int, chunk_end(bytes, n, next_budget) as int));
}

/// A chunk with a positive budget that does not start at the end of the text
/// is never empty, so chunking from any offset makes progress.
pub proof fn law_chunk_makes_progress(text: &str, offset: nat, budget: nat)
    requires
        budget > 0,
        chunk_start(text.spec_bytes(), offset) < text.spec_bytes().len(),
    ensures
        chunk_end(text.spec_bytes(), offset, budget) > chunk_start(text.spec_bytes(), offset),
{
    let bytes = text.spec_bytes();
    let start = chunk_start(bytes, offset);
    lemma_floor_boundary(bytes, clamp_to_len(bytes, offset as int));
    lemma_ceil_boundary(bytes, clamp_to_len(bytes, (start + budget) as int));
}

/// When the budget covers the rest of the text, the chunk runs to the end and
/// reports no continuation.
pub proof fn law_final_chunk_reaches_end(text: &str, offset: nat, budget: nat)
    requires
        chunk_start(text.spec_bytes(), offset) + budget >= text.spec_bytes().len(),
    ensures
        chunk_end(text.spec_bytes(), offset, budget) == text.spec_bytes().len(),
        chunk_next(text.spec_bytes(), offset, budget) is None,
{
}

/// The bytes that chunking `bytes` from `offset` with `budget`, following
/// each reported continuation until none is reported, yields in order. (The
/// walk also stops if a chunk ever failed to move past its offset.)
pub open spec fn chunks_joined(bytes: Seq<u8>, offset: nat, budget: nat) -> Seq<u8>
    decreases bytes.len() - offset,
{
    let start = chunk_start(bytes, offset);
    let end = chunk_end(bytes, offset, budget);
    if offset < end && end < bytes.len() {
        bytes.subrange(start as int, end as int) + chunks_joined(bytes, end, budget)
    } else {
        bytes.subrange(start as int, end as int)
    }
}

/// From a char boundary, the chunks with a positive budget cover the rest of
/// the text exactly.
proof fn lemma_chunks_cover_rest(text: &str, offset: nat, budget: nat)
    requires
        budget > 0,
        offset <= text.spec_bytes().len(),
        is_char_boundary(text.spec_bytes(), offset as int),
    ensures
        chunks_joined(text.spec_bytes(), offset, budget) == text.spec_bytes().subrange(
            offset as int,
            text.spec_bytes().len() as int,
        ),
    decreases text.spec_bytes().len() - offset,
{
    let bytes = text.spec_bytes();
    let len = bytes.len();
    lemma_floor_boundary(bytes, clamp_to_len(bytes, offset as int));
    let start = chunk_start(bytes, offset);
    assert(start == offset);
    lemma_ceil_boundary(bytes, clamp_to_len(bytes, (start + budget) as int));
    let end = chunk_end(bytes, offset, budget);
    if offset < len {
        law_chunk_makes_progress(text, offset, budget);
    }
    if offset < end && end < len {
        lemma_chunks_cover_rest(text, end, budget);
        assert(bytes.subrange(offset as int, end as int) + bytes.subrange(end as int, len as int)
            =~= bytes.subrange(offset as int, len as int));
    } else {
        assert(end == len);
    }
}

/// Chunking a text from the start with any positive budget, and continuing
/// from each reported offset until none is reported, gives back the whole
/// text: no byte is lost or repeated.
pub proof fn law_chunks_reassemble_text(text: &str, budget: nat)
    requires
        budget > 0,
    ensures
        chunks_joined(text.spec_bytes(), 0, budget) == text.spec_bytes(),
{
    lemma_chunks_cover_rest(text, 0, budget);
    assert(text.spec_bytes().subrange(0, text.spec_bytes().len() as int) =~= text.spec_bytes());
}

/// An offset at or past the end yields an empty chunk at the end and no
/// continuation.
pub proof fn law_offset_past_end_is_empty(text: &str, offset: nat, budget: nat)
    requires
        offset >= text.spec_bytes().len(),
    ensures
        chunk_start(text.spec_bytes(), offset) == text.spec_bytes().len(),
        chunk_end(text.spec_bytes(), offset, budget) == text.spec_bytes().len(),
        chunk_next(text.spec_bytes(), offset, budget) is None,
{
}

} // verus!
