//! Small verified helpers for working with the characters of strings.

use vstd::prelude::*;
use vstd::std_specs::iter::IteratorSpec;

verus! {

/// `String::push`: appends one character to the end of the string.
#[verifier::external_body]
pub(crate) fn push_char(s: &mut String, c: char)
    ensures
        final(s)@ == old(s)@.push(c),
{
    s.push(c);
}

/// The characters of `s`, in order.
pub fn chars_of(s: &str) -> (v: Vec<char>)
    ensures
        v@ == s@,
{
    let mut v: Vec<char> = Vec::new();
    let mut it = s.chars();
    for c in iter: it
        invariant
            iter.seq() == s@,
            v@ == s@.take(iter.index() as int),
    {
        v.push(c);
    }
    v
}

/// The string made of the characters of `v` from index `from` on.
pub fn string_from_chars(v: &Vec<char>, from: usize) -> (res: String)
    requires
        from <= v@.len(),
    ensures
        res@ == v@.skip(from as int),
{
    let mut res = String::new();
    let mut i = from;
    while i < v.len()
        invariant
            from <= i <= v@.len(),
            res@ == v@.subrange(from as int, i as int),
        decreases v@.len() - i,
    {
        push_char(&mut res, v[i]);
        i += 1;
        assert(res@ =~= v@.subrange(from as int, i as int));
    }
    assert(v@.subrange(from as int, v@.len() as int) =~= v@.skip(from as int));
    res
}

/// Whether two strings hold the same characters.
pub fn same_text(a: &str, b: &str) -> (res: bool)
    ensures
        res == (a@ == b@),
{
    let av = chars_of(a);
    let bv = chars_of(b);
    if av.len() != bv.len() {
        return false;
    }
    let mut i: usize = 0;
    while i < av.len()
        invariant
            av@ == a@,
            bv@ == b@,
            av@.len() == bv@.len(),
            i <= av@.len(),
            forall|j: int| 0 <= j < i ==> av@[j] == bv@[j],
        decreases av@.len() - i,
    {
        if av[i] != bv[i] {
            return false;
        }
        i += 1;
    }
    assert(av@ =~= bv@);
    true
}

/// Whether `needle` occurs in `haystack` at character position `at`.
pub open spec fn occurs_at(haystack: Seq<char>, needle: Seq<char>, at: int) -> bool {
    0 <= at && at + needle.len() <= haystack.len() && haystack.subrange(at, at + needle.len())
        == needle
}

/// Whether `needle` occurs somewhere in `haystack`.
pub open spec fn has_substring(haystack: Seq<char>, needle: Seq<char>) -> bool {
    exists|at: int| occurs_at(haystack, needle, at)
}

/// `str::contains` for a string pattern: whether `needle` occurs in
/// `haystack`.
pub fn contains_text(haystack: &str, needle: &str) -> (res: bool)
    ensures
        res == has_substring(haystack@, needle@),
{
    let h = chars_of(haystack);
    let n = chars_of(needle);
    if n.len() > h.len() {
        assert forall|at: int| !occurs_at(haystack@, needle@, at) by {}
        return false;
    }
    let hl = h.len();
    let last = hl - n.len();
    let mut at: usize = 0;
    while at <= last
        invariant
            h@ == haystack@,
            n@ == needle@,
            last == h@.len() - n@.len(),
            n@.len() <= h@.len(),
            hl == h@.len(),
            at <= last,
            forall|k: int| 0 <= k < at ==> !occurs_at(haystack@, needle@, k),
        ensures
            forall|k: int| 0 <= k <= last ==> !occurs_at(haystack@, needle@, k),
        decreases last - at,
    {
        let mut j: usize = 0;
        let mut matched = true;
        while j < n.len()
            invariant
                h@ == haystack@,
                n@ == needle@,
                at <= last,
                last == h@.len() - n@.len(),
                hl == h@.len(),
                j <= n@.len(),
                matched ==> forall|q: int| 0 <= q < j ==> h@[at + q] == n@[q],
                !matched ==> !occurs_at(haystack@, needle@, at as int),
            decreases n@.len() - j,
        {
            if h[at + j] != n[j] {
                matched = false;
                assert(h@.subrange(at as int, at + n@.len())[j as int] == h@[at + j]);
            }
            j += 1;
        }
        if matched {
            assert(h@.subrange(at as int, at + n@.len()) =~= n@);
            assert(occurs_at(haystack@, needle@, at as int));
            return true;
        }
        if at == last {
            break;
        }
        at += 1;
    }
    assert forall|k: int| !occurs_at(haystack@, needle@, k) by {
        if 0 <= k && k + needle@.len() <= haystack@.len() {
            assert(k <= last);
        }
    }
    false
}

/// The decimal digit character for `d` (`0`..`9`).
pub open spec fn decimal_digit(d: nat) -> char {
    (48 + d) as char
}

/// The lower-case hexadecimal digit character for `d` (`0`..`9`, `a`..`f`).
pub open spec fn lower_hex_digit(d: nat) -> char {
    if d < 10 {
        (48 + d) as char
    } else {
        (87 + d) as char
    }
}

/// The code point of the decimal digit character for a value below 10.
pub proof fn lemma_decimal_digit_code(d: nat)
    requires
        d < 10,
    ensures
        decimal_digit(d) as u32 == 48 + d,
{
    assert((48 + d) as u32 as char == (48 + d) as char);
}

/// The code point of the lower-case hex digit character for a value below
/// 16: `48 + d` for the digits `0`..`9`, `87 + d` for `a`..`f`.
pub proof fn lemma_lower_hex_digit_code(d: nat)
    requires
        d < 16,
    ensures
        lower_hex_digit(d) as u32 == if d < 10 {
            48 + d
        } else {
            87 + d
        },
{
    if d < 10 {
        assert((48 + d) as u32 as char == (48 + d) as char);
    } else {
        assert((87 + d) as u32 as char == (87 + d) as char);
    }
}

/// The lower-case hexadecimal digit character for a value below 16.
pub fn lower_hex_digit_char(d: u8) -> (c: char)
    requires
        d < 16,
    ensures
        c == lower_hex_digit(d as nat),
{
    if d < 10 {
        (48 + d) as char
    } else {
        (87 + d) as char
    }
}

/// The decimal digit character for a value below 10.
pub fn decimal_digit_char(d: u8) -> (c: char)
    requires
        d < 10,
    ensures
        c == decimal_digit(d as nat),
{
    (48 + d) as char
}

} // verus!
