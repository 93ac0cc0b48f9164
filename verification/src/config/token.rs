//! Token generation utilities.

use vstd::prelude::*;

use crate::chars::{lemma_lower_hex_digit_code, lower_hex_digit, lower_hex_digit_char, push_char};

verus! {

/// The lower-case hexadecimal encoding of `bytes`: two digits per byte, high
/// nibble first.
pub open spec fn lower_hex(bytes: Seq<u8>) -> Seq<char>
    decreases bytes.len(),
{
    if bytes.len() == 0 {
        seq![]
    } else {
        lower_hex(bytes.drop_last()) + seq![
            lower_hex_digit((bytes.last() / 16) as nat),
            lower_hex_digit((bytes.last() % 16) as nat),
        ]
    }
}

/// Whether `c` is a lower-case hexadecimal digit.
pub open spec fn is_lower_hex_digit(c: char) -> bool {
    ('0' <= c <= '9') || ('a' <= c <= 'f')
}

/// `getrandom::fill`: fills `buf` from the operating system's
/// cryptographically secure random source, answering whether that succeeded.
/// The bytes are random, so nothing is stated of them beyond the buffer
/// keeping its length.
#[verifier::external_body]
pub(crate) fn fill_random(buf: &mut Vec<u8>) -> (ok: bool)
    ensures
        final(buf)@.len() == old(buf)@.len(),
{
    getrandom::fill(buf.as_mut_slice()).is_ok()
}

/// Render `bytes` as lower-case hex, two digits per byte (`{:02x}`).
pub fn hex_token(bytes: &[u8]) -> (token: String)
    ensures
        token@ == lower_hex(bytes@),
{
    let mut token = String::new();
    let mut i: usize = 0;
    while i < bytes.len()
        invariant
            i <= bytes@.len(),
            token@ == lower_hex(bytes@.take(i as int)),
        decreases bytes@.len() - i,
    {
        let byte = bytes[i];
        push_char(&mut token, lower_hex_digit_char(byte / 16));
        push_char(&mut token, lower_hex_digit_char(byte % 16));
        assert(bytes@.take(i + 1).drop_last() =~= bytes@.take(i as int));
        assert(token@ =~= lower_hex(bytes@.take(i + 1)));
        i += 1;
    }
    assert(bytes@.take(bytes@.len() as int) =~= bytes@);
    token
}

/// Generate a cryptographically random 32-character hex token (128 bits of
/// entropy), backed by the OS CSPRNG, so it is safe to use as an auth secret.
/// `None` when the operating system's random source is unavailable.
pub fn generate_random_token() -> (res: Option<String>)
    ensures
        res matches Some(token) ==> {
            &&& exists|bytes: Seq<u8>| bytes.len() == 16 && token@ == lower_hex(bytes)
            &&& token@.len() == 32
            &&& forall|i: int| 0 <= i < token@.len() ==> is_lower_hex_digit(#[trigger] token@[i])
        },
{
    let mut bytes: Vec<u8> = vec![0u8; 16];
    if !fill_random(&mut bytes) {
        return None;
    }
    let token = hex_token(bytes.as_slice());
    proof {
        law_hex_shape(bytes@);
    }
    Some(token)
}

/// Hex rendering doubles the length and yields only lower-case hex digits.
pub proof fn law_hex_shape(bytes: Seq<u8>)
    ensures
        lower_hex(bytes).len() == 2 * bytes.len(),
        forall|i: int|
            0 <= i < lower_hex(bytes).len() ==> is_lower_hex_digit(#[trigger] lower_hex(bytes)[i]),
    decreases bytes.len(),
{
    if bytes.len() > 0 {
        law_hex_shape(bytes.drop_last());
        let hi = (bytes.last() / 16) as nat;
        let lo = (bytes.last() % 16) as nat;
        lemma_digit_is_hex(hi);
        lemma_digit_is_hex(lo);
        let rest = lower_hex(bytes.drop_last());
        assert forall|i: int| 0 <= i < lower_hex(bytes).len() implies is_lower_hex_digit(
            #[trigger] lower_hex(bytes)[i],
        ) by {
            if i < rest.len() {
                assert(lower_hex(bytes)[i] == rest[i]);
            }
        }
    }
}

/// Distinct byte strings render as distinct tokens: the hex rendering loses
/// nothing.
pub proof fn law_hex_injective(a: Seq<u8>, b: Seq<u8>)
    requires
        lower_hex(a) == lower_hex(b),
    ensures
        a == b,
    decreases a.len(),
{
    law_hex_shape(a);
    law_hex_shape(b);
    if a.len() > 0 {
        let ra = lower_hex(a.drop_last());
        let rb = lower_hex(b.drop_last());
        law_hex_shape(a.drop_last());
        law_hex_shape(b.drop_last());
        assert(lower_hex(a)[ra.len() as int] == lower_hex(b)[rb.len() as int]);
        assert(lower_hex(a)[ra.len() as int + 1] == lower_hex(b)[rb.len() as int + 1]);
        lemma_lower_hex_digit_code((a.last() / 16) as nat);
        lemma_lower_hex_digit_code((a.last() % 16) as nat);
        lemma_lower_hex_digit_code((b.last() / 16) as nat);
        lemma_lower_hex_digit_code((b.last() % 16) as nat);
        assert(a.last() / 16 == b.last() / 16);
        assert(a.last() % 16 == b.last() % 16);
        assert(a.last() == b.last());
        assert(ra =~= lower_hex(a).subrange(0, ra.len() as int));
        assert(rb =~= lower_hex(b).subrange(0, rb.len() as int));
        law_hex_injective(a.drop_last(), b.drop_last());
        assert(a =~= a.drop_last().push(a.last()));
        assert(b =~= b.drop_last().push(b.last()));
    }
}

/// Every value below 16 renders as a lower-case hex digit.
proof fn lemma_digit_is_hex(d: nat)
    requires
        d < 16,
    ensures
        is_lower_hex_digit(lower_hex_digit(d)),
{
    lemma_lower_hex_digit_code(d);
}

} // verus!
