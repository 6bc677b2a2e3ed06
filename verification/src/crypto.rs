//! The keyed hash and the hex encoding that a signature is made of. Both are
//! computed by outside crates; this file states what the library relies on.

use vstd::prelude::*;
use hmac::digest::InvalidLength;
use hmac::{Hmac, Mac};
use sha2::Sha256;

verus! {

/// The error with which `hmac` refuses a key that it cannot be set up with.
#[verifier::external_type_specification]
#[verifier::external_body]
pub struct ExInvalidLength(hmac::digest::InvalidLength);

/// How many bytes an HMAC-SHA256 code has.
pub const MAC_LEN: usize = 32;

/// The HMAC-SHA256 code of `message` under `key`, as `hmac` and `sha2`
/// compute it.
pub uninterp spec fn hmac_sha256(key: Seq<u8>, message: Seq<u8>) -> Seq<u8>;

/// Computes the HMAC-SHA256 code of `message` under `key` with
/// `Hmac::<Sha256>::new_from_slice`, `update` and `finalize`. The code is a
/// function of key and message alone and is [`MAC_LEN`] bytes long. `hmac`
/// pads or hashes a key of any length to the block size, so the set-up
/// succeeds for every key.
#[verifier::external_body]
pub(crate) fn keyed_hash(key: &[u8], message: &[u8]) -> (r: Result<Vec<u8>, InvalidLength>)
    ensures
        r is Ok,
        r matches Ok(code) ==> code@ == hmac_sha256(key@, message@) && code@.len() == MAC_LEN,
{
    let mut mac = Hmac::<Sha256>::new_from_slice(key)?;
    mac.update(message);
    Ok(mac.finalize().into_bytes().to_vec())
}

/// The sixteen hex digits, lowercase.
pub open spec fn hex_digits() -> Seq<char> {
    seq!['0', '1', '2', '3', '4', '5', '6', '7', '8', '9', 'a', 'b', 'c', 'd', 'e', 'f']
}

/// The lowercase hex numeral of `bytes`: for each byte the digit of its high
/// half, then the digit of its low half.
pub open spec fn hex_text(bytes: Seq<u8>) -> Seq<char> {
    Seq::new(
        2 * bytes.len(),
        |i: int|
            if i % 2 == 0 {
                hex_digits()[bytes[i / 2] as int / 16]
            } else {
                hex_digits()[bytes[i / 2] as int % 16]
            },
    )
}

/// Encodes `bytes` with `hex::encode`: two lowercase hex digits for each
/// byte, the high half first.
#[verifier::external_body]
pub(crate) fn hex_encode(bytes: &[u8]) -> (r: String)
    ensures
        r@ == hex_text(bytes@),
{
    hex::encode(bytes)
}

/// Different bytes have different hex numerals.
pub proof fn lemma_hex_text_injective(a: Seq<u8>, b: Seq<u8>)
    requires
        hex_text(a) == hex_text(b),
    ensures
        a == b,
{
    assert(hex_text(a).len() == 2 * a.len());
    assert(hex_text(b).len() == 2 * b.len());
    assert forall|k: int| 0 <= k < a.len() implies a[k] == b[k] by {
        let x = a[k] as int;
        let y = b[k] as int;
        assert(hex_text(a)[2 * k] == hex_digits()[x / 16]);
        assert(hex_text(b)[2 * k] == hex_digits()[y / 16]);
        assert(hex_text(a)[2 * k + 1] == hex_digits()[x % 16]);
        assert(hex_text(b)[2 * k + 1] == hex_digits()[y % 16]);
        lemma_hex_digit_injective(x / 16, y / 16);
        lemma_hex_digit_injective(x % 16, y % 16);
    }
    assert(a =~= b);
}

/// Different numbers below sixteen have different hex digits.
pub proof fn lemma_hex_digit_injective(m: int, n: int)
    requires
        0 <= m < 16,
        0 <= n < 16,
        hex_digits()[m] == hex_digits()[n],
    ensures
        m == n,
{
}

} // verus!
