//! Signing a request to a private endpoint of the exchange: the query that
//! is signed, and its signature.

use vstd::prelude::*;
use vstd::utf8::encode_utf8;
use crate::crypto::{hex_encode, hex_text, hmac_sha256, keyed_hash, lemma_hex_text_injective};

verus! {

/// For how many milliseconds after its timestamp the exchange accepts a
/// signed request.
pub const RECV_WINDOW_MS: u64 = 5000;

/// The digit that stands for `d`.
pub open spec fn digit_char(d: nat) -> char {
    (('0' as u8 + d) as u8) as char
}

/// The decimal numeral of `n`, without leading zeros.
pub open spec fn decimal_text(n: nat) -> Seq<char>
    decreases n,
{
    if n < 10 {
        seq![digit_char(n)]
    } else {
        decimal_text(n / 10).push(digit_char(n % 10))
    }
}

/// The query that is signed for a request made at `timestamp_ms`
/// milliseconds after the epoch.
pub open spec fn query_text(timestamp_ms: nat) -> Seq<char> {
    "timestamp="@ + decimal_text(timestamp_ms) + "&recvWindow="@ + decimal_text(
        RECV_WINDOW_MS as nat,
    )
}

/// The signature of `query` under `secret`: the HMAC-SHA256 code of the
/// bytes of the query, in lowercase hex.
pub open spec fn signature_text(secret: Seq<u8>, query: Seq<char>) -> Seq<char> {
    hex_text(hmac_sha256(secret, encode_utf8(query)))
}

/// A query together with its signature.
#[derive(Debug)]
pub struct SignedQuery {
    pub query: String,
    pub signature: String,
}

/// Why a query could not be signed.
#[derive(Debug, PartialEq, Eq, Structural, Clone, Copy)]
pub enum SignError {
    /// The keyed hash could not be set up with the secret.
    InvalidKey,
}

/// Appends the decimal numeral of `n` to `s`.
pub fn push_decimal(s: &mut String, n: u128)
    ensures
        final(s)@ == old(s)@ + decimal_text(n as nat),
    decreases n,
{
    if n >= 10 {
        push_decimal(s, n / 10);
    }
    let d: u8 = (n % 10) as u8;
    s.push((48u8 + d) as char);
}

/// The query that is signed for a request made at `timestamp_ms`
/// milliseconds after the epoch: `timestamp=<ms>&recvWindow=<window>`.
pub fn build_query(timestamp_ms: u128) -> (query: String)
    ensures
        query@ == query_text(timestamp_ms as nat),
{
    let mut query = String::from_str("timestamp=");
    push_decimal(&mut query, timestamp_ms);
    query.append("&recvWindow=");
    push_decimal(&mut query, RECV_WINDOW_MS as u128);
    query
}

/// Signs `query` with `secret`.
pub fn sign(secret: &[u8], query: &str) -> (r: Result<String, SignError>)
    ensures
        r is Ok,
        r matches Ok(signature) ==> signature@ == signature_text(secret@, query@),
{
    match keyed_hash(secret, query.as_bytes()) {
        Ok(code) => Ok(hex_encode(code.as_slice())),
        Err(_) => Err(SignError::InvalidKey),
    }
}

/// The signed query of a request made with `secret` at `timestamp_ms`
/// milliseconds after the epoch.
pub fn sign_request(secret: &[u8], timestamp_ms: u128) -> (r: Result<SignedQuery, SignError>)
    ensures
        r is Ok,
        r matches Ok(signed) ==> signed.query@ == query_text(timestamp_ms as nat),
        r matches Ok(signed) ==> signed.signature@ == signature_text(
            secret@,
            query_text(timestamp_ms as nat),
        ),
{
    let query = build_query(timestamp_ms);
    match sign(secret, query.as_str()) {
        Ok(signature) => Ok(SignedQuery { query, signature }),
        Err(e) => Err(e),
    }
}

/// The same query under the same secret has the same signature.
pub proof fn lemma_signature_deterministic(
    secret_a: Seq<u8>,
    query_a: Seq<char>,
    secret_b: Seq<u8>,
    query_b: Seq<char>,
)
    requires
        secret_a == secret_b,
        query_a == query_b,
    ensures
        signature_text(secret_a, query_a) == signature_text(secret_b, query_b),
{
}

/// Two signatures are the same only where the keyed hash gives the same
/// code: the hex encoding loses nothing.
pub proof fn lemma_signatures_differ_with_codes(
    secret_a: Seq<u8>,
    query_a: Seq<char>,
    secret_b: Seq<u8>,
    query_b: Seq<char>,
)
    ensures
        signature_text(secret_a, query_a) == signature_text(secret_b, query_b) <==> hmac_sha256(
            secret_a,
            encode_utf8(query_a),
        ) == hmac_sha256(secret_b, encode_utf8(query_b)),
{
    if signature_text(secret_a, query_a) == signature_text(secret_b, query_b) {
        lemma_hex_text_injective(
            hmac_sha256(secret_a, encode_utf8(query_a)),
            hmac_sha256(secret_b, encode_utf8(query_b)),
        );
    }
}

} // verus!
