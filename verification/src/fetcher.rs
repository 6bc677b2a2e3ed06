//! The authenticated request for the account's balances, and what to make of
//! the answer. The library says what is to be sent; sending it is the
//! caller's part.

use vstd::prelude::*;
use crate::signer::{query_text, sign_request, signature_text, SignError, SignedQuery};

verus! {

/// Where the balances of the account are asked for.
pub const ACCOUNT_ENDPOINT: &'static str = "https://api.binance.com/api/v3/account";

/// The header that carries the API key.
pub const API_KEY_HEADER: &'static str = "X-MBX-APIKEY";

/// The text of the address at which the balances are asked for with `query`
/// signed by `signature`.
pub open spec fn account_url_text(query: Seq<char>, signature: Seq<char>) -> Seq<char> {
    ACCOUNT_ENDPOINT@ + "?"@ + query + "&signature="@ + signature
}

/// A `GET` request for the balances of the account. The API key travels in a
/// header, never in the address.
#[derive(Debug)]
pub struct AccountRequest {
    pub url: String,
    pub header_name: String,
    pub header_value: String,
}

/// Why no balances came back.
#[derive(Debug)]
pub enum FetchError {
    /// The exchange answered with a status other than success; `body` is
    /// what it said, unchanged.
    Status { code: u16, body: String },
}

/// The address at which the balances are asked for with the signed query.
pub fn account_url(signed: &SignedQuery) -> (url: String)
    ensures
        url@ == account_url_text(signed.query@, signed.signature@),
{
    let mut url = String::from_str(ACCOUNT_ENDPOINT);
    url.append("?");
    url.append(signed.query.as_str());
    url.append("&signature=");
    url.append(signed.signature.as_str());
    url
}

/// The request for the balances of the account of `api_key`, signed with
/// `secret` at `timestamp_ms` milliseconds after the epoch.
pub fn account_request(
    api_key: &str,
    secret: &[u8],
    timestamp_ms: u128,
) -> (r: Result<AccountRequest, SignError>)
    ensures
        r is Ok,
        r matches Ok(request) ==> request.url@ == account_url_text(
            query_text(timestamp_ms as nat),
            signature_text(secret@, query_text(timestamp_ms as nat)),
        ),
        r matches Ok(request) ==> request.header_name@ == API_KEY_HEADER@,
        r matches Ok(request) ==> request.header_value@ == api_key@,
{
    match sign_request(secret, timestamp_ms) {
        Ok(signed) => Ok(
            AccountRequest {
                url: account_url(&signed),
                header_name: String::from_str(API_KEY_HEADER),
                header_value: String::from_str(api_key),
            },
        ),
        Err(e) => Err(e),
    }
}

/// `code` is an HTTP status of success: one of `200` to `299`.
pub open spec fn is_success(code: u16) -> bool {
    200 <= code < 300
}

/// Hands on the body of an answer of success, and turns any other answer
/// into the error that carries its status and its body.
pub fn read_response(code: u16, body: String) -> (r: Result<String, FetchError>)
    ensures
        is_success(code) ==> r == Ok::<String, FetchError>(body),
        !is_success(code) ==> r == Err::<String, FetchError>((FetchError::Status { code, body })),
{
    if 200 <= code && code < 300 {
        Ok(body)
    } else {
        Err(FetchError::Status { code, body })
    }
}

} // verus!
