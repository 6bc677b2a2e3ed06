use data_analysis::fetcher::{
    account_request, account_url, read_response, FetchError, ACCOUNT_ENDPOINT, API_KEY_HEADER,
};
use data_analysis::signer::{sign, SignedQuery};

#[test]
fn the_address_carries_query_and_signature() {
    let signed = SignedQuery {
        query: "timestamp=1&recvWindow=5000".to_string(),
        signature: "abcdef".to_string(),
    };
    assert_eq!(
        account_url(&signed),
        "https://api.binance.com/api/v3/account?timestamp=1&recvWindow=5000&signature=abcdef"
    );
    assert_eq!(ACCOUNT_ENDPOINT, "https://api.binance.com/api/v3/account");
}

#[test]
fn the_key_travels_in_the_header() {
    let request = account_request("my-api-key", b"secret", 1_761_642_000_123).unwrap();
    let signature = sign(b"secret", "timestamp=1761642000123&recvWindow=5000").unwrap();
    assert_eq!(
        request.url,
        format!(
            "https://api.binance.com/api/v3/account?timestamp=1761642000123&recvWindow=5000&signature={}",
            signature
        )
    );
    assert_eq!(request.header_name, "X-MBX-APIKEY");
    assert_eq!(request.header_name, API_KEY_HEADER);
    assert_eq!(request.header_value, "my-api-key");
    assert!(!request.url.contains("my-api-key"));
}

#[test]
fn success_hands_on_the_body() {
    for code in [200u16, 201, 204, 299] {
        match read_response(code, "{\"balances\":[]}".to_string()) {
            Ok(body) => assert_eq!(body, "{\"balances\":[]}"),
            Err(_) => panic!("status {} is success", code),
        }
    }
}

#[test]
fn any_other_status_is_an_error_with_code_and_body() {
    for code in [0u16, 100, 199, 300, 301, 400, 401, 404, 418, 429, 500, 503, 65535] {
        match read_response(code, "{\"code\":-2015,\"msg\":\"Invalid API-key\"}".to_string()) {
            Ok(_) => panic!("status {} is no success", code),
            Err(FetchError::Status { code: seen, body }) => {
                assert_eq!(seen, code);
                assert_eq!(body, "{\"code\":-2015,\"msg\":\"Invalid API-key\"}");
            }
        }
    }
}
