use data_analysis::signer::{build_query, push_decimal, sign, sign_request, RECV_WINDOW_MS};
use hmac::{Hmac, Mac};
use sha2::Sha256;

#[test]
fn the_query_names_timestamp_and_window() {
    assert_eq!(build_query(1_761_642_000_123), "timestamp=1761642000123&recvWindow=5000");
    assert_eq!(build_query(0), "timestamp=0&recvWindow=5000");
    assert_eq!(build_query(9), "timestamp=9&recvWindow=5000");
    assert_eq!(build_query(10), "timestamp=10&recvWindow=5000");
    assert_eq!(
        build_query(u128::MAX),
        "timestamp=340282366920938463463374607431768211455&recvWindow=5000"
    );
    assert_eq!(RECV_WINDOW_MS, 5000);
}

#[test]
fn numerals_are_appended() {
    let mut s = String::from("n=");
    push_decimal(&mut s, 1_000_000);
    assert_eq!(s, "n=1000000");
    push_decimal(&mut s, 0);
    assert_eq!(s, "n=10000000");
    push_decimal(&mut s, 907);
    assert_eq!(s, "n=10000000907");
}

#[test]
fn signatures_match_the_published_vectors() {
    assert_eq!(
        sign(b"Jefe", "what do ya want for nothing?").unwrap(),
        "5bdcc146bf60754e6a042426089575c75a003f089d2739839dec58b964ec3843"
    );
    assert_eq!(
        sign(&[0x0b; 20], "Hi There").unwrap(),
        "b0344c61d8db38535ca8afceaf0bf12b881dc200c9833da726e9376c2e32cff7"
    );
    assert_eq!(
        sign(b"my secret and secure key", "input message").unwrap(),
        "97d2a569059bbcd8ead4444ff99071f4c01d005bcefe0d3567e1be628e5fdcd9"
    );
}

#[test]
fn a_key_of_any_length_signs() {
    assert_eq!(sign(b"", "").unwrap().len(), 64);
    assert_eq!(sign(&[0xaa; 131], "x").unwrap().len(), 64);
    assert_eq!(
        sign(
            &[0xaa; 131],
            "Test Using Larger Than Block-Size Key - Hash Key First"
        )
        .unwrap(),
        "60e431591ee0b67f0d8a26aacbf5b77f8e0bc6213728c5140546040f0ee37f54"
    );
}

#[test]
fn signing_twice_gives_the_same_signature() {
    let first = sign(b"secret", "timestamp=1761642000123&recvWindow=5000").unwrap();
    let second = sign(b"secret", "timestamp=1761642000123&recvWindow=5000").unwrap();
    assert_eq!(first, second);
    assert_eq!(first.len(), 64);
    assert!(first.chars().all(|c| c.is_ascii_digit() || ('a'..='f').contains(&c)));
}

#[test]
fn one_changed_byte_changes_the_signature() {
    let base = sign(b"secret", "timestamp=1761642000123&recvWindow=5000").unwrap();
    assert_ne!(base, sign(b"secreT", "timestamp=1761642000123&recvWindow=5000").unwrap());
    assert_ne!(base, sign(b"secret", "timestamp=1761642000124&recvWindow=5000").unwrap());
    assert_ne!(base, sign(b"secret", "timestamp=1761642000123&recvWindow=5001").unwrap());
}

#[test]
fn a_request_is_signed_over_its_own_query() {
    let signed = sign_request(b"secret", 1_761_642_000_123).unwrap();
    assert_eq!(signed.query, "timestamp=1761642000123&recvWindow=5000");
    let mut mac = Hmac::<Sha256>::new_from_slice(b"secret").unwrap();
    mac.update(signed.query.as_bytes());
    assert_eq!(signed.signature, hex::encode(mac.finalize().into_bytes()));
    assert_eq!(signed.signature, sign(b"secret", &signed.query).unwrap());
}

#[test]
fn key_and_message_are_not_exchanged() {
    assert_ne!(sign(b"key", "message").unwrap(), sign(b"message", "key").unwrap());
    let mut mac = Hmac::<Sha256>::new_from_slice(b"key").unwrap();
    mac.update(b"message");
    assert_eq!(sign(b"key", "message").unwrap(), hex::encode(mac.finalize().into_bytes()));
}
