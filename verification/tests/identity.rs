use unhosted::identity::Identity;

#[test]
fn sign_and_verify_roundtrip() {
    let id = Identity::generate();
    let msg = b"hello world";
    let sig = id.sign(msg);
    assert!(Identity::verify(&id.public_b64(), msg, &sig));
    assert!(!Identity::verify(&id.public_b64(), b"different", &sig));
    // Reloading from the stored secret gives the same key.
    let id2 = Identity::from_secret_b64(&id.secret_b64()).unwrap();
    assert_eq!(id.public_b64(), id2.public_b64());
    assert_eq!(id.secret_bytes(), id2.secret_bytes());
}

#[test]
fn known_secret_has_known_public_key() {
    // RFC 8032 test vector 1.
    let secret: [u8; 32] = [
        0x9d, 0x61, 0xb1, 0x9d, 0xef, 0xfd, 0x5a, 0x60, 0xba, 0x84, 0x4a, 0xf4, 0x92, 0xec, 0x2c, 0xc4,
        0x44, 0x49, 0xc5, 0x69, 0x7b, 0x32, 0x69, 0x19, 0x70, 0x3b, 0xac, 0x03, 0x1c, 0xae, 0x7f, 0x60,
    ];
    let id = Identity::from_secret(secret);
    assert_eq!(id.public_b64(), "11qYAYKxCrfVS/7TyWQHOg7hcvPapiMlrwIaaPcHURo");
}

#[test]
fn signed_request_round_trips_within_window() {
    let id = Identity::generate();
    let h = id.sign_request_at(b"{}", 5_000);
    assert_eq!(Identity::verify_request_at(&h, b"{}", Some(5_300)), Some(id.public_b64()));
    assert_eq!(Identity::verify_request_at(&h, b"{}", Some(4_700)), Some(id.public_b64()));
    assert_eq!(Identity::verify_request_at(&h, b"{}", Some(5_301)), None);
    assert_eq!(Identity::verify_request_at(&h, b"{}", None), None);
    assert_eq!(Identity::verify_request_at(&h, b"{ }", Some(5_000)), None);
    let now_signed = id.sign_request(b"x");
    assert_eq!(Identity::verify_request(&now_signed, b"x"), Some(id.public_b64()));
}

#[test]
fn malformed_headers_are_refused() {
    assert_eq!(Identity::verify_request_at("nocolons", b"", Some(0)), None);
    assert_eq!(Identity::verify_request_at("a:b", b"", Some(0)), None);
    assert_eq!(Identity::verify_request_at("a:notanumber:c", b"", Some(0)), None);
    assert_eq!(Identity::verify_request_at("a:0:c", b"", Some(0)), None);
    assert!(Identity::from_secret_b64("AAAA").is_none());
    assert!(Identity::from_secret_b64("!!").is_none());
}
