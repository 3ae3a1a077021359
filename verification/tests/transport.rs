use base64::Engine;
use unhosted::transport::{check_known_peer, ed25519_pkcs8_der, extract_ed25519_pubkey, PeerCertError};

fn spki(key: &[u8; 32]) -> Vec<u8> {
    let mut v = vec![0x30, 0x2a, 0x30, 0x05, 0x06, 0x03, 0x2b, 0x65, 0x70, 0x03, 0x21, 0x00];
    v.extend_from_slice(key);
    v
}

fn cert_with(key: &[u8; 32]) -> Vec<u8> {
    // Some leading certificate bytes, then the subject public key info.
    let mut v = vec![0x30, 0x82, 0x01, 0x10, 0x30, 0x81, 0xc3, 0xa0, 0x03, 0x02, 0x01, 0x02];
    // The signature algorithm appears before the key, with no key after it.
    v.extend_from_slice(&[0x30, 0x05, 0x06, 0x03, 0x2b, 0x65, 0x70, 0x30, 0x10]);
    v.extend_from_slice(&spki(key));
    v.extend_from_slice(&[0xa3, 0x02, 0x30, 0x00]);
    v
}

fn public_key(seed: u8) -> [u8; 32] {
    ed25519_dalek::SigningKey::from_bytes(&[seed; 32]).verifying_key().to_bytes()
}

#[test]
fn cert_embeds_correct_pubkey() {
    let pk = public_key(7);
    assert_eq!(extract_ed25519_pubkey(&cert_with(&pk)), Some(pk));
    assert_eq!(extract_ed25519_pubkey(&spki(&pk)), Some(pk));
}

#[test]
fn certificates_without_an_ed25519_key() {
    assert_eq!(extract_ed25519_pubkey(&[]), None);
    assert_eq!(extract_ed25519_pubkey(&[0x06, 0x03, 0x2b, 0x65, 0x70]), None);
    // An RSA-style key after the identifier is not taken.
    let mut v = vec![0x06, 0x03, 0x2b, 0x65, 0x70, 0x03, 0x82, 0x01];
    v.extend_from_slice(&[0u8; 40]);
    assert_eq!(extract_ed25519_pubkey(&v), None);
}

#[test]
fn only_paired_keys_are_trusted() {
    let pk = public_key(9);
    let text = base64::engine::general_purpose::STANDARD_NO_PAD.encode(pk);
    let cert = cert_with(&pk);
    assert_eq!(check_known_peer(&cert, &vec![None, Some(text.clone())]), Ok(()));
    let err = check_known_peer(&cert, &vec![Some("someone-else".into())]).unwrap_err();
    assert_eq!(err, PeerCertError::NotPaired(text.clone()));
    assert_eq!(err.message(), format!("peer cert key {text} is not a paired peer"));
    assert_eq!(check_known_peer(&[1, 2, 3], &vec![]), Err(PeerCertError::NotEd25519));
    assert_eq!(PeerCertError::NotEd25519.message(), "peer cert is not Ed25519 \u{2014} refusing");
}

#[test]
fn pkcs8_wraps_the_secret() {
    let der = ed25519_pkcs8_der(&[5u8; 32]);
    assert_eq!(der.len(), 48);
    assert_eq!(&der[..16], &[0x30, 0x2e, 0x02, 0x01, 0x00, 0x30, 0x05, 0x06, 0x03, 0x2b, 0x65, 0x70, 0x04, 0x22, 0x04, 0x20]);
    assert_eq!(&der[16..], &[5u8; 32]);
}

use unhosted::transport::{is_run_stream, HeaderLine, HeaderStep, MAX_HEADER_BYTES};

#[test]
fn stream_header_lines() {
    let mut h = HeaderLine::new();
    for b in b"{\"kind\":\"run\"}" {
        assert_eq!(h.push(*b), HeaderStep::More);
    }
    assert_eq!(h.push(b'\n'), HeaderStep::Line(b"{\"kind\":\"run\"}".to_vec()));
    assert!(is_run_stream("run"));
    assert!(!is_run_stream("ping"));
}

#[test]
fn header_lines_are_capped() {
    let mut h = HeaderLine::new();
    for _ in 0..MAX_HEADER_BYTES {
        assert_eq!(h.push(b'a'), HeaderStep::More);
    }
    assert_eq!(h.push(b'a'), HeaderStep::TooLong);
}
