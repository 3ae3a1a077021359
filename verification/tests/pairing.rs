use unhosted::pairing::{
    normalize_code, offer_relay, pair_offer, reachability, read_confirmation, relay_pair_key,
    ConfirmationError, PairingTokens, PAIRING_TOKEN_TTL_NS,
};
use unhosted::relay_client::RelayState;

const SEC: u64 = 1_000_000_000;

#[test]
fn a_token_is_accepted_once() {
    let mut t = PairingTokens::new();
    t.issue("tok".into(), 10 * SEC);
    assert!(t.consume("tok", 20 * SEC));
    assert!(!t.consume("tok", 21 * SEC));
}

#[test]
fn tokens_expire_after_five_minutes() {
    let mut t = PairingTokens::new();
    t.issue("a".into(), 0);
    t.issue("b".into(), 0);
    assert!(t.consume("a", PAIRING_TOKEN_TTL_NS - 1));
    assert!(!t.consume("b", PAIRING_TOKEN_TTL_NS));
    assert_eq!(PAIRING_TOKEN_TTL_NS, 300 * SEC);
}

#[test]
fn unknown_tokens_are_refused_and_others_survive() {
    let mut t = PairingTokens::new();
    t.issue("a".into(), SEC);
    t.issue("b".into(), 2 * SEC);
    assert!(!t.consume("zzz", 3 * SEC));
    assert!(t.consume("b", 4 * SEC));
    assert!(t.consume("a", 5 * SEC));
}

#[test]
fn reissuing_restarts_the_clock() {
    let mut t = PairingTokens::new();
    t.issue("a".into(), 0);
    t.issue("a".into(), 200 * SEC);
    assert!(t.consume("a", 400 * SEC));
}

#[test]
fn offers_with_and_without_a_relay() {
    assert_eq!(
        pair_offer("10.0.0.2:7777", "ab+/=", None, "TOK"),
        "unhosted://pair?addr=10.0.0.2:7777&pk=ab%2B%2F%3D&token=TOK"
    );
    assert_eq!(
        pair_offer("10.0.0.2:7777", "k", Some("wss://r.example/ws"), "T"),
        "unhosted://pair?addr=10.0.0.2:7777&pk=k&relay=wss%3A%2F%2Fr.example%2Fws&token=T"
    );
}

#[test]
fn offers_name_the_relay_only_when_registered() {
    let url = Some("wss://r".to_string());
    assert_eq!(offer_relay(&RelayState::Registered, url.clone()), url);
    assert_eq!(offer_relay(&RelayState::Connecting, url.clone()), None);
    assert_eq!(reachability(true, true), "relay");
    assert_eq!(reachability(false, true), "loopback_only");
    assert_eq!(reachability(false, false), "lan");
}

#[test]
fn short_codes_are_trimmed_and_upper_cased() {
    assert_eq!(normalize_code("  abCd \n"), Some("ABCD".to_string()));
    assert_eq!(normalize_code("   "), None);
}

#[test]
fn confirmations_need_key_and_address() {
    let c = read_confirmation(None, Some("pk".into()), Some("1.2.3.4:5".into())).unwrap();
    assert_eq!((c.name.as_str(), c.pubkey.as_str(), c.addr.as_str()), ("(unknown)", "pk", "1.2.3.4:5"));
    assert_eq!(
        read_confirmation(Some("n".into()), None, None).unwrap_err(),
        ConfirmationError::MissingPubkey
    );
    assert_eq!(
        read_confirmation(Some("n".into()), Some("pk".into()), None).unwrap_err(),
        ConfirmationError::MissingAddr
    );
    assert_eq!(ConfirmationError::MissingAddr.message(), "offerer omitted addr");
}

#[test]
fn relay_fallback_needs_the_same_registered_relay() {
    let pk = Some("PK".to_string());
    let r = Some("wss://r".to_string());
    let other = Some("wss://other".to_string());
    assert_eq!(relay_pair_key(&pk, &r, &r, &RelayState::Registered), Some("PK".to_string()));
    assert_eq!(relay_pair_key(&pk, &r, &other, &RelayState::Registered), None);
    assert_eq!(relay_pair_key(&pk, &r, &r, &RelayState::Connecting), None);
    assert_eq!(relay_pair_key(&None, &r, &r, &RelayState::Registered), None);
}
