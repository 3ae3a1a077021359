use std::time::Duration;
use unhosted::auth::{
    classify_at, AuthHeaders, AuthOutcome, LocalToken, ReplayGuard,
};
use unhosted::identity::Identity;

#[test]
fn replay_guard_rejects_duplicate() {
    let mut g = ReplayGuard::new();
    let window = Duration::from_secs(60);
    let window_ms = window.as_millis() as u64;
    assert!(g.record("pk", 100, "sig", window_ms));
    assert!(!g.record("pk", 100, "sig", window_ms));
    assert!(g.record("pk", 101, "sig", window_ms));
    assert!(g.record("pk2", 100, "sig", window_ms));
}

#[test]
fn replay_guard_forgets_after_the_window() {
    let mut g = ReplayGuard::new();
    assert!(g.record_at(1_000, "pk", 1, "sig", 500));
    assert!(!g.record_at(1_400, "pk", 1, "sig", 500));
    assert!(g.record_at(1_500, "pk", 1, "sig", 500));
    assert_eq!(g.seen.len(), 1);
}

#[test]
fn replay_key_uses_only_the_signature_prefix() {
    let mut g = ReplayGuard::new();
    assert!(g.record_at(0, "pk", 1, "0123456789abcdefXXXX", 10));
    // Same first 16 bytes: same key.
    assert!(!g.record_at(1, "pk", 1, "0123456789abcdefYYYY", 10));
}

#[test]
fn local_token_check_constant_time_correctness() {
    let t = LocalToken::generate();
    assert!(t.check(t.value()));
    assert!(!t.check(""));
    assert!(!t.check("nope"));
    assert_eq!(t.value().len(), 43);
}

#[test]
fn stored_token_is_trimmed() {
    let t = LocalToken::from_stored("  abc\n").unwrap();
    assert_eq!(t.value(), "abc");
    assert!(LocalToken::from_stored(" \n\t").is_none());
}

#[test]
fn outcomes_classify_local_users_and_authed_callers() {
    assert!(AuthOutcome::Peer("pk".into()).is_authed());
    assert!(AuthOutcome::Local.is_authed());
    assert!(!AuthOutcome::LoopbackUnauthed.is_authed());
    assert!(AuthOutcome::LoopbackUnauthed.is_local_user());
    assert!(AuthOutcome::Local.is_local_user());
    assert!(!AuthOutcome::Peer("pk".into()).is_local_user());
    assert!(!AuthOutcome::Missing.is_authed());
    assert!(!AuthOutcome::Rejected("x").is_local_user());
}

fn outcome_label(o: &AuthOutcome) -> String {
    match o {
        AuthOutcome::Peer(pk) => format!("peer:{pk}"),
        AuthOutcome::Local => "local".into(),
        AuthOutcome::LoopbackUnauthed => "loopback".into(),
        AuthOutcome::Rejected(why) => format!("rejected:{why}"),
        AuthOutcome::Missing => "missing".into(),
    }
}

#[test]
fn classify_follows_header_then_bearer_then_address() {
    let token = LocalToken::from_stored("tok").unwrap();
    let mut replay = ReplayGuard::new();
    let none = AuthHeaders { auth: None, bearer: None };
    let peers: Vec<Option<String>> = vec![];
    let o = classify_at(&none, Some(true), b"", &peers, &token, &mut replay, Some(0), 0);
    assert_eq!(outcome_label(&o), "loopback");
    let o = classify_at(&none, Some(false), b"", &peers, &token, &mut replay, Some(0), 0);
    assert_eq!(outcome_label(&o), "missing");
    let o = classify_at(&none, None, b"", &peers, &token, &mut replay, Some(0), 0);
    assert_eq!(outcome_label(&o), "missing");

    let bearer = AuthHeaders { auth: None, bearer: Some(Some("Bearer tok".into())) };
    let o = classify_at(&bearer, Some(false), b"", &peers, &token, &mut replay, Some(0), 0);
    assert_eq!(outcome_label(&o), "local");
    let lower = AuthHeaders { auth: None, bearer: Some(Some("bearer tok".into())) };
    let o = classify_at(&lower, Some(false), b"", &peers, &token, &mut replay, Some(0), 0);
    assert_eq!(outcome_label(&o), "local");
    let bad = AuthHeaders { auth: None, bearer: Some(Some("Bearer nope".into())) };
    let o = classify_at(&bad, Some(true), b"", &peers, &token, &mut replay, Some(0), 0);
    assert_eq!(outcome_label(&o), "rejected:bad bearer token");
    let garbled = AuthHeaders { auth: None, bearer: Some(None) };
    let o = classify_at(&garbled, Some(true), b"", &peers, &token, &mut replay, Some(0), 0);
    assert_eq!(outcome_label(&o), "rejected:malformed bearer header");
}

#[test]
fn classify_signed_requests() {
    let token = LocalToken::from_stored("tok").unwrap();
    let mut replay = ReplayGuard::new();
    let id = Identity::generate();
    let pk = id.public_b64();
    let header = id.sign_request_at(b"body", 1_000);
    let peers = vec![None, Some(pk.clone())];
    let signed = AuthHeaders { auth: Some(Some(header.clone())), bearer: None };

    let o = classify_at(&signed, Some(false), b"body", &peers, &token, &mut replay, Some(1_100), 5);
    assert_eq!(outcome_label(&o), format!("peer:{pk}"));
    let o = classify_at(&signed, Some(false), b"body", &peers, &token, &mut replay, Some(1_100), 6);
    assert_eq!(outcome_label(&o), "rejected:replay detected");
    let o = classify_at(&signed, Some(false), b"other", &peers, &token, &mut replay, Some(1_100), 7);
    assert_eq!(outcome_label(&o), "rejected:signature invalid or expired");
    let o = classify_at(&signed, Some(false), b"body", &peers, &token, &mut replay, Some(1_301), 8);
    assert_eq!(outcome_label(&o), "rejected:signature invalid or expired");

    let mut fresh = ReplayGuard::new();
    let strangers: Vec<Option<String>> = vec![Some("someone".into())];
    let o = classify_at(&signed, Some(true), b"body", &strangers, &token, &mut fresh, Some(1_000), 0);
    assert_eq!(outcome_label(&o), "rejected:signing pubkey is not a paired peer");
    let garbled = AuthHeaders { auth: Some(None), bearer: Some(Some("Bearer tok".into())) };
    let o = classify_at(&garbled, Some(true), b"", &peers, &token, &mut fresh, Some(1_000), 0);
    assert_eq!(outcome_label(&o), "rejected:malformed auth header");
}

#[test]
fn replay_guard_keys_on_the_signature_prefix() {
    let mut g = ReplayGuard::new();
    // Two signatures sharing their first 16 bytes are the same key.
    assert!(g.record_at(10, "pk", 7, "0123456789abcdefXXXX", 60_000));
    assert!(!g.record_at(20, "pk", 7, "0123456789abcdefYYYY", 60_000));
    assert!(g.record_at(30, "pk", 7, "0123456789abcdeZ", 60_000));
}
