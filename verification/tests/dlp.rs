use unhosted::dlp::{
    bearer_header, decide, default_fail_mode, default_timeout_ms, fail_to_decision, DlpConfig,
    DlpDecision, DlpReply, FailMode,
};

fn cfg(fail: FailMode) -> DlpConfig {
    DlpConfig { endpoint: "http://127.0.0.1:1".into(), bearer: None, timeout_ms: 500, fail_mode: fail }
}

#[test]
fn allow_and_block_decisions() {
    let allow = DlpReply::Parsed { decision: "allow".into(), reason: None };
    assert_eq!(decide(&cfg(FailMode::FailClosed), allow), DlpDecision::Allow);
    let block = DlpReply::Parsed { decision: "block".into(), reason: Some("PII: SSN-pattern matched".into()) };
    assert_eq!(
        decide(&cfg(FailMode::FailClosed), block),
        DlpDecision::Block { reason: "PII: SSN-pattern matched".into() }
    );
    let bare = DlpReply::Parsed { decision: "block".into(), reason: None };
    assert_eq!(decide(&cfg(FailMode::FailOpen), bare), DlpDecision::Block { reason: "dlp blocked".into() });
}

#[test]
fn failures_follow_the_fail_mode() {
    assert_eq!(decide(&cfg(FailMode::FailOpen), DlpReply::Status("500 Internal Server Error".into())), DlpDecision::Allow);
    match decide(&cfg(FailMode::FailClosed), DlpReply::Status("500 Internal Server Error".into())) {
        DlpDecision::Block { reason } => {
            assert!(reason.contains("http 500"));
            assert_eq!(reason, "dlp unavailable: dlp http 500 Internal Server Error");
        }
        other => panic!("expected Block, got {other:?}"),
    }
    assert_eq!(decide(&cfg(FailMode::FailOpen), DlpReply::Transport("connection refused".into())), DlpDecision::Allow);
    assert_eq!(
        decide(&cfg(FailMode::FailOpen), DlpReply::Parsed { decision: "what?".into(), reason: None }),
        DlpDecision::Allow
    );
    assert_eq!(
        decide(&cfg(FailMode::FailClosed), DlpReply::Unparsable("eof".into())),
        DlpDecision::Block { reason: "dlp unavailable: dlp parse: eof".into() }
    );
    assert_eq!(fail_to_decision(&cfg(FailMode::FailOpen), "x".into()), DlpDecision::Allow);
}

#[test]
fn defaults_and_bearer() {
    assert_eq!(default_timeout_ms(), 800);
    assert_eq!(default_fail_mode(), FailMode::FailOpen);
    assert_eq!(bearer_header("secret-token"), "Bearer secret-token");
}

// The service's replies in the original scenarios, as the request layer
// hands them to the decision.

#[test]
fn allow_decision_is_allow() {
    let reply = DlpReply::Parsed { decision: "allow".into(), reason: None };
    assert_eq!(decide(&cfg(FailMode::FailClosed), reply), DlpDecision::Allow);
}

#[test]
fn block_decision_with_reason_propagates() {
    let reply = DlpReply::Parsed {
        decision: "block".into(),
        reason: Some("PII: SSN-pattern matched".into()),
    };
    match decide(&cfg(FailMode::FailClosed), reply) {
        DlpDecision::Block { reason } => assert_eq!(reason, "PII: SSN-pattern matched"),
        other => panic!("expected Block, got {other:?}"),
    }
}

#[test]
fn bearer_is_sent_when_configured() {
    let mut c = cfg(FailMode::FailOpen);
    c.bearer = Some("secret-token".into());
    assert_eq!(bearer_header(c.bearer.as_deref().unwrap()), "Bearer secret-token");
    let reply = DlpReply::Parsed { decision: "allow".into(), reason: None };
    assert_eq!(decide(&c, reply), DlpDecision::Allow);
}

#[test]
fn fail_open_on_500() {
    let reply = DlpReply::Status("500 Internal Server Error".into());
    assert_eq!(decide(&cfg(FailMode::FailOpen), reply), DlpDecision::Allow);
}

#[test]
fn fail_closed_on_500_blocks() {
    let reply = DlpReply::Status("500 Internal Server Error".into());
    match decide(&cfg(FailMode::FailClosed), reply) {
        DlpDecision::Block { reason } => assert!(reason.contains("http 500")),
        other => panic!("expected Block, got {other:?}"),
    }
}

#[test]
fn fail_open_on_unreachable_endpoint() {
    let reply = DlpReply::Transport("error sending request: connection refused".into());
    assert_eq!(decide(&cfg(FailMode::FailOpen), reply), DlpDecision::Allow);
}

#[test]
fn unknown_decision_falls_through_fail_mode() {
    let reply = DlpReply::Parsed { decision: "what?".into(), reason: None };
    assert_eq!(decide(&cfg(FailMode::FailOpen), reply), DlpDecision::Allow);
}
