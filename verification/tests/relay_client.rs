use unhosted::relay_client::{
    after_session, next_backoff, relay_http_base, tunnel_url, uuid_simple, RelayState, SessionEnd,
};

#[test]
fn backoff_doubles_to_a_minute() {
    let mut b = 1;
    let mut seen = vec![];
    for _ in 0..8 {
        seen.push(b);
        b = next_backoff(b);
    }
    assert_eq!(seen, vec![1, 2, 4, 8, 16, 32, 60, 60]);
}

#[test]
fn sessions_set_state_and_backoff() {
    let (s, wait, next) = after_session(SessionEnd::Failed("dial failed".into()), RelayState::Connecting, 8);
    assert_eq!(s, RelayState::Error("dial failed".into()));
    assert_eq!((wait, next), (8, 16));
    let (s, wait, next) = after_session(SessionEnd::Clean, RelayState::Registered, 32);
    assert_eq!(s, RelayState::Registered);
    assert_eq!((wait, next), (1, 2));
}

#[test]
fn relay_urls() {
    assert_eq!(tunnel_url("wss://relay.example/"), "wss://relay.example/v1/tunnel");
    assert_eq!(relay_http_base("wss://relay.example"), "https://relay.example");
    assert_eq!(relay_http_base("ws://127.0.0.1:9000"), "http://127.0.0.1:9000");
    assert_eq!(relay_http_base("https://x"), "https://x");
    let id = uuid_simple();
    assert_eq!(id.len(), 22);
    assert!(id.chars().all(|c| c.is_ascii_alphanumeric() || c == '-' || c == '_'));
}

use unhosted::relay_client::{
    disconnected_message, expect_hello, expect_registered, reply_payload, PayloadAction,
    PendingCalls, RelayPayload, ResponseEvent, ServerFrame,
};

#[test]
fn handshake_frames() {
    assert_eq!(expect_hello(ServerFrame::Hello { challenge: "c1".into() }), Ok("c1".to_string()));
    assert_eq!(
        expect_hello(ServerFrame::Error { code: "banned".into(), message: "go away".into() }),
        Err("relay rejected with banned: go away".to_string())
    );
    assert_eq!(expect_hello(ServerFrame::Registered), Err("relay sent unexpected first frame".to_string()));
    assert_eq!(expect_registered(ServerFrame::Registered), Ok(()));
    assert_eq!(
        expect_registered(ServerFrame::Error { code: "sig".into(), message: "bad".into() }),
        Err("relay refused registration (sig): bad".to_string())
    );
    assert_eq!(
        expect_registered(ServerFrame::Hello { challenge: "x".into() }),
        Err("relay sent unexpected confirmation frame".to_string())
    );
}

#[test]
fn responses_reach_waiting_callers_until_they_end() {
    let mut p = PendingCalls::new();
    p.begin("r1".into());
    assert!(p.is_pending("r1"));
    let a = p.on_payload("PK", RelayPayload::RespChunk { id: "r1".into(), data: "hi".into() });
    assert_eq!(a, PayloadAction::Deliver { id: "r1".into(), event: ResponseEvent::Chunk(b"hi".to_vec()) });
    let a = p.on_payload("PK", RelayPayload::RespEnd { id: "r1".into() });
    assert_eq!(a, PayloadAction::Deliver { id: "r1".into(), event: ResponseEvent::End });
    assert!(!p.is_pending("r1"));
    let a = p.on_payload("PK", RelayPayload::RespChunk { id: "r1".into(), data: "late".into() });
    assert_eq!(a, PayloadAction::Drop);
    p.begin("r2".into());
    let a = p.on_payload("PK", RelayPayload::Failed { id: "r2".into(), msg: "boom".into() });
    assert_eq!(a, PayloadAction::Deliver { id: "r2".into(), event: ResponseEvent::Error("boom".into()) });
}

#[test]
fn requests_from_peers_are_dispatched() {
    let mut p = PendingCalls::new();
    let a = p.on_payload("PK", RelayPayload::ReqStart { id: "x".into(), body: "{}".into() });
    assert_eq!(
        a,
        PayloadAction::Dispatch { from_pubkey: "PK".into(), id: "x".into(), body: "{}".into() }
    );
}

#[test]
fn a_dropped_session_ends_every_call() {
    let mut p = PendingCalls::new();
    p.begin("a".into());
    p.begin("b".into());
    p.begin("a".into());
    let mut ended = p.on_disconnect();
    ended.sort();
    assert_eq!(ended, vec!["a".to_string(), "b".to_string()]);
    assert!(!p.is_pending("a"));
    assert_eq!(disconnected_message(), "relay disconnected");
}

#[test]
fn replies_to_peer_requests() {
    let (p, last) = reply_payload("q".into(), ResponseEvent::Chunk(b"ok".to_vec()));
    assert_eq!((p, last), (RelayPayload::RespChunk { id: "q".into(), data: "ok".into() }, false));
    let (p, last) = reply_payload("q".into(), ResponseEvent::Chunk(vec![0xff]));
    assert_eq!((p, last), (RelayPayload::RespChunk { id: "q".into(), data: "\u{fffd}".into() }, false));
    assert_eq!(reply_payload("q".into(), ResponseEvent::End), (RelayPayload::RespEnd { id: "q".into() }, true));
    assert_eq!(
        reply_payload("q".into(), ResponseEvent::Error("e".into())),
        (RelayPayload::Failed { id: "q".into(), msg: "e".into() }, true)
    );
}

use unhosted::relay_client::{served_by_header, CollectStep, ReplyCollector, ServedBy};

#[test]
fn relayed_replies_are_collected_whole() {
    let mut c = ReplyCollector::new();
    assert_eq!(c.on_event(ResponseEvent::Chunk(b"{\"ok\":".to_vec())), CollectStep::More);
    assert_eq!(c.on_event(ResponseEvent::Chunk(b"true}".to_vec())), CollectStep::More);
    assert_eq!(c.on_event(ResponseEvent::End), CollectStep::Done(b"{\"ok\":true}".to_vec()));
    let mut c = ReplyCollector::new();
    assert_eq!(
        c.on_event(ResponseEvent::End),
        CollectStep::Failed("peer closed stream with no response".into())
    );
    let mut c = ReplyCollector::new();
    assert_eq!(
        c.on_event(ResponseEvent::Error("token expired or unknown".into())),
        CollectStep::Failed("peer rejected: token expired or unknown".into())
    );
    let mut c = ReplyCollector::new();
    c.on_event(ResponseEvent::Chunk(b"x".to_vec()));
    assert_eq!(c.finish(), CollectStep::Done(b"x".to_vec()));
}

#[test]
fn served_by_headers() {
    assert_eq!(served_by_header(&ServedBy::Local), "local");
    assert_eq!(served_by_header(&ServedBy::Peer("desk".into())), "peer:desk");
    assert_eq!(served_by_header(&ServedBy::PeerViaRelay("desk".into())), "peer:desk:relay");
    assert_eq!(served_by_header(&ServedBy::PeerViaQuic), "peer:quic");
}
