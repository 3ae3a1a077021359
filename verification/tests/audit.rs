use unhosted::audit::{copy_event, AuditEvent, AuditRing};

#[test]
fn ring_buffer_respects_cap() {
    let mut b = AuditRing::with_capacity(3);
    for i in 0..5 {
        b.emit(AuditEvent::ChatCompletionStarted {
            ts: i as u64,
            caller: "loopback".into(),
            upstream: "local".into(),
            model: format!("m{i}"),
        });
    }
    let recent = b.recent(10);
    assert_eq!(recent.len(), 3, "ring should be capped at 3");
    match &recent[0] {
        AuditEvent::ChatCompletionStarted { ts, .. } => {
            assert_eq!(*ts, 2, "oldest in ring should be index 2 after 5 pushes");
        }
        _ => panic!("expected ChatCompletionStarted"),
    }
}

#[test]
fn recent_zero_returns_empty() {
    let mut b = AuditRing::new();
    b.emit(AuditEvent::PeerPaired {
        ts: 1,
        peer_name: "a".into(),
        peer_pubkey: "k".into(),
        direction: "offered".into(),
    });
    assert!(b.recent(0).is_empty());
}

#[test]
fn recent_larger_than_ring_returns_all() {
    let mut b = AuditRing::with_capacity(2);
    b.emit(AuditEvent::PeerPaired {
        ts: 1,
        peer_name: "a".into(),
        peer_pubkey: "k".into(),
        direction: "offered".into(),
    });
    b.emit(AuditEvent::PeerPaired {
        ts: 2,
        peer_name: "b".into(),
        peer_pubkey: "k".into(),
        direction: "accepted".into(),
    });
    assert_eq!(b.recent(100).len(), 2);
}

#[test]
fn recent_returns_newest_in_order() {
    let mut b = AuditRing::with_capacity(10);
    for i in 0..4u64 {
        b.emit(AuditEvent::TunnelStateChanged { ts: i, state: "live".into(), url: String::new() });
    }
    let r = b.recent(2);
    let ts: Vec<u64> = r
        .iter()
        .map(|e| match e {
            AuditEvent::TunnelStateChanged { ts, .. } => *ts,
            _ => panic!("unexpected"),
        })
        .collect();
    assert_eq!(ts, vec![2, 3]);
    match copy_event(&r[0]) {
        AuditEvent::TunnelStateChanged { ts, state, .. } => {
            assert_eq!(ts, 2);
            assert_eq!(state, "live");
        }
        _ => panic!("unexpected"),
    }
}
