use unhosted::router::{Peer, Router, Target};

fn peer(name: &str, port: u16, priority: u8) -> Peer {
    Peer { name: name.into(), addr: format!("127.0.0.1:{port}"), priority }
}

#[test]
fn local_only_when_no_peers() {
    let mut r = Router::new(&vec![]);
    assert_eq!(r.target_count(), 1);
    assert_eq!(r.next(), Target::Local);
    assert_eq!(r.next(), Target::Local);
    assert!(!r.has_peers());
}

#[test]
fn rotates_across_local_and_peers_in_priority_order() {
    let mut r = Router::new(&vec![peer("late", 7779, 10), peer("early", 7778, 1)]);
    assert_eq!(r.target_count(), 3);
    assert!(r.has_peers());

    let seen: Vec<Target> = (0..6).map(|_| r.next()).collect();
    let expected = [
        Target::Local,
        Target::Peer { name: "early".into(), addr: "127.0.0.1:7778".into() },
        Target::Peer { name: "late".into(), addr: "127.0.0.1:7779".into() },
    ];
    assert_eq!(seen[0..3], expected[..]);
    assert_eq!(seen[3..6], expected[..]);
}

#[test]
fn equal_priorities_keep_configured_order() {
    let mut r = Router::new(&vec![peer("b", 2, 5), peer("a", 1, 5), peer("c", 3, 0)]);
    let names: Vec<Target> = (0..4).map(|_| r.next()).collect();
    assert_eq!(names[1], Target::Peer { name: "c".into(), addr: "127.0.0.1:3".into() });
    assert_eq!(names[2], Target::Peer { name: "b".into(), addr: "127.0.0.1:2".into() });
    assert_eq!(names[3], Target::Peer { name: "a".into(), addr: "127.0.0.1:1".into() });
}

use unhosted::router::{after_failure, first_path, quic_run_enabled, route_request, RunPath};

#[test]
fn forwarded_requests_stay_here_and_keep_the_rotation() {
    let peers = vec![Peer { name: "b".into(), addr: "10.0.0.2:7777".into(), priority: 5 }];
    let mut r = Router::new(&peers);
    assert_eq!(route_request(&mut r, true), Target::Local);
    assert_eq!(route_request(&mut r, true), Target::Local);
    assert_eq!(route_request(&mut r, false), Target::Local);
    assert_eq!(
        route_request(&mut r, false),
        Target::Peer { name: "b".into(), addr: "10.0.0.2:7777".into() }
    );
}

#[test]
fn peer_paths_fall_back_towards_local() {
    let pk = Some("PK".to_string());
    assert!(quic_run_enabled(&Some("1".into())));
    assert!(!quic_run_enabled(&Some("0".into())));
    assert!(!quic_run_enabled(&Some("".into())));
    assert!(!quic_run_enabled(&None));
    let p = first_path(&pk, true, true, 7777);
    assert_eq!(p, RunPath::Quic { port: 7778 });
    assert_eq!(first_path(&pk, true, true, u16::MAX), RunPath::Quic { port: u16::MAX });
    assert_eq!(first_path(&None, true, true, 7777), RunPath::Direct { signed: false });
    let p = after_failure(p, &pk, true);
    assert_eq!(p, RunPath::Direct { signed: true });
    let p = after_failure(p, &pk, true);
    assert_eq!(p, RunPath::Relay { pubkey: "PK".into() });
    assert_eq!(after_failure(p, &pk, true), RunPath::Local);
    assert_eq!(after_failure(RunPath::Direct { signed: true }, &pk, false), RunPath::Local);
    assert_eq!(after_failure(RunPath::Direct { signed: false }, &None, true), RunPath::Local);
}
