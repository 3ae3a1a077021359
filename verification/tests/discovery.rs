use unhosted::discovery::{
    default_node_name, instance_name, sanitize_host, Announcement, PeerTable, SERVICE_TYPE,
};

fn ann(name: &str, port: u16, addr: Option<&str>) -> Announcement {
    Announcement {
        fullname: format!("{name}.{SERVICE_TYPE}"),
        port,
        addr: addr.map(|a| a.to_string()),
        host: format!("{name}.local."),
        version: Some("0.0.66".into()),
    }
}

#[test]
fn instance_names_drop_the_service_suffix() {
    assert_eq!(instance_name("laptop._unhosted._tcp.local."), "laptop");
    assert_eq!(instance_name("weird"), "weird");
}

#[test]
fn host_labels_are_sanitized() {
    assert_eq!(sanitize_host("Bob's Mac mini"), "Bob-s-Mac-mini");
    assert_eq!(sanitize_host("node-1"), "node-1");
}

#[test]
fn node_name_prefers_the_environment() {
    assert_eq!(default_node_name(Some("studio".into()), Some("host.local".into())), "studio");
    assert_eq!(default_node_name(Some("".into()), Some("host.local".into())), "host");
    assert_eq!(default_node_name(None, Some("box".into())), "box");
    assert_eq!(default_node_name(None, None), "unhosted");
}

#[test]
fn resolutions_record_peers_but_not_ourselves() {
    let mut t = PeerTable::new();
    assert!(!t.on_resolved(ann("me", 7777, Some("10.0.0.1:7777")), "me", 7777, 1_000));
    assert!(!t.on_resolved(ann("ghost", 7777, None), "me", 7777, 1_000));
    assert!(t.on_resolved(ann("me", 7778, Some("10.0.0.1:7778")), "me", 7777, 1_000));
    assert!(t.on_resolved(ann("b", 7777, Some("10.0.0.2:7777")), "me", 7777, 1_000));
    assert!(t.on_resolved(ann("b", 7777, Some("10.0.0.3:7777")), "me", 7777, 2_000));
    assert_eq!(t.peers.len(), 2);
    assert_eq!(t.peers[1].addr, "10.0.0.3:7777");
    assert_eq!(t.peers[1].last_seen_ms, 2_000);
    assert!(t.on_removed("b._unhosted._tcp.local."));
    assert!(!t.on_removed("b._unhosted._tcp.local."));
    assert_eq!(t.peers.len(), 1);
}

#[test]
fn snapshot_drops_stale_peers_and_sorts_by_name() {
    let mut t = PeerTable::new();
    t.on_resolved(ann("zeta", 1, Some("10.0.0.9:1")), "me", 7777, 100_000);
    t.on_resolved(ann("alpha", 1, Some("10.0.0.8:1")), "me", 7777, 100_000);
    t.on_resolved(ann("stale", 1, Some("10.0.0.7:1")), "me", 7777, 10_000);
    let names: Vec<String> = t.snapshot(120_000).into_iter().map(|p| p.name).collect();
    assert_eq!(names, vec!["alpha", "zeta"]);
    // Exactly one minute old is still listed.
    assert_eq!(t.snapshot(70_000).len(), 3);
    assert_eq!(t.snapshot(70_001).len(), 2);
}
