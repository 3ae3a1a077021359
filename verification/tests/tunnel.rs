use unhosted::tunnel::{
    autostart_body, autostart_enabled, detect_stage, extract_trycloudflare_url, StartingStage,
    TunnelControl, TunnelState,
};

#[test]
fn extracts_url_from_log_line() {
    let line = "2025-01-01T00:00:00Z INF |  https://random-words-xyz.trycloudflare.com  |";
    assert_eq!(
        extract_trycloudflare_url(line).as_deref(),
        Some("https://random-words-xyz.trycloudflare.com")
    );
}

#[test]
fn extracts_url_when_inline() {
    let line = "INF Your tunnel: https://foo-bar.trycloudflare.com please wait";
    assert_eq!(
        extract_trycloudflare_url(line).as_deref(),
        Some("https://foo-bar.trycloudflare.com")
    );
}

#[test]
fn ignores_unrelated_lines() {
    let line = "INF Starting tunnel";
    assert!(extract_trycloudflare_url(line).is_none());
}

#[test]
fn detects_requesting_stage() {
    let line = "INF Requesting new quick Tunnel on trycloudflare.com...";
    assert_eq!(detect_stage(line), Some(StartingStage::Requesting));
}

#[test]
fn detects_connecting_stage() {
    assert_eq!(
        detect_stage("INF Initial protocol quic"),
        Some(StartingStage::Connecting)
    );
    assert_eq!(
        detect_stage("INF Registered tunnel connection connIndex=0"),
        Some(StartingStage::Connecting)
    );
}

#[test]
fn stage_ordering_is_monotonic() {
    assert!(StartingStage::Spawning < StartingStage::Requesting);
    assert!(StartingStage::Requesting < StartingStage::Connecting);
}

#[test]
fn url_needs_a_scheme_and_falls_back_to_http() {
    assert!(extract_trycloudflare_url("see foo.trycloudflare.com").is_none());
    assert_eq!(
        extract_trycloudflare_url("x http://a.trycloudflare.com|y").as_deref(),
        Some("http://a.trycloudflare.com")
    );
    assert_eq!(
        extract_trycloudflare_url("https://b.trycloudflare.com/path").as_deref(),
        Some("https://b.trycloudflare.com/path")
    );
}

#[test]
fn unrelated_line_has_no_stage() {
    assert_eq!(detect_stage("INF Starting tunnel"), None);
    assert_eq!(
        detect_stage("Thank you for trying Cloudflare Tunnel. Initial protocol quic"),
        Some(StartingStage::Connecting)
    );
}

#[test]
fn autostart_reads_trimmed_enabled_only() {
    assert!(autostart_enabled("enabled"));
    assert!(autostart_enabled("  enabled\n"));
    assert!(!autostart_enabled("disabled"));
    assert!(!autostart_enabled(""));
    assert!(!autostart_enabled("Enabled"));
    assert_eq!(autostart_body(true), "enabled");
    assert_eq!(autostart_body(false), "disabled");
}

fn url_of(c: &TunnelControl) -> Option<String> {
    match &c.state {
        TunnelState::Running { url } => Some(url.clone()),
        _ => None,
    }
}

#[test]
fn supervisor_runs_revives_and_gives_up() {
    let mut c = TunnelControl::new();
    assert!(c.needs_revive());
    assert!(c.begin_start());
    assert!(c.mark_spawning());
    assert!(!c.begin_start());
    c.on_stderr_line("INF Initial protocol quic");
    assert!(matches!(c.state, TunnelState::Starting { stage: StartingStage::Connecting }));
    c.on_stderr_line("INF Requesting new quick Tunnel");
    assert!(matches!(c.state, TunnelState::Starting { stage: StartingStage::Connecting }));
    c.on_stderr_line("INF |  https://x.trycloudflare.com  |");
    assert_eq!(url_of(&c).as_deref(), Some("https://x.trycloudflare.com"));
    for attempt in 1..=3 {
        assert!(c.on_exit());
        assert_eq!(c.restart_attempts, attempt);
        c.on_child_attached();
        c.on_stderr_line("https://y.trycloudflare.com");
        assert_eq!(c.restart_attempts, 0);
        c.restart_attempts = attempt;
    }
    assert!(!c.on_exit());
    match &c.state {
        TunnelState::Failed { error } => {
            assert_eq!(error, "cloudflared crashed 3 times in a row \u{2014} check the binary")
        }
        _ => panic!("expected failure"),
    }
    assert!(c.needs_revive());
    c.stop();
    assert!(!c.needs_revive());
    assert_eq!(c.restart_attempts, 0);
}

#[test]
fn exit_before_url_fails() {
    let mut c = TunnelControl::new();
    assert!(c.mark_spawning());
    assert!(!c.on_exit());
    match &c.state {
        TunnelState::Failed { error } => {
            assert_eq!(error, "cloudflared exited before producing a url")
        }
        _ => panic!("expected failure"),
    }
    c.on_spawn_error("not found");
    match &c.state {
        TunnelState::Failed { error } => {
            assert_eq!(error, "failed to spawn cloudflared: not found")
        }
        _ => panic!("expected failure"),
    }
    c.fail_offline();
    let mut idle = TunnelControl::new();
    assert!(!idle.on_exit());
    assert!(matches!(idle.state, TunnelState::Idle));
    idle.on_child_attached();
    assert!(matches!(idle.state, TunnelState::Starting { stage: StartingStage::Spawning }));
}
