use unhosted::metrics::{AgentStopReason, Metrics, TunnelStateCode, VERSION};

#[test]
fn counters_increment() {
    let mut m = Metrics::new();
    m.inc_chat_total();
    m.inc_chat_total();
    m.inc_chat_total();
    assert_eq!(m.chat_completions_total, 3);
}

#[test]
fn active_can_go_up_and_down() {
    let mut m = Metrics::new();
    m.inc_chat_active();
    m.inc_chat_active();
    m.dec_chat_active();
    assert_eq!(m.chat_completions_active, 1);
}

#[test]
fn tunnel_state_record_updates_both_counter_and_gauge() {
    let mut m = Metrics::new();
    m.record_tunnel_state(TunnelStateCode::Starting);
    m.record_tunnel_state(TunnelStateCode::Live);
    assert_eq!(m.tunnel_state_changes_total, 2);
    assert_eq!(m.tunnel_state, 2);
}

#[test]
fn prometheus_text_has_help_type_value_per_metric() {
    let mut m = Metrics::new();
    m.inc_chat_total();
    m.inc_peer_pairs();
    m.record_tunnel_state(TunnelStateCode::Live);
    let text = m.to_prometheus_text();
    assert!(text.contains("# HELP unhosted_build_info"));
    assert!(text.contains("# TYPE unhosted_build_info gauge"));
    assert!(text.contains("unhosted_build_info{version=\""));
    assert!(text.contains("unhosted_chat_completions_total 1"));
    assert!(text.contains("unhosted_peer_pairs_total 1"));
    assert!(text.contains("unhosted_tunnel_state 2"));
}

#[test]
fn build_info_carries_cargo_pkg_version() {
    let m = Metrics::new();
    let text = m.to_prometheus_text();
    let expected = format!("unhosted_build_info{{version=\"{}\"}} 1", "0.0.66");
    assert!(text.contains(&expected), "missing build_info line: {expected}\n{text}");
    assert_eq!(VERSION, "0.0.66");
}

#[test]
fn rendered_text_is_exact_for_fresh_metrics() {
    let mut m = Metrics::new();
    m.dec_chat_active();
    m.set_peers_paired(-3);
    m.inc_agent_stop(AgentStopReason::DlpBlocked);
    let text = m.render_prometheus(42);
    assert!(text.starts_with(
        "# HELP unhosted_build_info Build info constant (always 1).\n# TYPE unhosted_build_info gauge\nunhosted_build_info{version=\"0.0.66\"} 1\n"
    ));
    assert!(text.contains("\nunhosted_uptime_seconds 42\n"));
    assert!(text.contains("\nunhosted_chat_completions_active -1\n"));
    assert!(text.contains("\nunhosted_peers_paired -3\n"));
    assert!(text.ends_with("unhosted_agent_runs_stopped_by{reason=\"dlp_blocked\"} 1\n"));
    assert_eq!(text.matches("# HELP ").count(), 16);
}

#[test]
fn counters_wrap_like_atomics() {
    let mut m = Metrics::new();
    m.agent_steps_total = u64::MAX;
    m.inc_agent_steps();
    assert_eq!(m.agent_steps_total, 0);
    m.chat_completions_active = i64::MIN;
    m.dec_chat_active();
    assert_eq!(m.chat_completions_active, i64::MAX);
}

#[test]
fn stop_reasons_land_in_their_own_counters() {
    let mut m = Metrics::new();
    m.inc_agent_stop(AgentStopReason::FinalAnswer);
    m.inc_agent_stop(AgentStopReason::MaxSteps);
    m.inc_agent_stop(AgentStopReason::MaxSteps);
    m.inc_agent_stop(AgentStopReason::ToolError);
    assert_eq!(m.agent_runs_stopped_final_answer, 1);
    assert_eq!(m.agent_runs_stopped_max_steps, 2);
    assert_eq!(m.agent_runs_stopped_tool_error, 1);
    assert_eq!(m.agent_runs_stopped_max_tokens, 0);
}
