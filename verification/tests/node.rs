use unhosted::auth::AuthOutcome;
use unhosted::node::{
    char_to_hex, default_max_tokens, hide_paired, listen_addr_text, needs_model_swap,
    parse_offer, parse_offer_uri, relative_ago, relay_status, CliOfferError, require_auth, restore_peer_addrs,
    trim_for_display, urldecode, urlencode, AccessError, DiscoveredDevice, ModelField,
    OfferError, PairedPeer,
};
use unhosted::relay_client::RelayState;

fn peer(name: &str, addr: &str, pk: Option<&str>) -> PairedPeer {
    PairedPeer { name: name.into(), addr: addr.into(), pubkey: pk.map(|s| s.to_string()) }
}

fn device(name: &str, addr: &str, pk: Option<&str>) -> DiscoveredDevice {
    DiscoveredDevice { name: name.into(), addr: addr.into(), pubkey: pk.map(|s| s.to_string()) }
}

#[test]
fn peers_are_kept_off_local_only_endpoints() {
    let peer = AuthOutcome::Peer("pk".into());
    assert_eq!(require_auth(&peer, true), Err(AccessError::Forbidden));
    assert_eq!(require_auth(&peer, false), Ok(()));
    assert_eq!(require_auth(&AuthOutcome::Local, true), Ok(()));
    assert_eq!(require_auth(&AuthOutcome::LoopbackUnauthed, true), Ok(()));
    assert_eq!(require_auth(&AuthOutcome::Rejected("bad sig"), false), Err(AccessError::Unauthorized));
    assert_eq!(require_auth(&AuthOutcome::Missing, false), Err(AccessError::Unauthorized));
}

#[test]
fn urlencode_escapes_reserved_characters() {
    assert_eq!(urlencode("abc-_.~XYZ09"), "abc-_.~XYZ09");
    assert_eq!(urlencode("a b&c=d"), "a%20b%26c%3Dd");
    assert_eq!(urlencode("10.0.0.2:7777"), "10.0.0.2%3A7777");
    assert_eq!(urlencode(""), "");
}

#[test]
fn urldecode_undoes_urlencode() {
    for s in ["10.0.0.2:7777", "a b&c=d", "k/+=", "plain"] {
        assert_eq!(urldecode(&urlencode(s)), s);
    }
}

#[test]
fn urldecode_keeps_bad_escapes() {
    assert_eq!(urldecode("%zz"), "%zz");
    assert_eq!(urldecode("50%"), "50%");
    assert_eq!(urldecode("%4"), "%4");
    assert_eq!(urldecode("%41"), "A");
    assert_eq!(urldecode("%e2%80%94"), "\u{2014}");
    // Decoded bytes that are not UTF-8 leave the text as it was.
    assert_eq!(urldecode("%ff"), "%ff");
}

#[test]
fn hex_digits_in_either_case() {
    assert_eq!(char_to_hex(b'0'), Some(0));
    assert_eq!(char_to_hex(b'9'), Some(9));
    assert_eq!(char_to_hex(b'a'), Some(10));
    assert_eq!(char_to_hex(b'F'), Some(15));
    assert_eq!(char_to_hex(b'g'), None);
}

#[test]
fn offer_uri_round_trip() {
    let uri = format!(
        "unhosted://pair?addr={}&token={}&pk={}&relay={}",
        urlencode("192.168.1.5:7777"),
        urlencode("tok en"),
        urlencode("AAAA+/=="),
        urlencode("wss://relay.example/ws")
    );
    let o = parse_offer_uri(&uri).unwrap();
    assert_eq!(o.addr, "192.168.1.5:7777");
    assert_eq!(o.token, "tok en");
    assert_eq!(o.pubkey.as_deref(), Some("AAAA+/=="));
    assert_eq!(o.relay.as_deref(), Some("wss://relay.example/ws"));
}

#[test]
fn offer_uri_slash_form_and_last_key_wins() {
    let o = parse_offer_uri("  unhosted://pair/addr=1.2.3.4:1&token=a&token=b&x=y  ").unwrap();
    assert_eq!(o.addr, "1.2.3.4:1");
    assert_eq!(o.token, "b");
    assert_eq!(o.pubkey, None);
    assert_eq!(o.relay, None);
}

#[test]
fn offer_uri_errors() {
    assert_eq!(parse_offer_uri("http://x").unwrap_err(), OfferError::BadPrefix);
    assert_eq!(parse_offer_uri("unhosted://pair?token=t").unwrap_err(), OfferError::MissingAddr);
    assert_eq!(parse_offer_uri("unhosted://pair?addr=1.2.3.4:5").unwrap_err(), OfferError::MissingToken);
    assert_eq!(OfferError::MissingToken.message(), "offer missing token=");
    assert_eq!(OfferError::BadPrefix.message(), "offer must start with 'unhosted://pair?'");
}

#[test]
fn relay_status_by_state() {
    let url = Some("wss://r".to_string());
    let s = relay_status(RelayState::Disabled, url.clone());
    assert_eq!((s.state, s.url, s.error), ("disabled", None, None));
    let s = relay_status(RelayState::Registered, url.clone());
    assert_eq!((s.state, s.url.as_deref()), ("registered", Some("wss://r")));
    let s = relay_status(RelayState::Error("boom".into()), url);
    assert_eq!((s.state, s.error.as_deref()), ("error", Some("boom")));
}

#[test]
fn discovery_restores_a_drifted_address() {
    let mut peers = vec![
        peer("laptop", "10.0.0.2:7777", Some("K1")),
        peer("desk", "10.0.0.3:7777", None),
        peer("laptop-2", "10.0.0.9:7777", Some("K1")),
    ];
    let found = vec![device("laptop", "10.0.0.7:7777", Some("K1")), device("x", "1.1.1.1:1", None)];
    assert!(restore_peer_addrs(&mut peers, &found));
    assert_eq!(peers[0].addr, "10.0.0.7:7777");
    assert_eq!(peers[1].addr, "10.0.0.3:7777");
    // Only the first peer with the key is moved.
    assert_eq!(peers[2].addr, "10.0.0.9:7777");
    // A second pass finds nothing to change.
    assert!(!restore_peer_addrs(&mut peers, &found));
}

#[test]
fn paired_devices_are_hidden() {
    let peers = vec![peer("laptop", "10.0.0.2:7777", Some("K1"))];
    let found = vec![
        device("laptop", "10.0.0.2:7777", None),
        device("renamed", "10.0.0.2:7777", Some("K1")),
        device("phone", "10.0.0.4:7777", Some("K2")),
        device("tv", "10.0.0.5:7777", None),
    ];
    let shown: Vec<String> = hide_paired(found, &peers).into_iter().map(|d| d.name).collect();
    assert_eq!(shown, vec!["phone".to_string(), "tv".to_string()]);
}

#[test]
fn placeholder_models_are_swapped() {
    assert!(needs_model_swap(&ModelField::Absent, true));
    for m in ["local", "default", "auto", ""] {
        assert!(needs_model_swap(&ModelField::Text(m.into()), true));
    }
    assert!(!needs_model_swap(&ModelField::Text("qwen".into()), true));
    assert!(!needs_model_swap(&ModelField::Other, true));
    assert!(!needs_model_swap(&ModelField::Absent, false));
}

#[test]
fn display_trimming() {
    assert_eq!(trim_for_display("short", 10), "short");
    assert_eq!(trim_for_display("a\nb\rc", 10), "a b c");
    assert_eq!(trim_for_display("abcdefghij", 4), "abcd\u{2026}");
}

#[test]
fn ages_in_the_largest_unit() {
    assert_eq!(relative_ago(1000, 990), "10s ago");
    assert_eq!(relative_ago(1000, 1010), "0s ago");
    assert_eq!(relative_ago(10_000, 10_000 - 125), "2m ago");
    assert_eq!(relative_ago(100_000, 100_000 - 7200), "2h ago");
    assert_eq!(relative_ago(1_000_000, 1_000_000 - 3 * 86400), "3d ago");
}

#[test]
fn listen_address_from_the_node_url() {
    assert_eq!(listen_addr_text("http://127.0.0.1:7777/"), "127.0.0.1:7777");
    assert_eq!(listen_addr_text("https://10.0.0.2:7777"), "10.0.0.2:7777");
    assert_eq!(listen_addr_text("127.0.0.1:7777"), "127.0.0.1:7777");
}

#[test]
fn run_requests_default_to_256_tokens() {
    assert_eq!(default_max_tokens(), 256);
}

#[test]
fn command_line_offers_keep_values_as_written() {
    let o = parse_offer("unhosted://pair?addr=10.0.0.2:7777&token=a%20b&addr").unwrap();
    assert_eq!(o.addr, "10.0.0.2:7777");
    assert_eq!(o.token, "a%20b");
    assert_eq!(parse_offer("nope").unwrap_err(), CliOfferError::BadPrefix);
    assert_eq!(parse_offer("unhosted://pair?addr&token=t").unwrap_err(), CliOfferError::MissingAddr);
    assert_eq!(parse_offer("unhosted://pair/addr=1.2.3.4:5").unwrap_err(), CliOfferError::MissingToken);
    assert_eq!(CliOfferError::MissingAddr.message(), "offer missing addr= parameter");
}

use unhosted::node::{trace_line, trace_summary, TraceStep};

#[test]
fn run_traces_print_one_line_per_step() {
    let m = TraceStep::ModelMessage { step: 1, content: String::new(), tool_calls_made: 1 };
    assert_eq!(trace_line(&m), "  [step 1] model: (1 tool call)");
    let m = TraceStep::ModelMessage { step: 2, content: String::new(), tool_calls_made: 3 };
    assert_eq!(trace_line(&m), "  [step 2] model: (3 tool calls)");
    let m = TraceStep::ModelMessage { step: 3, content: "done\nbye".into(), tool_calls_made: 0 };
    assert_eq!(trace_line(&m), "  [step 3] model: done bye");
    let t = TraceStep::ToolCall {
        step: 1,
        tool: "read_file".into(),
        args_hash: "abcd".into(),
        result_chars: 42,
        error: None,
    };
    assert_eq!(trace_line(&t), "  [step 1] tool read_file  args#abcd  42 chars  ok");
    let t = TraceStep::ToolCall {
        step: 1,
        tool: "web_fetch".into(),
        args_hash: "ef".into(),
        result_chars: 0,
        error: Some("web_fetch: timeout".into()),
    };
    assert_eq!(trace_line(&t), "  [step 1] tool web_fetch  args#ef  ERROR  web_fetch: timeout");
    assert_eq!(trace_line(&TraceStep::Other { step: 4, kind: "odd".into() }), "  [step 4] odd");
    assert_eq!(trace_summary("done", 120, "r1"), "stopped: done   tokens: 120   run: r1");
}

use unhosted::node::{cors_policy, loopback_origin, CorsPolicy};

#[test]
fn cors_policy_from_the_environment() {
    assert!(matches!(cors_policy(""), CorsPolicy::Loopback));
    assert!(matches!(cors_policy("   "), CorsPolicy::Loopback));
    assert!(matches!(cors_policy(" * "), CorsPolicy::Any));
    match cors_policy(" https://a.example , ,http://b.example:8080 ") {
        CorsPolicy::Listed(v) => {
            assert_eq!(v, vec!["https://a.example".to_string(), "http://b.example:8080".to_string()])
        }
        other => panic!("unexpected {other:?}"),
    }
}

#[test]
fn default_cors_lets_local_origins_through() {
    assert!(loopback_origin("http://127.0.0.1:7777"));
    assert!(loopback_origin("http://localhost:3000"));
    assert!(loopback_origin("tauri://localhost"));
    assert!(loopback_origin("file://"));
    assert!(!loopback_origin("https://evil.example"));
    assert!(!loopback_origin("http://192.168.1.2:7777"));
}
