use unhosted::vram_pool::{capability_from, help_mentions_rpc, is_tap_install, RpcCapability};

#[test]
fn install_hint_when_no_llama_server() {
    let c = RpcCapability::default();
    let hint = c.install_hint();
    assert!(hint.contains("llama-server not found"));
}

#[test]
fn install_hint_when_built_without_rpc() {
    let c = RpcCapability {
        has_rpc_server_bin: false,
        llama_server_has_rpc_flag: false,
        llama_server_path: Some("/opt/homebrew/bin/llama-server".to_string()),
        rpc_server_path: None,
    };
    let hint = c.install_hint();
    assert!(hint.contains("-DGGML_RPC=ON"));
}

#[test]
fn install_hint_when_ready() {
    let c = RpcCapability {
        has_rpc_server_bin: true,
        llama_server_has_rpc_flag: true,
        llama_server_path: Some("/usr/local/bin/llama-server".to_string()),
        rpc_server_path: Some("/usr/local/bin/rpc-server".to_string()),
    };
    assert!(c.ready());
    let hint = c.install_hint();
    assert!(hint.contains("can act as"));
}

#[test]
fn hint_texts_are_exact() {
    let ready = RpcCapability {
        has_rpc_server_bin: true,
        llama_server_has_rpc_flag: true,
        llama_server_path: None,
        rpc_server_path: None,
    };
    assert_eq!(
        ready.install_hint(),
        "VRAM-pooling capability detected. This machine can act as both orchestrator and layer host."
    );
    let no_rpc = RpcCapability {
        has_rpc_server_bin: false,
        llama_server_has_rpc_flag: false,
        llama_server_path: Some("/x/llama-server".to_string()),
        rpc_server_path: None,
    };
    assert!(no_rpc
        .install_hint()
        .ends_with("\n  brew tap unhosted-ai/unhosted\n  brew install unhosted-ai/unhosted/llama-cpp-rpc\n\nThen re-run this command."));
}

#[test]
fn capability_from_lookups() {
    let tap = capability_from(
        Some("/opt/homebrew/opt/llama-cpp-rpc/bin/llama-server".to_string()),
        Some("/opt/homebrew/opt/llama-cpp-rpc/bin/rpc-server".to_string()),
        None,
    );
    assert!(tap.ready());
    let plain = capability_from(
        Some("/usr/bin/llama-server".to_string()),
        None,
        Some("usage: llama-server [options]\n  --rpc SERVERS  comma separated list"),
    );
    assert!(plain.llama_server_has_rpc_flag);
    assert!(!plain.has_rpc_server_bin);
    // The `--rpc` flag alone lets this machine orchestrate.
    assert!(plain.ready());
    let missing = capability_from(None, None, Some("--rpc"));
    assert!(!missing.llama_server_has_rpc_flag);
    assert!(is_tap_install("/usr/local/opt/llama-cpp-rpc/bin/rpc-server"));
    assert!(!is_tap_install("/usr/local/bin/rpc-server"));
    assert!(help_mentions_rpc("x --rpc y"));
    assert!(!help_mentions_rpc("rpc-server"));
}

#[test]
fn one_role_is_enough_to_be_ready() {
    let layer_host = RpcCapability {
        has_rpc_server_bin: true,
        llama_server_has_rpc_flag: false,
        rpc_server_path: Some("/usr/local/bin/rpc-server".into()),
        llama_server_path: Some("/usr/local/bin/llama-server".into()),
    };
    assert!(layer_host.ready());
    assert!(layer_host.install_hint().starts_with("VRAM-pooling capability detected."));
    let neither = RpcCapability {
        has_rpc_server_bin: false,
        llama_server_has_rpc_flag: false,
        rpc_server_path: None,
        llama_server_path: Some("/usr/local/bin/llama-server".into()),
    };
    assert!(!neither.ready());
    assert!(neither.install_hint().contains("-DGGML_RPC=ON"));
}

#[test]
fn tap_binaries_come_before_path() {
    use_resolution();
}

fn use_resolution() {
    let c = unhosted::vram_pool::tap_candidates("rpc-server");
    assert_eq!(
        c,
        vec![
            "/opt/homebrew/opt/llama-cpp-rpc/bin/rpc-server".to_string(),
            "/usr/local/opt/llama-cpp-rpc/bin/rpc-server".to_string()
        ]
    );
    let on_path = Some("/usr/bin/rpc-server".to_string());
    assert_eq!(
        unhosted::vram_pool::resolve_with_tap_priority(c.clone(), vec![false, true], on_path.clone()),
        Some(c[1].clone())
    );
    assert_eq!(
        unhosted::vram_pool::resolve_with_tap_priority(c.clone(), vec![true, true], on_path.clone()),
        Some(c[0].clone())
    );
    assert_eq!(unhosted::vram_pool::resolve_with_tap_priority(c, vec![false, false], on_path.clone()), on_path);
}
