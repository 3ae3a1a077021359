use unhosted::upstream::{
    all_backends, configured_probe_urls, fallback_backends, install_hints, is_embedding_model,
    live_from_health, live_from_models, offline_error, pick_chat_model, trim_trailing_slashes,
    Backend, BackendReport, HostOs, ProbeResult, LLAMA_SERVER_DEFAULT_URL, LM_STUDIO_DEFAULT_URL,
    OLLAMA_DEFAULT_URL,
};

#[test]
fn backend_url_and_probe_path_are_consistent() {
    assert_eq!(Backend::LlamaServer.upstream_url(), LLAMA_SERVER_DEFAULT_URL);
    assert_eq!(Backend::Ollama.upstream_url(), OLLAMA_DEFAULT_URL);
    assert_eq!(Backend::LmStudio.upstream_url(), LM_STUDIO_DEFAULT_URL);

    assert_eq!(Backend::LlamaServer.probe_path(), "/health");
    assert_eq!(Backend::Ollama.probe_path(), "/api/tags");
    assert_eq!(Backend::LmStudio.probe_path(), "/v1/models");
}

#[test]
fn backend_names_are_stable() {
    assert_eq!(Backend::LlamaServer.name(), "llama-server");
    assert_eq!(Backend::Ollama.name(), "ollama");
    assert_eq!(Backend::LmStudio.name(), "lm studio");
}

#[test]
fn embedding_models_are_classified_out() {
    assert!(is_embedding_model("nomic-embed-text"));
    assert!(is_embedding_model("text-embedding-3-large"));
    assert!(is_embedding_model("bge-reranker-base"));
    assert!(is_embedding_model("BAAI/bge-EMBED"));
    assert!(!is_embedding_model("llama-3.2-3b-instruct"));
    assert!(!is_embedding_model("qwen2.5-coder-7b"));
    assert!(!is_embedding_model("mistral-7b"));
}

fn report(pairs: &[(Backend, bool)]) -> BackendReport {
    BackendReport {
        results: pairs
            .iter()
            .map(|&(backend, reachable)| ProbeResult {
                backend,
                url: backend.upstream_url().to_string(),
                reachable,
            })
            .collect(),
    }
}

#[test]
fn first_reachable_returns_none_when_all_down() {
    let r = report(&[
        (Backend::LlamaServer, false),
        (Backend::Ollama, false),
        (Backend::LmStudio, false),
    ]);
    assert!(r.first_reachable().is_none());
    assert!(!r.any_reachable());
}

#[test]
fn first_reachable_respects_priority_order() {
    let r = report(&[
        (Backend::LlamaServer, false),
        (Backend::Ollama, true),
        (Backend::LmStudio, true),
    ]);
    assert!(r.any_reachable());
    assert_eq!(r.first_reachable().unwrap().backend, Backend::Ollama);
}

#[test]
fn offline_error_json_has_stable_shape() {
    let e = offline_error("http://127.0.0.1:9999");
    assert_eq!(e.kind, "upstream_offline");
    assert_eq!(e.configured, "http://127.0.0.1:9999");
    assert_eq!(e.checked.len(), 3);
    assert!(e.checked.iter().any(|u| u == LLAMA_SERVER_DEFAULT_URL));
    assert!(!e.message.is_empty());
    assert!(!e.hint.is_empty());
}

#[test]
fn install_hints_are_non_empty_for_this_platform() {
    for os in [HostOs::MacOs, HostOs::Linux, HostOs::Windows, HostOs::Other] {
        let h = install_hints(os);
        assert!(h.contains("no local model runtime is reachable"));
        assert!(!h.trim().is_empty());
    }
}

#[test]
fn fallbacks_skip_the_configured_base() {
    assert_eq!(
        fallback_backends("http://127.0.0.1:8080/"),
        vec![Backend::Ollama, Backend::LmStudio]
    );
    assert_eq!(
        fallback_backends("http://127.0.0.1:11434"),
        vec![Backend::LmStudio, Backend::LlamaServer]
    );
    assert_eq!(
        fallback_backends("http://10.0.0.2:8080"),
        vec![Backend::Ollama, Backend::LmStudio, Backend::LlamaServer]
    );
    assert_eq!(all_backends(), vec![Backend::LlamaServer, Backend::Ollama, Backend::LmStudio]);
}

#[test]
fn probe_urls_trim_slashes() {
    assert_eq!(trim_trailing_slashes("http://h:1///"), "http://h:1");
    assert_eq!(trim_trailing_slashes("///"), "");
    assert_eq!(
        configured_probe_urls("http://h:1/"),
        vec![
            "http://h:1/v1/models".to_string(),
            "http://h:1/health".to_string(),
            "http://h:1/api/tags".to_string()
        ]
    );
    assert_eq!(Backend::Ollama.probe_url(), "http://127.0.0.1:11434/api/tags");
}

#[test]
fn chat_model_pick_skips_embeddings() {
    let ids = vec!["nomic-embed-text".to_string(), "llama3".to_string(), "qwen".to_string()];
    assert_eq!(pick_chat_model(&ids).as_deref(), Some("llama3"));
    let only = vec!["bge-reranker".to_string()];
    assert_eq!(pick_chat_model(&only), None);
    let live = live_from_models("http://127.0.0.1:11434/", &ids);
    assert_eq!(live.url, "http://127.0.0.1:11434");
    assert_eq!(live.model.as_deref(), Some("llama3"));
    let h = live_from_health("http://127.0.0.1:8080");
    assert_eq!(h.model, None);
}
