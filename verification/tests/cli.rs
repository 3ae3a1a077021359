use unhosted::cli::{
    distill_script, distill_script_candidates, file_name_from_url, model_cache_dir,
    progress_percent, progress_step, pull_models, python_executable, resolve_pull, DistillStep,
};

#[test]
fn python_interpreter_choice() {
    assert_eq!(python_executable(Some("/venv/bin/python".into()), Some("py".into())), "/venv/bin/python");
    assert_eq!(python_executable(Some("".into()), Some("py".into())), "py");
    assert_eq!(python_executable(None, Some("".into())), "python3");
    assert_eq!(python_executable(None, None), "python3");
}

#[test]
fn distillation_scripts_and_where_to_find_them() {
    assert_eq!(distill_script(DistillStep::Data), "gen_data.py");
    assert_eq!(distill_script(DistillStep::Push), "push_to_hub.py");
    assert_eq!(
        distill_script_candidates(Some("/opt/d/".into()), Some("/usr/bin".into()), "train.py"),
        vec![
            "/opt/d/train.py".to_string(),
            "models/distill/train.py".to_string(),
            "/usr/bin/../share/unhosted/distill/train.py".to_string(),
        ]
    );
    assert_eq!(distill_script_candidates(None, None, "eval.py"), vec!["models/distill/eval.py".to_string()]);
}

#[test]
fn pulled_models_live_in_the_cache() {
    assert_eq!(model_cache_dir(Some("/home/u".into())), Some("/home/u/.cache/unhosted/models".to_string()));
    assert_eq!(model_cache_dir(None), None);
}

#[test]
fn pull_specs_resolve_to_urls() {
    let (url, size) = resolve_pull("qwen2.5:0.5b").unwrap();
    assert!(url.ends_with("Qwen2.5-0.5B-Instruct-Q4_K_M.gguf"));
    assert_eq!(size, 400_000_000);
    assert_eq!(resolve_pull("https://x.example/m.gguf"), Some(("https://x.example/m.gguf".to_string(), 0)));
    assert_eq!(resolve_pull("nope:1b"), None);
    assert_eq!(pull_models().len(), 5);
}

#[test]
fn cache_file_names_come_from_the_url() {
    assert_eq!(file_name_from_url("https://h/a/b/model.gguf"), Some("model.gguf".to_string()));
    assert_eq!(file_name_from_url("https://h/a/"), None);
    assert_eq!(file_name_from_url("plain"), Some("plain".to_string()));
}

#[test]
fn download_progress() {
    assert_eq!(progress_step(0), 1_000_000);
    assert_eq!(progress_step(4_000_000_000), 40_000_000);
    assert_eq!(progress_percent(50, 200), Some(25));
    assert_eq!(progress_percent(5, 0), None);
    assert_eq!(progress_percent(u64::MAX, 10), None);
}
