use unhosted::paths::EnvVars;
use unhosted::voice::{
    check_ready_line, check_synthesis, check_upload, configured_path, has_reference, is_ready,
    needs_spawn, reference_path, render_verdict, voice_file, VoiceError, VoiceSetup,
};

#[test]
fn not_ready_without_config() {
    let setup = VoiceSetup {
        reference: Some("/h/.config/unhosted/voice/reference.wav".into()),
        engine_python: configured_path(None, false),
        worker_script: configured_path(Some(String::new()), true),
    };
    assert!(!is_ready(&setup, true));
    assert!(has_reference(&setup));
    assert_eq!(check_synthesis("hello", is_ready(&setup, true)), Err(VoiceError::NotReady));
}

#[test]
fn synthesis_rejects_empty_text() {
    assert_eq!(check_synthesis("   ", true), Err(VoiceError::EmptyText));
    assert_eq!(check_synthesis("hi", true), Ok(()));
    assert_eq!(check_upload(0), Err(VoiceError::EmptyUpload));
    assert_eq!(VoiceError::NotReady.message(), "voice not ready (sample/engine/worker missing)");
}

#[test]
fn ready_with_everything() {
    let setup = VoiceSetup {
        reference: Some("/r.wav".into()),
        engine_python: configured_path(Some("/venv/bin/python".into()), true),
        worker_script: configured_path(Some("/w/_xtts_say.py".into()), true),
    };
    assert!(is_ready(&setup, true));
    // With the persona disabled voice stays off, whatever is installed.
    assert!(!is_ready(&setup, false));
    assert_eq!(reference_path(&setup).map(|s| s.as_str()), Some("/r.wav"));
    let none = VoiceSetup { reference: None, engine_python: None, worker_script: None };
    assert!(!has_reference(&none));
}

#[test]
fn worker_protocol_lines() {
    assert!(check_ready_line("{\"ready\": true}\n").is_ok());
    assert_eq!(
        check_ready_line("  boom \n"),
        Err(VoiceError::WorkerNotReady("boom".into()))
    );
    assert!(render_verdict(Some(true), true, None).is_ok());
    assert_eq!(render_verdict(Some(true), false, None).unwrap_err().message(), "worker render failed: unknown");
    assert_eq!(render_verdict(None, true, Some("oom")), Err(VoiceError::RenderFailed("oom".into())));
    assert!(needs_spawn(false, false));
    assert!(needs_spawn(true, true));
    assert!(!needs_spawn(true, false));
}

#[test]
fn voice_files_live_under_config() {
    let env = EnvVars { xdg_config_home: Some("/x".into()), home: None, userprofile: None, homedrive: None, homepath: None };
    assert_eq!(voice_file(&env, "reference.wav").unwrap(), "/x/unhosted/voice/reference.wav");
}
