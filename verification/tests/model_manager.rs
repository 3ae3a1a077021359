use unhosted::model_manager::{
    catalog, catalog_snapshot, check_complete, check_digest, check_range_response, chunk_count,
    chunk_range, expected_digest, load_check, LoadRefusal, is_gguf_file_name, lmstudio_models_dir,
    merge_installed, models_dir, part_file_name, prepare_download, range_header, resume_point,
    runtime_port, safe_model_filename, size_from_probe, validate_download_url, DownloadError,
    DownloadSource, DownloadState, FileNameError, InstalledModel, InstalledSource, ModelState,
    RuntimeState, StartDownloadError, UrlError,
};
use unhosted::paths::EnvVars;
use unhosted::swarm::is_valid_digest;

#[test]
fn safe_filename_accepts_normal_gguf() {
    assert_eq!(
        safe_model_filename("Llama-3.2-1B-Instruct-Q4_K_M.gguf").unwrap(),
        "Llama-3.2-1B-Instruct-Q4_K_M.gguf"
    );
}

#[test]
fn safe_filename_rejects_traversal_and_paths() {
    assert!(safe_model_filename("../etc/passwd.gguf").is_err());
    assert!(safe_model_filename("/abs/path.gguf").is_err());
    assert!(safe_model_filename("a\\b.gguf").is_err());
    assert!(safe_model_filename("..gguf").is_err());
}

#[test]
fn safe_filename_rejects_non_gguf_and_hidden() {
    assert!(safe_model_filename("model.bin").is_err());
    assert!(safe_model_filename(".hidden.gguf").is_err());
    assert!(safe_model_filename("").is_err());
}

#[test]
fn safe_filename_trims_and_reports_why() {
    assert_eq!(safe_model_filename("  x.GGUF \n").unwrap(), "x.GGUF");
    assert_eq!(safe_model_filename("   ").unwrap_err(), FileNameError::Length);
    let long = format!("{}.gguf", "a".repeat(251));
    assert_eq!(safe_model_filename(&long).unwrap_err(), FileNameError::Length);
    let fits = format!("{}.gguf", "a".repeat(250));
    assert!(safe_model_filename(&fits).is_ok());
    let wide = format!("{}.gguf", "\u{e9}".repeat(126));
    assert_eq!(safe_model_filename(&wide).unwrap_err(), FileNameError::Length);
    assert_eq!(safe_model_filename("a/b.gguf").unwrap_err(), FileNameError::NotBare);
    assert_eq!(safe_model_filename(".x.gguf").unwrap_err(), FileNameError::Hidden);
    assert_eq!(safe_model_filename("x.bin").unwrap_err(), FileNameError::NotGguf);
    assert_eq!(FileNameError::NotGguf.message(), "model file name must end with .gguf");
}

#[test]
fn download_url_must_be_https_huggingface_gguf() {
    assert!(validate_download_url(
        "https://huggingface.co/bartowski/x-GGUF/resolve/main/x-Q4_K_M.gguf"
    )
    .is_ok());
    assert!(validate_download_url("http://huggingface.co/x.gguf").is_err());
    assert!(validate_download_url("https://example.com/x.gguf").is_err());
    assert!(validate_download_url("https://huggingface.co/x.bin").is_err());
}

#[test]
fn download_url_errors_name_the_rule() {
    assert_eq!(validate_download_url("not a url"), Err(UrlError::Invalid));
    assert_eq!(validate_download_url("http://huggingface.co/x.gguf"), Err(UrlError::NotHttps));
    assert_eq!(
        validate_download_url("https://evilhuggingface.co/x.gguf"),
        Err(UrlError::NotHuggingFace)
    );
    assert_eq!(validate_download_url("https://cdn.huggingface.co/X.GGUF?q=1"), Ok(()));
    assert_eq!(validate_download_url("https://huggingface.co/x.bin"), Err(UrlError::NotGguf));
    assert_eq!(UrlError::NotHttps.message(), "download URL must be https");
}

#[test]
fn catalog_entries_are_consistent() {
    let mut ids = std::collections::HashSet::new();
    for e in catalog() {
        assert!(ids.insert(e.id), "duplicate catalog id {}", e.id);
        assert!(validate_download_url(e.url).is_ok(), "bad url for {}", e.id);
        assert!(safe_model_filename(e.file).is_ok(), "bad file for {}", e.id);
        assert!(e.size_bytes > 100_000_000, "implausible size for {}", e.id);
        if let Some(d) = e.sha256 {
            assert!(is_valid_digest(d), "malformed sha256 digest for {}: {d}", e.id);
        }
    }
}

#[test]
fn download_source_defaults_to_origin() {
    assert_eq!(DownloadSource::default(), DownloadSource::Origin);
}

#[test]
fn runtime_port_follows_loopback_upstream() {
    assert_eq!(runtime_port("http://127.0.0.1:8080"), 8080);
    assert_eq!(runtime_port("http://127.0.0.1:9090"), 9090);
    assert_eq!(runtime_port("http://localhost:8081"), 8081);
    assert_eq!(runtime_port("http://192.168.1.20:8080"), 8080);
    assert_eq!(runtime_port("not a url"), 8080);
    assert_eq!(runtime_port("http://localhost"), 80);
}

fn model(file: &str, size: u64, modified: u64, source: InstalledSource) -> InstalledModel {
    InstalledModel { file: file.into(), size_bytes: size, modified_unix: modified, source }
}

#[test]
fn merge_installed_prefers_library_on_name_collision() {
    let lib = vec![model("a.gguf", 1, 10, InstalledSource::Library)];
    let discovered = vec![
        model("a.gguf", 2, 99, InstalledSource::LmStudio),
        model("b.gguf", 3, 50, InstalledSource::LmStudio),
    ];
    let merged = merge_installed(lib, discovered);
    assert_eq!(merged.len(), 2);
    let a = merged.iter().find(|m| m.file == "a.gguf").unwrap();
    assert_eq!(a.source, InstalledSource::Library);
    assert_eq!(merged[0].file, "b.gguf");
}

#[test]
fn merge_is_stable_and_drops_repeated_discoveries() {
    let lib = vec![
        model("x.gguf", 1, 5, InstalledSource::Library),
        model("y.gguf", 1, 5, InstalledSource::Library),
    ];
    let discovered = vec![
        model("z.gguf", 1, 5, InstalledSource::LmStudio),
        model("z.gguf", 9, 7, InstalledSource::LmStudio),
        model("w.gguf", 1, 1, InstalledSource::LmStudio),
    ];
    let merged = merge_installed(lib, discovered);
    let names: Vec<&str> = merged.iter().map(|m| m.file.as_str()).collect();
    assert_eq!(names, vec!["x.gguf", "y.gguf", "z.gguf", "w.gguf"]);
    assert_eq!(merged[2].size_bytes, 1);
}

#[test]
fn download_slot_is_one_at_a_time() {
    let mut s = ModelState::new();
    assert!(s.cancel_download().is_err());
    assert!(s.begin_download("a.gguf", 0, DownloadSource::Origin).is_ok());
    assert_eq!(
        s.begin_download("b.gguf", 0, DownloadSource::Lan).unwrap_err(),
        "another download is already running \u{2014} one at a time"
    );
    s.report_external_progress("b.gguf", 5, 10, DownloadSource::Lan);
    match &s.download {
        DownloadState::Downloading { file, bytes_done, .. } => {
            assert_eq!(file, "a.gguf");
            assert_eq!(*bytes_done, 0);
        }
        _ => panic!("expected a download"),
    }
    s.report_external_progress("a.gguf", 5, 10, DownloadSource::Peer);
    match &s.download {
        DownloadState::Downloading { bytes_done, bytes_total, source, .. } => {
            assert_eq!((*bytes_done, *bytes_total, *source), (5, 10, DownloadSource::Peer));
        }
        _ => panic!("expected a download"),
    }
    assert_eq!(s.cancel_download().unwrap(), "a.gguf");
    assert!(matches!(s.download, DownloadState::Idle));
    s.set_progress("c.gguf", 1, 2);
    s.finish_download("c.gguf", Some("boom".into()));
    match &s.download {
        DownloadState::Failed { file, error } => {
            assert_eq!(file, "c.gguf");
            assert_eq!(error, "boom");
        }
        _ => panic!("expected failure"),
    }
}

#[test]
fn runtime_supervision_transitions() {
    let mut s = ModelState::new();
    s.mark_starting("m.gguf", 8080);
    assert!(s.still_starting("m.gguf", 8080));
    assert!(!s.still_starting("m.gguf", 8081));
    assert!(s.check_deletable("m.gguf").is_err());
    assert!(s.check_deletable("n.gguf").is_ok());
    s.mark_healthy("other.gguf", 8080);
    assert!(matches!(s.runtime, RuntimeState::Starting { .. }));
    s.mark_healthy("m.gguf", 8080);
    assert!(matches!(s.runtime, RuntimeState::Running { .. }));
    assert_eq!(
        s.check_deletable("m.gguf").unwrap_err(),
        "m.gguf is loaded \u{2014} unload it before deleting"
    );
    s.child_exited("signal: 9");
    match &s.runtime {
        RuntimeState::Failed { error } => assert_eq!(error, "llama-server exited (signal: 9)"),
        _ => panic!("expected failure"),
    }
    s.mark_starting("m.gguf", 8080);
    s.startup_exit("m.gguf", "exit status: 1");
    match &s.runtime {
        RuntimeState::Failed { error } => assert_eq!(
            error,
            "llama-server exited during startup (exit status: 1) \u{2014} likely not enough memory for m.gguf"
        ),
        _ => panic!("expected failure"),
    }
    s.startup_timeout();
    s.unload();
    assert!(matches!(s.runtime, RuntimeState::Idle));
}

#[test]
fn chunk_plan_covers_the_file() {
    let c = 4 * 1024 * 1024u64;
    assert_eq!(chunk_count(1), 1);
    assert_eq!(chunk_count(c), 1);
    assert_eq!(chunk_count(c + 1), 2);
    assert_eq!(chunk_range(0, c + 1), (0, c - 1));
    assert_eq!(chunk_range(1, c + 1), (c, c));
    assert_eq!(resume_point(c * 2 + 17), (2, c * 2));
    assert_eq!(resume_point(5), (0, 0));
    assert_eq!(range_header(0, 4194303), "bytes=0-4194303");
}

#[test]
fn download_checks_give_exact_errors() {
    assert!(matches!(size_from_probe(false, "404 Not Found", None), Err(DownloadError::SizeProbeStatus { .. })));
    assert!(matches!(size_from_probe(true, "200 OK", None), Err(DownloadError::NoContentLength)));
    assert!(matches!(size_from_probe(true, "200 OK", Some(0)), Err(DownloadError::ZeroSize)));
    assert_eq!(size_from_probe(true, "200 OK", Some(7)).unwrap(), 7);
    assert!(matches!(check_range_response(200, "200 OK", 10, 0, 9), Err(DownloadError::RangeIgnored)));
    let e = check_range_response(206, "206 Partial Content", 3, 0, 9).unwrap_err();
    assert_eq!(e.message(), "range returned 3 bytes, expected 10");
    let e = check_range_response(500, "500 Internal Server Error", 10, 0, 9).unwrap_err();
    assert_eq!(e.message(), "hub answered 500 Internal Server Error to range request");
    assert!(check_range_response(206, "206 Partial Content", 10, 0, 9).is_ok());
    assert_eq!(check_complete(3, 9).unwrap_err().message(), "download truncated: got 3 of 9 bytes");
    assert!(check_complete(9, 9).is_ok());
    assert!(check_digest("sha256:aa", None).is_ok());
    assert!(check_digest("sha256:aa", Some("sha256:aa")).is_ok());
    assert_eq!(
        check_digest("sha256:aa", Some("sha256:bb")).unwrap_err().message(),
        "integrity check failed: downloaded sha256:aa but expected sha256:bb"
    );
    assert_eq!(part_file_name("m.gguf"), "m.gguf.part");
}

#[test]
fn prepare_download_checks_url_then_name_and_finds_pin() {
    let helmsman = "https://huggingface.co/sinhaankur/helmsman-4b/resolve/main/helmsman-4b-Q4_K_M.gguf";
    let (file, digest) = prepare_download(helmsman, "helmsman-4b-Q4_K_M.gguf").unwrap();
    assert_eq!(file, "helmsman-4b-Q4_K_M.gguf");
    assert_eq!(
        digest.as_deref(),
        Some("sha256:3c81246dbde3ffaeeca5d490c38739343d68630281731c557d11620318331bcd")
    );
    assert_eq!(expected_digest("https://huggingface.co/x/y.gguf"), None);
    assert!(matches!(prepare_download("http://x/y.gguf", "../a"), Err(StartDownloadError::Url(UrlError::NotHttps))));
    assert!(matches!(
        prepare_download(helmsman, "../a"),
        Err(StartDownloadError::FileName(FileNameError::NotBare))
    ));
}

#[test]
fn paths_and_snapshot() {
    let env = EnvVars {
        xdg_config_home: None,
        home: Some("/home/u".into()),
        userprofile: None,
        homedrive: None,
        homepath: None,
    };
    assert_eq!(models_dir(&env).unwrap(), "/home/u/.cache/unhosted/models");
    assert_eq!(lmstudio_models_dir(&env).unwrap(), "/home/u/.lmstudio/models");
    let nobody = EnvVars { home: Some(String::new()), ..env.clone() };
    assert!(models_dir(&nobody).is_err());
    assert_eq!(lmstudio_models_dir(&nobody), None);
    assert!(is_gguf_file_name("b.GGUF"));
    assert!(!is_gguf_file_name("d.gguf.part"));
    let installed = vec![model("gemma-2-2b-it-Q4_K_M.gguf", 1, 1, InstalledSource::Library)];
    let snap = catalog_snapshot(&installed);
    assert_eq!(snap.len(), 8);
    assert!(snap[1].installed);
    assert!(!snap[0].installed);
}

use unhosted::model_manager::{installed_from, search_dirs, FileEntry};

fn entry(name: &str, is_file: bool, mtime: u64) -> FileEntry {
    FileEntry { name: name.into(), is_file, size_bytes: 10, modified_unix: mtime }
}

#[test]
fn listings_keep_gguf_files_newest_first() {
    let found = installed_from(
        vec![
            entry("a.gguf", true, 10),
            entry("notes.txt", true, 99),
            entry("B.GGUF", true, 30),
            entry("dir.gguf", false, 50),
            entry("c.gguf", true, 10),
        ],
        InstalledSource::LmStudio,
    );
    let names: Vec<&str> = found.iter().map(|m| m.file.as_str()).collect();
    assert_eq!(names, vec!["B.GGUF", "a.gguf", "c.gguf"]);
    assert!(found.iter().all(|m| m.source == InstalledSource::LmStudio));
}

#[test]
fn lmstudio_lookup_order() {
    let tree = vec![
        ("/r/pubA".to_string(), vec!["/r/pubA/m1".to_string(), "/r/pubA/m2".to_string()]),
        ("/r/pubB".to_string(), vec![]),
    ];
    assert_eq!(
        search_dirs("/r", &tree),
        vec!["/r", "/r/pubA/m1", "/r/pubA/m2", "/r/pubA", "/r/pubB"]
    );
}

#[test]
fn load_refusals_come_in_order() {
    let ok = load_check(
        safe_model_filename("llama.gguf"),
        Some("/m/llama.gguf".into()),
        Some("/usr/bin/llama-server".into()),
        false,
        false,
        8081,
    );
    assert_eq!(
        ok,
        Ok(("llama.gguf".to_string(), "/m/llama.gguf".to_string(), "/usr/bin/llama-server".to_string()))
    );
    let missing = load_check(safe_model_filename("nope.gguf"), None, None, false, false, 8081).unwrap_err();
    assert_eq!(missing, LoadRefusal::NotInLibrary("nope.gguf".into()));
    assert_eq!(missing.message(), "nope.gguf is not in the library or LM Studio's models folder");
    let no_bin = load_check(safe_model_filename("a.gguf"), Some("/m/a.gguf".into()), None, false, true, 8081);
    assert_eq!(no_bin, Err(LoadRefusal::NoLlamaServer));
    let busy = load_check(
        safe_model_filename("a.gguf"),
        Some("/m/a.gguf".into()),
        Some("/b".into()),
        false,
        true,
        8081,
    )
    .unwrap_err();
    assert_eq!(busy.message(), "port 8081 is already in use by another server \u{2014} stop it first, or point UNHOSTED_LLAMA_SERVER_URL elsewhere");
    // Our own child on the port is replaced, not refused.
    assert!(load_check(safe_model_filename("a.gguf"), Some("/m/a.gguf".into()), Some("/b".into()), true, true, 8081).is_ok());
    assert!(matches!(
        load_check(safe_model_filename("../x.gguf"), None, None, false, false, 1),
        Err(LoadRefusal::BadName(_))
    ));
}
