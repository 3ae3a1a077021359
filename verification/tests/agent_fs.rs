use unhosted::text::str_lt;
use unhosted::agent_fs::{
    canonicalize_error, check_policy, default_deny_patterns, default_max_bytes, entry_kind,
    finish_listing, finish_read, grep_precheck, is_same_path, is_strictly_under, lines_of,
    precheck, read_plan, refuses_symlink, require_directory, AgentFsConfig, AgentFsConfigRaw, DirEntry,
    EntryAction, FileKind, GrepOutcome, GrepWalk, ListDirOutcome, ReadFileError,
    ReadFileOutcome, LIST_DIR_MAX_ENTRIES,
};

fn cfg(roots: Vec<&str>) -> AgentFsConfig {
    AgentFsConfig::seal(
        AgentFsConfigRaw {
            allow_roots: vec![],
            deny_patterns: default_deny_patterns(),
            max_bytes: 1024,
            follow_symlinks: false,
        },
        roots.into_iter().map(|r| r.to_string()).collect(),
    )
}

#[test]
fn precheck_refuses_missing_or_empty_config_and_relative_paths() {
    assert_eq!(precheck(None, "/etc/passwd"), Err(ReadFileError::NotConfigured));
    assert_eq!(precheck(Some(&cfg(vec![])), "/etc/passwd"), Err(ReadFileError::NotConfigured));
    assert_eq!(precheck(Some(&cfg(vec!["/srv"])), "notes.txt"), Err(ReadFileError::NotAbsolute));
    assert_eq!(precheck(Some(&cfg(vec!["/srv"])), "/srv/a"), Ok(()));
}

#[test]
fn strictly_under_respects_component_boundaries() {
    assert!(is_strictly_under("/a/foo/x.txt", "/a/foo"));
    assert!(!is_strictly_under("/a/foo2/x.txt", "/a/foo"));
    assert!(!is_strictly_under("/a/foo", "/a/foo"));
    assert!(!is_strictly_under("/a/foo/", "/a/foo"));
    assert!(is_strictly_under("/a//foo/./b", "/a/foo/"));
    assert!(is_same_path("/a/foo/", "/a//foo"));
    assert!(!is_same_path("/a/foo", "a/foo"));
}

#[test]
fn policy_checks_allow_list_then_deny_patterns() {
    let c = cfg(vec!["/home/u/project"]);
    assert_eq!(check_policy(&c, "/home/u/project/src/main.rs", false), Ok(()));
    assert_eq!(check_policy(&c, "/home/u/other/a.txt", false), Err(ReadFileError::OutsideAllowList));
    assert_eq!(check_policy(&c, "/home/u/project", false), Err(ReadFileError::OutsideAllowList));
    assert_eq!(check_policy(&c, "/home/u/project", true), Ok(()));
    assert_eq!(
        check_policy(&c, "/home/u/project/.env", false),
        Err(ReadFileError::DenyPattern(".env".into()))
    );
    assert_eq!(
        check_policy(&c, "/home/u/project/Config/SECRETS.txt", false),
        Err(ReadFileError::DenyPattern("secrets".into()))
    );
    assert_eq!(
        ReadFileError::DenyPattern(".env".into()).label(),
        "path matches deny pattern '.env'"
    );
    assert_eq!(ReadFileError::Io("boom".into()).label(), "io: boom");
}

#[test]
fn read_plan_and_decoding() {
    assert_eq!(read_plan(2048, 1024), (1024, true));
    assert_eq!(read_plan(12, 1024), (12, false));
    assert_eq!(default_max_bytes(), 524_288);
    match finish_read(b"hello, agent".to_vec(), false) {
        ReadFileOutcome::Success { content, bytes_read, truncated } => {
            assert_eq!(content, "hello, agent");
            assert_eq!(bytes_read, 12);
            assert!(!truncated);
        }
        other => panic!("expected content, got {other:?}"),
    }
    assert_eq!(finish_read(vec![0xff, 0xfe, 0x00], false), ReadFileOutcome::Failure(ReadFileError::NotUtf8));
    assert!(refuses_symlink(&cfg(vec!["/a"]), true));
    assert_eq!(canonicalize_error(true, "x".into()), ReadFileError::NotFound);
    assert_eq!(canonicalize_error(false, "x".into()), ReadFileError::Io("x".into()));
}

#[test]
fn listing_is_sorted_and_capped() {
    let raw = vec![
        DirEntry { name: "z.txt".into(), kind: entry_kind(false, true, false), size: 1 },
        DirEntry { name: "sub".into(), kind: entry_kind(true, false, false), size: 0 },
        DirEntry { name: "a.txt".into(), kind: "file", size: 1 },
        DirEntry { name: "m.txt".into(), kind: "file", size: 1 },
    ];
    match finish_listing(raw) {
        ListDirOutcome::Success { entries, truncated } => {
            let names: Vec<&str> = entries.iter().map(|e| e.name.as_str()).collect();
            assert_eq!(names, vec!["a.txt", "m.txt", "sub", "z.txt"]);
            assert!(!truncated);
            assert_eq!(entries[2].kind, "dir");
        }
        other => panic!("unexpected {other:?}"),
    }
    let many: Vec<DirEntry> = (0..LIST_DIR_MAX_ENTRIES + 10)
        .map(|i| DirEntry { name: format!("f{i:04}"), kind: "file", size: 0 })
        .rev()
        .collect();
    match finish_listing(many) {
        ListDirOutcome::Success { entries, truncated } => {
            assert!(truncated);
            assert_eq!(entries.len(), LIST_DIR_MAX_ENTRIES);
            assert_eq!(entries[0].name, "f0010");
        }
        other => panic!("unexpected {other:?}"),
    }
    assert!(str_lt("a", "b"));
    assert!(str_lt("ab", "abc"));
    assert!(!str_lt("b", "B"));
    assert_eq!(entry_kind(false, false, true), "symlink");
    assert_eq!(entry_kind(false, false, false), "other");
}

#[test]
fn lines_follow_str_lines() {
    assert_eq!(lines_of("a\r\nb\n"), vec!["a".to_string(), "b".to_string()]);
    assert_eq!(lines_of(""), Vec::<String>::new());
    assert_eq!(lines_of("x\n\ny\r"), vec!["x".to_string(), "".to_string(), "y\r".to_string()]);
}

#[test]
fn grep_walk_finds_matches_with_line_numbers() {
    let c = cfg(vec!["/root"]);
    assert_eq!(grep_precheck(Some(&c), "/root", "").unwrap_err(), ReadFileError::Io("grep_files: pattern must not be empty".into()));
    assert_eq!(grep_precheck(Some(&c), "root", "x"), Err(ReadFileError::NotAbsolute));
    assert_eq!(grep_precheck(None, "/root", "x"), Err(ReadFileError::NotConfigured));
    let mut w = GrepWalk::start(&c, "/root".into(), "authenticate", false);
    assert_eq!(w.next_dir().as_deref(), Some("/root"));
    let file = FileKind { is_symlink: false, is_dir: false, is_file: true };
    let dir = FileKind { is_symlink: false, is_dir: true, is_file: false };
    let link = FileKind { is_symlink: true, is_dir: false, is_file: false };
    assert_eq!(w.on_entry(&c, "/root/a.rs".into(), Some(file), 10), EntryAction::Read);
    w.on_file_bytes("/root/a.rs", b"fn authenticate(user: &str) {\n  // TODO: implement\n}\n".to_vec());
    assert_eq!(w.on_entry(&c, "/root/.env".into(), Some(file), 10), EntryAction::Skip);
    assert_eq!(w.on_entry(&c, "/root/sub".into(), Some(dir), 0), EntryAction::Descend);
    assert_eq!(w.on_entry(&c, "/root/l".into(), Some(link), 0), EntryAction::Skip);
    assert_eq!(w.on_entry(&c, "/root/big".into(), Some(file), 2_000_000), EntryAction::Skip);
    assert_eq!(w.on_entry(&c, "/root/bin".into(), Some(file), 4), EntryAction::Read);
    w.on_file_bytes("/root/bin", vec![0xff, 0x00, 0xfe]);
    assert_eq!(w.next_dir().as_deref(), Some("/root/sub"));
    assert_eq!(w.on_entry(&c, "/root/sub/b.rs".into(), Some(file), 10), EntryAction::Read);
    w.on_file_bytes("/root/sub/b.rs", b"fn unrelated() {}\nfn authenticate_other() {}\n".to_vec());
    assert_eq!(w.next_dir(), None);
    match w.finish() {
        GrepOutcome::Success { matches, files_scanned, files_skipped, truncated } => {
            assert!(!truncated);
            assert_eq!(files_scanned, 2);
            assert_eq!(files_skipped, 4);
            assert_eq!(matches.len(), 2);
            assert_eq!(matches[0].line_number, 1);
            assert_eq!(matches[1].line_number, 2);
            assert_eq!(matches[1].path, "/root/sub/b.rs");
        }
        other => panic!("unexpected {other:?}"),
    }
}

#[test]
fn grep_walk_ignores_case_and_cuts_long_lines() {
    let c = cfg(vec!["/r"]);
    let mut w = GrepWalk::start(&c, "/r".into(), "NeEdLe", true);
    let long = format!("{}needle", "x".repeat(300));
    let file = FileKind { is_symlink: false, is_dir: false, is_file: true };
    assert_eq!(w.on_entry(&c, "/r/f".into(), Some(file), 10), EntryAction::Read);
    assert_eq!(w.pending.as_deref(), Some("/r/f"));
    w.on_file_bytes("/r/f", format!("A NEEDLE here\nnothing\n{long}").into_bytes());
    assert_eq!(w.matches.len(), 2);
    assert_eq!(w.matches[0].line, "A NEEDLE here");
    assert_eq!(w.matches[1].line_number, 3);
    assert_eq!(w.matches[1].line.chars().count(), 241);
    assert!(w.matches[1].line.ends_with('\u{2026}'));
}

#[test]
fn grep_walk_stops_at_match_cap() {
    let c = cfg(vec!["/r"]);
    let mut w = GrepWalk::start(&c, "/r".into(), "x", false);
    let text = "x\n".repeat(250);
    let f = FileKind { is_symlink: false, is_dir: false, is_file: true };
    assert_eq!(w.on_entry(&c, "/r/f".into(), Some(f), 500), EntryAction::Read);
    w.on_file_bytes("/r/f", text.into_bytes());
    assert_eq!(w.pending, None);
    assert_eq!(w.matches.len(), 200);
    assert!(w.truncated);
    let file = FileKind { is_symlink: false, is_dir: false, is_file: true };
    assert_eq!(w.on_entry(&c, "/r/g".into(), Some(file), 1), EntryAction::Stop);
}

// The file-system-facing tests below feed the checks and steps the values
// that the file system reports for the original scenarios.

const ROOT: &str = "/tmp/unhosted-td";

fn file_kind() -> FileKind {
    FileKind { is_symlink: false, is_dir: false, is_file: true }
}

fn dir_kind() -> FileKind {
    FileKind { is_symlink: false, is_dir: true, is_file: false }
}

#[test]
fn missing_config_returns_not_configured() {
    assert_eq!(precheck(None, "/etc/passwd"), Err(ReadFileError::NotConfigured));
}

#[test]
fn empty_allow_list_returns_not_configured() {
    assert_eq!(precheck(Some(&cfg(vec![])), "/etc/passwd"), Err(ReadFileError::NotConfigured));
}

#[test]
fn relative_path_rejected() {
    assert_eq!(precheck(Some(&cfg(vec![ROOT])), "notes.txt"), Err(ReadFileError::NotAbsolute));
}

#[test]
fn allowed_file_is_read() {
    let c = cfg(vec![ROOT]);
    let target = format!("{ROOT}/hello.txt");
    assert_eq!(precheck(Some(&c), &target), Ok(()));
    assert_eq!(check_policy(&c, &target, false), Ok(()));
    let (to_read, truncated) = read_plan(12, c.max_bytes);
    assert_eq!((to_read, truncated), (12, false));
    match finish_read(b"hello, agent".to_vec(), truncated) {
        ReadFileOutcome::Success { content, bytes_read, truncated } => {
            assert_eq!(content, "hello, agent");
            assert_eq!(bytes_read, 12);
            assert!(!truncated);
        }
        other => panic!("expected Ok, got {other:?}"),
    }
}

#[test]
fn file_outside_allowlist_rejected() {
    let c = cfg(vec![ROOT]);
    assert_eq!(
        check_policy(&c, "/tmp/unhosted-fs-test-outside-42", false),
        Err(ReadFileError::OutsideAllowList)
    );
}

#[test]
fn path_traversal_attempt_rejected_after_canonicalize() {
    // root/subdir/../../.. canonicalises to two levels above the root.
    let c = cfg(vec!["/tmp/a/b/td"]);
    let outcome = check_policy(&c, "/tmp/a", false);
    assert!(matches!(
        outcome,
        Err(ReadFileError::OutsideAllowList) | Err(ReadFileError::Io(_)) | Err(ReadFileError::NotFound)
    ));
}

#[test]
fn deny_pattern_blocks_env_file() {
    let c = cfg(vec![ROOT]);
    match check_policy(&c, &format!("{ROOT}/.env"), false) {
        Err(ReadFileError::DenyPattern(p)) => assert!(p.contains(".env")),
        other => panic!("expected DenyPattern, got {other:?}"),
    }
}

#[test]
fn deny_pattern_is_case_insensitive() {
    let c = cfg(vec![ROOT]);
    assert!(matches!(
        check_policy(&c, &format!("{ROOT}/Credentials"), false),
        Err(ReadFileError::DenyPattern(_))
    ));
}

#[test]
fn symlink_refused_by_default() {
    let c = cfg(vec![ROOT]);
    assert!(refuses_symlink(&c, true));
    assert!(!refuses_symlink(&c, false));
}

#[test]
fn symlink_followed_when_configured() {
    let c = AgentFsConfig::seal(
        AgentFsConfigRaw {
            allow_roots: vec![],
            deny_patterns: vec![],
            max_bytes: 1024,
            follow_symlinks: true,
        },
        vec![ROOT.to_string()],
    );
    assert!(!refuses_symlink(&c, true));
    assert_eq!(check_policy(&c, &format!("{ROOT}/target.txt"), false), Ok(()));
    match finish_read(b"content".to_vec(), false) {
        ReadFileOutcome::Success { content, .. } => assert_eq!(content, "content"),
        other => panic!("expected Ok, got {other:?}"),
    }
}

#[test]
fn truncation_at_max_bytes() {
    let c = cfg(vec![ROOT]);
    // A 2 KiB file under a 1 KiB cap.
    let (to_read, truncated) = read_plan(2048, c.max_bytes);
    assert_eq!(to_read, 1024);
    assert!(truncated);
    match finish_read(vec![b'a'; to_read], truncated) {
        ReadFileOutcome::Success { bytes_read, truncated, .. } => {
            assert_eq!(bytes_read, 1024);
            assert!(truncated);
        }
        other => panic!("expected Ok, got {other:?}"),
    }
}

#[test]
fn non_utf8_returns_not_utf8() {
    assert_eq!(
        finish_read(vec![0xFF, 0xFE, 0xFD, 0xFC], false),
        ReadFileOutcome::Failure(ReadFileError::NotUtf8)
    );
}

#[test]
fn list_dir_returns_sorted_entries() {
    let c = cfg(vec![ROOT]);
    assert_eq!(check_policy(&c, ROOT, true), Ok(()));
    assert_eq!(require_directory(true), Ok(()));
    let raw = vec![
        DirEntry { name: "z.txt".into(), kind: entry_kind(false, true, false), size: 1 },
        DirEntry { name: "a.txt".into(), kind: entry_kind(false, true, false), size: 1 },
        DirEntry { name: "m.txt".into(), kind: entry_kind(false, true, false), size: 1 },
        DirEntry { name: "sub".into(), kind: entry_kind(true, false, false), size: 0 },
    ];
    match finish_listing(raw) {
        ListDirOutcome::Success { entries, truncated } => {
            assert!(!truncated);
            let names: Vec<_> = entries.iter().map(|e| e.name.clone()).collect();
            assert_eq!(names, vec!["a.txt", "m.txt", "sub", "z.txt"]);
            let sub = entries.iter().find(|e| e.name == "sub").unwrap();
            assert_eq!(sub.kind, "dir");
            let a = entries.iter().find(|e| e.name == "a.txt").unwrap();
            assert_eq!(a.kind, "file");
            assert_eq!(a.size, 1);
        }
        other => panic!("expected Ok, got {other:?}"),
    }
}

#[test]
fn list_dir_rejects_path_outside_allowlist() {
    let c = cfg(vec![ROOT]);
    assert_eq!(check_policy(&c, "/tmp/unhosted-other", true), Err(ReadFileError::OutsideAllowList));
}

#[test]
fn list_dir_truncates_at_cap() {
    let raw: Vec<DirEntry> = (0..LIST_DIR_MAX_ENTRIES + 5)
        .map(|i| DirEntry { name: format!("file_{i:04}.txt"), kind: "file", size: 1 })
        .collect();
    match finish_listing(raw) {
        ListDirOutcome::Success { entries, truncated } => {
            assert!(truncated);
            assert_eq!(entries.len(), LIST_DIR_MAX_ENTRIES);
        }
        other => panic!("expected Ok, got {other:?}"),
    }
}

#[test]
fn list_dir_root_itself_is_listable() {
    let c = cfg(vec![ROOT]);
    assert_eq!(check_policy(&c, ROOT, true), Ok(()));
    let raw = vec![DirEntry { name: "inside.txt".into(), kind: "file", size: 1 }];
    match finish_listing(raw) {
        ListDirOutcome::Success { entries, .. } => {
            assert_eq!(entries.len(), 1);
            assert_eq!(entries[0].name, "inside.txt");
        }
        other => panic!("expected Ok, got {other:?}"),
    }
}

#[test]
fn list_dir_on_file_returns_error() {
    let c = cfg(vec![ROOT]);
    assert_eq!(check_policy(&c, &format!("{ROOT}/not-a-dir.txt"), true), Ok(()));
    match require_directory(false) {
        Err(ReadFileError::Io(msg)) => assert!(msg.contains("not a directory")),
        other => panic!("expected Io(not a directory), got {other:?}"),
    }
}

#[test]
fn list_dir_missing_config_returns_not_configured() {
    assert_eq!(precheck(None, "/tmp"), Err(ReadFileError::NotConfigured));
}

#[test]
fn grep_finds_matches_with_line_numbers() {
    let c = cfg(vec![ROOT]);
    assert_eq!(grep_precheck(Some(&c), ROOT, "authenticate"), Ok(()));
    assert_eq!(check_policy(&c, ROOT, true), Ok(()));
    let mut w = GrepWalk::start(&c, ROOT.into(), "authenticate", false);
    assert_eq!(w.next_dir().as_deref(), Some(ROOT));
    let a = format!("{ROOT}/a.rs");
    let b = format!("{ROOT}/b.rs");
    assert_eq!(w.on_entry(&c, a.clone(), Some(file_kind()), 44), EntryAction::Read);
    w.on_file_bytes(&a, b"fn authenticate(user: &str) {\n  // TODO: implement\n}\n".to_vec());
    assert_eq!(w.on_entry(&c, b.clone(), Some(file_kind()), 45), EntryAction::Read);
    w.on_file_bytes(&b, b"fn unrelated() {}\nfn authenticate_other() {}\n".to_vec());
    assert_eq!(w.next_dir(), None);
    match w.finish() {
        GrepOutcome::Success { matches, files_scanned, files_skipped, truncated } => {
            assert!(!truncated);
            assert_eq!(files_scanned, 2);
            assert_eq!(files_skipped, 0);
            assert_eq!(matches.len(), 2);
            let a = matches.iter().find(|m| m.path.ends_with("a.rs")).unwrap();
            assert_eq!(a.line_number, 1);
            assert!(a.line.contains("authenticate"));
            let b = matches.iter().find(|m| m.path.ends_with("b.rs")).unwrap();
            assert_eq!(b.line_number, 2);
        }
        other => panic!("expected Ok, got {other:?}"),
    }
}

#[test]
fn grep_case_insensitive_matches_mixed_case() {
    let c = cfg(vec![ROOT]);
    let mut w = GrepWalk::start(&c, ROOT.into(), "todo", true);
    assert_eq!(w.next_dir().as_deref(), Some(ROOT));
    let notes = format!("{ROOT}/notes.txt");
    assert_eq!(w.on_entry(&c, notes.clone(), Some(file_kind()), 40), EntryAction::Read);
    w.on_file_bytes(&notes, b"TODO: ship the thing\ntodo: review later\n".to_vec());
    match w.finish() {
        GrepOutcome::Success { matches, .. } => assert_eq!(matches.len(), 2),
        other => panic!("expected Ok, got {other:?}"),
    }
}

#[test]
fn grep_walks_subdirs() {
    let c = cfg(vec![ROOT]);
    let mut w = GrepWalk::start(&c, ROOT.into(), "find_me", false);
    assert_eq!(w.next_dir().as_deref(), Some(ROOT));
    let sub = format!("{ROOT}/sub");
    assert_eq!(w.on_entry(&c, sub.clone(), Some(dir_kind()), 0), EntryAction::Descend);
    assert_eq!(w.next_dir().as_deref(), Some(sub.as_str()));
    let nested = format!("{sub}/nested.rs");
    assert_eq!(w.on_entry(&c, nested.clone(), Some(file_kind()), 15), EntryAction::Read);
    w.on_file_bytes(&nested, b"fn find_me() {}".to_vec());
    assert_eq!(w.next_dir(), None);
    match w.finish() {
        GrepOutcome::Success { matches, .. } => {
            assert_eq!(matches.len(), 1);
            assert!(matches[0].path.contains("nested.rs"));
        }
        other => panic!("expected Ok, got {other:?}"),
    }
}

#[test]
fn grep_respects_deny_pattern_on_files() {
    let c = cfg(vec![ROOT]);
    let mut w = GrepWalk::start(&c, ROOT.into(), "findthis", false);
    assert_eq!(w.next_dir().as_deref(), Some(ROOT));
    assert_eq!(w.on_entry(&c, format!("{ROOT}/.env"), Some(file_kind()), 16), EntryAction::Skip);
    let safe = format!("{ROOT}/safe.txt");
    assert_eq!(w.on_entry(&c, safe.clone(), Some(file_kind()), 8), EntryAction::Read);
    w.on_file_bytes(&safe, b"findthis".to_vec());
    match w.finish() {
        GrepOutcome::Success { matches, files_skipped, .. } => {
            assert_eq!(matches.len(), 1);
            assert!(matches[0].path.ends_with("safe.txt"));
            assert!(files_skipped >= 1, ".env should have been skipped");
        }
        other => panic!("expected Ok, got {other:?}"),
    }
}

#[test]
fn grep_outside_allowlist_rejected() {
    let c = cfg(vec![ROOT]);
    assert_eq!(grep_precheck(Some(&c), "/tmp/unhosted-other", "something"), Ok(()));
    assert_eq!(check_policy(&c, "/tmp/unhosted-other", true), Err(ReadFileError::OutsideAllowList));
}

#[test]
fn grep_empty_pattern_rejected() {
    let c = cfg(vec![ROOT]);
    assert!(matches!(grep_precheck(Some(&c), ROOT, ""), Err(ReadFileError::Io(_))));
}

#[test]
fn grep_skips_binary_files() {
    let c = cfg(vec![ROOT]);
    let mut w = GrepWalk::start(&c, ROOT.into(), "hello", false);
    assert_eq!(w.next_dir().as_deref(), Some(ROOT));
    let bin = format!("{ROOT}/binary.bin");
    assert_eq!(w.on_entry(&c, bin.clone(), Some(file_kind()), 64), EntryAction::Read);
    w.on_file_bytes(&bin, vec![0xFF; 64]);
    let text = format!("{ROOT}/text.txt");
    assert_eq!(w.on_entry(&c, text.clone(), Some(file_kind()), 11), EntryAction::Read);
    w.on_file_bytes(&text, b"hello world".to_vec());
    match w.finish() {
        GrepOutcome::Success { matches, files_scanned, files_skipped, .. } => {
            assert_eq!(matches.len(), 1);
            assert_eq!(files_scanned, 1);
            assert!(files_skipped >= 1);
        }
        other => panic!("expected Ok, got {other:?}"),
    }
}

#[test]
fn grep_long_lines_get_truncated_in_match() {
    let c = cfg(vec![ROOT]);
    let long_line: String = std::iter::repeat('x').take(500).collect();
    let mut w = GrepWalk::start(&c, ROOT.into(), "xxx", false);
    assert_eq!(w.next_dir().as_deref(), Some(ROOT));
    let long = format!("{ROOT}/long.txt");
    assert_eq!(w.on_entry(&c, long.clone(), Some(file_kind()), 500), EntryAction::Read);
    w.on_file_bytes(&long, long_line.into_bytes());
    match w.finish() {
        GrepOutcome::Success { matches, .. } => {
            assert_eq!(matches.len(), 1);
            assert!(matches[0].line.chars().count() <= 241);
            assert!(matches[0].line.ends_with('\u{2026}'));
        }
        other => panic!("expected Ok, got {other:?}"),
    }
}

#[test]
fn grep_missing_config_returns_not_configured() {
    assert_eq!(grep_precheck(None, "/tmp", "x"), Err(ReadFileError::NotConfigured));
}

#[test]
fn boundary_sibling_with_shared_prefix_is_rejected() {
    let c = cfg(vec!["/tmp/unhosted-td/foo"]);
    assert_eq!(
        check_policy(&c, "/tmp/unhosted-td/foo2/secret.txt", false),
        Err(ReadFileError::OutsideAllowList)
    );
}

#[test]
fn entries_from_file_types_keep_sizes_for_files_only() {
    let file = DirEntry::from_file_type("a.txt".into(), Some(file_kind()), 12);
    assert_eq!((file.kind, file.size), ("file", 12));
    let dir = DirEntry::from_file_type("sub".into(), Some(dir_kind()), 4096);
    assert_eq!((dir.kind, dir.size), ("dir", 0));
    let link = FileKind { is_symlink: true, is_dir: false, is_file: false };
    let l = DirEntry::from_file_type("l".into(), Some(link), 7);
    assert_eq!((l.kind, l.size), ("symlink", 0));
    let unknown = DirEntry::from_file_type("?".into(), None, 7);
    assert_eq!((unknown.kind, unknown.size), ("other", 0));
}

#[test]
fn refusal_labels_never_collide() {
    let errors = vec![
        ReadFileError::NotConfigured,
        ReadFileError::NotAbsolute,
        ReadFileError::OutsideAllowList,
        ReadFileError::DenyPattern(".env".into()),
        ReadFileError::DenyPattern(".pem".into()),
        ReadFileError::SymlinkRefused,
        ReadFileError::NotFound,
        ReadFileError::NotUtf8,
        ReadFileError::Io("file not found".into()),
        ReadFileError::Io("".into()),
    ];
    for (i, a) in errors.iter().enumerate() {
        for (j, b) in errors.iter().enumerate() {
            assert_eq!(i == j, a.label() == b.label(), "{a:?} vs {b:?}");
        }
    }
}
