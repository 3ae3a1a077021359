use unhosted::agent::{
    build_system_prompt, hex_prefix, known_tools, new_run_id, now_iso8601, seconds_to_iso8601,
    short_hash, AgentRunRequest, RunClock, DEFAULT_MAX_SECONDS, DEFAULT_MAX_STEPS,
    DEFAULT_MAX_TOKENS, DEFAULT_MAX_TOOL_CALLS_PER_STEP, HARD_MAX_SECONDS, HARD_MAX_STEPS,
    HARD_MAX_TOKENS, HARD_MAX_TOOL_CALLS_PER_STEP,
};

#[test]
fn clamp_clamps_above_hard_limit() {
    let req = AgentRunRequest {
        goal: "x".into(),
        tools: vec![],
        max_steps: 9_999,
        max_tokens: 1_000_000,
        max_seconds: 100_000,
        max_tool_calls_per_step: 999,
        model: "auto".into(),
    }
    .clamped();
    assert_eq!(req.max_steps, HARD_MAX_STEPS);
    assert_eq!(req.max_tokens, HARD_MAX_TOKENS);
    assert_eq!(req.max_seconds, HARD_MAX_SECONDS);
    assert_eq!(req.max_tool_calls_per_step, HARD_MAX_TOOL_CALLS_PER_STEP);
}

#[test]
fn clamp_floors_at_one_for_safety() {
    let req = AgentRunRequest {
        goal: "x".into(),
        tools: vec![],
        max_steps: 0,
        max_tokens: 0,
        max_seconds: 0,
        max_tool_calls_per_step: 0,
        model: "auto".into(),
    }
    .clamped();
    assert_eq!(req.max_steps, 1);
    assert!(req.max_tokens >= 64);
    assert_eq!(req.max_seconds, 1);
    assert_eq!(req.max_tool_calls_per_step, 1);
}

#[test]
fn clamp_keeps_defaults_unchanged() {
    let req = AgentRunRequest {
        goal: "x".into(),
        tools: vec![],
        max_steps: DEFAULT_MAX_STEPS,
        max_tokens: DEFAULT_MAX_TOKENS,
        max_seconds: DEFAULT_MAX_SECONDS,
        max_tool_calls_per_step: DEFAULT_MAX_TOOL_CALLS_PER_STEP,
        model: "auto".into(),
    }
    .clamped();
    assert_eq!(req.max_steps, DEFAULT_MAX_STEPS);
    assert_eq!(req.max_tokens, DEFAULT_MAX_TOKENS);
    assert_eq!(req.max_seconds, DEFAULT_MAX_SECONDS);
    assert_eq!(req.max_tool_calls_per_step, DEFAULT_MAX_TOOL_CALLS_PER_STEP);
}

#[test]
fn clamp_twice_is_clamp_once() {
    let req = AgentRunRequest {
        goal: "x".into(),
        tools: vec![],
        max_steps: 40,
        max_tokens: 10,
        max_seconds: 7,
        max_tool_calls_per_step: 3,
        model: "auto".into(),
    }
    .clamped();
    assert_eq!((req.max_steps, req.max_tokens, req.max_seconds), (32, 64, 7));
    let again = req.clone().clamped();
    assert_eq!(again.max_steps, req.max_steps);
    assert_eq!(again.max_tokens, req.max_tokens);
    assert_eq!(again.max_seconds, req.max_seconds);
    assert_eq!(again.max_tool_calls_per_step, req.max_tool_calls_per_step);
}

#[test]
fn known_tools_includes_slice_1_set() {
    let t = known_tools();
    assert!(t.contains("web_fetch"));
    assert!(t.contains("search_memory"));
    assert!(t.contains("list_models"));
}

#[test]
fn known_tools_includes_read_file_in_slice_4a() {
    let t = known_tools();
    assert!(t.contains("read_file"));
    assert!(!t.contains("write_file"));
    assert!(!t.contains("run_command"));
}

#[test]
fn known_tools_includes_list_dir_in_slice_4b() {
    assert!(known_tools().contains("list_dir"));
}

#[test]
fn short_hash_is_stable_and_16_chars() {
    let v = "{\"url\":\"https://example.com\"}";
    let h1 = short_hash(v);
    let h2 = short_hash(v);
    assert_eq!(h1, h2);
    assert_eq!(h1.len(), 16);
    assert!(h1.chars().all(|c| c.is_ascii_hexdigit()));
}

#[test]
fn short_hash_differs_for_different_inputs() {
    let a = short_hash("{\"url\":\"https://a.example\"}");
    let b = short_hash("{\"url\":\"https://b.example\"}");
    assert_ne!(a, b);
}

#[test]
fn short_hash_of_empty_text_is_sha256_prefix() {
    assert_eq!(short_hash(""), "e3b0c44298fc1c14");
}

#[test]
fn hex_prefix_cuts_to_requested_length() {
    assert_eq!(hex_prefix(&[0xab, 0x01, 0xff], 3), "ab0");
    assert_eq!(hex_prefix(&[0xab, 0x01], 16), "ab01");
    assert_eq!(hex_prefix(&[], 4), "");
}

#[test]
fn new_run_id_returns_16_hex_chars() {
    let id = new_run_id();
    assert_eq!(id.len(), 16);
    assert!(id.chars().all(|c| c.is_ascii_hexdigit()));
    assert_ne!(new_run_id(), new_run_id());
}

#[test]
fn seconds_to_iso8601_known_dates() {
    assert_eq!(seconds_to_iso8601(0), "1970-01-01T00:00:00Z");
    assert_eq!(seconds_to_iso8601(1_577_836_800), "2020-01-01T00:00:00Z");
    assert_eq!(seconds_to_iso8601(1_709_210_096), "2024-02-29T12:34:56Z");
    assert_eq!(seconds_to_iso8601(1_779_321_600), "2026-05-21T00:00:00Z");
}

#[test]
fn seconds_to_iso8601_century_and_far_future() {
    // 2000 is a leap year (divisible by 400); 2100 is not.
    assert_eq!(seconds_to_iso8601(951_782_400), "2000-02-29T00:00:00Z");
    assert_eq!(seconds_to_iso8601(4_107_542_399), "2100-02-28T23:59:59Z");
    assert_eq!(seconds_to_iso8601(4_107_542_400), "2100-03-01T00:00:00Z");
    assert_eq!(seconds_to_iso8601(253_402_300_799), "9999-12-31T23:59:59Z");
    assert_eq!(seconds_to_iso8601(u64::MAX), "584554051223-11-09T07:00:15Z");
}

#[test]
fn now_iso8601_is_well_formed() {
    let now = now_iso8601();
    assert_eq!(now.len(), 20, "unexpected ISO-8601 length: {now}");
    let year: u32 = now[..4].parse().expect("year should parse");
    assert!((2020..2200).contains(&year), "year out of plausible range: {year}");
    assert!(now.ends_with('Z'));
}

#[test]
fn system_prompt_carries_now() {
    let prompt = build_system_prompt(8, "2026-05-21T03:14:15Z");
    assert!(prompt.contains("2026-05-21T03:14:15Z"));
    assert!(prompt.contains("at most 8 steps"));
    assert!(prompt.contains("authoritative"));
}

#[test]
fn run_clock_elapsed_seconds_increases() {
    let c = RunClock::start();
    assert_eq!(c.elapsed_seconds(), 0);
}

#[test]
fn iso8601_texts_sort_like_their_instants() {
    let samples: [u64; 7] = [0, 59, 86_399, 86_400, 951_782_400, 1_700_000_000, 253_402_300_799];
    let texts: Vec<String> = samples.iter().map(|&s| seconds_to_iso8601(s)).collect();
    for w in texts.windows(2) {
        assert!(w[0] < w[1], "{} !< {}", w[0], w[1]);
    }
    assert_eq!(texts[4], "2000-02-29T00:00:00Z");
    assert_eq!(texts[6], "9999-12-31T23:59:59Z");
    assert!(texts.iter().all(|t| t.len() == 20));
}

#[test]
fn clock_readings_give_iso_text_with_an_epoch_fallback() {
    use_reading();
}

fn use_reading() {
    assert_eq!(unhosted::agent::iso8601_from_reading(None), "1970-01-01T00:00:00Z");
    assert_eq!(unhosted::agent::iso8601_from_reading(Some(86_400)), "1970-01-02T00:00:00Z");
    assert_eq!(
        unhosted::agent::iso8601_from_reading(Some(1_700_000_000)),
        seconds_to_iso8601(1_700_000_000)
    );
}
