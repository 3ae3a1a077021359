use unhosted::agent::{
    dlp_block_answer, guardrail_answer, list_models_url, no_choices_answer, short_hash,
    stop_reason_label, step_count_models, tool_refusal, tool_request, upstream_error_answer,
    AgentRun, AgentRunRequest, AgentRunResponse, ReplyDecision, StepRecord, StoppedBecause,
    ToolRequest,
};
use unhosted::agent_fs::ReadFileError;
use unhosted::metrics::Metrics;

fn request(tools: Vec<&str>) -> AgentRunRequest {
    AgentRunRequest {
        goal: "find the answer".into(),
        tools: tools.into_iter().map(|t| t.to_string()).collect(),
        max_steps: 3,
        max_tokens: 2_000,
        max_seconds: 60,
        max_tool_calls_per_step: 2,
        model: "auto".into(),
    }
}

#[test]
fn begin_rejects_unknown_tools_with_tool_error() {
    let mut m = Metrics::new();
    let out = AgentRun::begin(request(vec!["web_fetch", "rm_rf", "nope"]), "run1".into(), &mut m);
    let resp = match out {
        Err(r) => r,
        Ok(_) => panic!("unknown tools must end the run"),
    };
    assert_eq!(resp.final_answer, "unknown tools requested: rm_rf, nope");
    assert_eq!(resp.stopped_because, StoppedBecause::ToolError);
    assert_eq!(resp.tokens_used, 0);
    assert!(resp.steps.is_empty());
    assert_eq!(resp.run_id, "run1");
    assert_eq!(m.agent_runs_total, 1);
    assert_eq!(m.agent_runs_stopped_tool_error, 1);
}

#[test]
fn begin_accepts_known_tools_and_clamps() {
    let mut m = Metrics::new();
    let mut req = request(vec!["web_fetch", "list_models"]);
    req.max_steps = 10_000;
    let run = match AgentRun::begin(req, "run2".into(), &mut m) {
        Ok(r) => r,
        Err(_) => panic!("known tools must start the run"),
    };
    assert_eq!(run.req.tools, vec!["web_fetch".to_string(), "list_models".to_string()]);
    assert_eq!(run.req.max_steps, 32);
    assert_eq!(run.step, 0);
    assert_eq!(run.tokens_used, 0);
    assert_eq!(m.agent_runs_total, 1);
    assert_eq!(m.agent_runs_stopped_tool_error, 0);
}

#[test]
fn guardrails_fire_in_order() {
    let mut m = Metrics::new();
    let mut run = AgentRun::begin(request(vec![]), "r".into(), &mut m).ok().unwrap();
    assert_eq!(run.check_guardrails(0, &mut m), None);
    assert_eq!(m.agent_steps_total, 1);
    assert_eq!(run.check_guardrails(61, &mut m), Some(StoppedBecause::MaxSeconds));
    assert_eq!(m.agent_steps_total, 1);
    run.tokens_used = 2_000;
    assert_eq!(run.check_guardrails(0, &mut m), Some(StoppedBecause::MaxTokens));
    run.step = 3;
    assert_eq!(run.check_guardrails(61, &mut m), Some(StoppedBecause::MaxSteps));
}

#[test]
fn step_budget_is_clamped_between_64_and_1024() {
    let mut m = Metrics::new();
    let mut run = AgentRun::begin(request(vec![]), "r".into(), &mut m).ok().unwrap();
    assert_eq!(run.step_token_budget(), 1024);
    run.tokens_used = 1_500;
    assert_eq!(run.step_token_budget(), 500);
    run.tokens_used = 1_990;
    assert_eq!(run.step_token_budget(), 64);
    run.tokens_used = 5_000;
    assert_eq!(run.step_token_budget(), 64);
}

#[test]
fn reply_truncates_tool_calls_and_counts_tokens() {
    let mut m = Metrics::new();
    let mut run = AgentRun::begin(request(vec!["list_models"]), "r".into(), &mut m).ok().unwrap();
    assert_eq!(run.check_guardrails(0, &mut m), None);
    assert_eq!(m.agent_steps_total, 1);
    let d = run.on_model_reply(Some((100, 120)), "thinking", 5);
    assert_eq!(d, ReplyDecision::RunTools(2));
    assert_eq!(run.tokens_used, 120);
    run.on_tool_call("list_models", "abcd".into(), 3, None, &mut m);
    run.on_tool_call("list_models", "ef01".into(), 0, Some("bad".into()), &mut m);
    assert_eq!(m.agent_tool_calls_total, 2);
    run.end_step();
    assert_eq!(run.step, 1);
    let d = run.on_model_reply(Some((u32::MAX, 1)), "done", 0);
    assert_eq!(d, ReplyDecision::FinalAnswer);
    assert_eq!(run.tokens_used, u32::MAX);
    assert_eq!(step_count_models(&run.steps), 2);
    match &run.steps[1] {
        StepRecord::ToolCall { tool, args_hash, result_chars, .. } => {
            assert_eq!(tool, "list_models");
            assert_eq!(args_hash, "abcd");
            assert_eq!(*result_chars, 3);
        }
        _ => panic!("expected a tool call record"),
    }
    let resp = run.finish(StoppedBecause::FinalAnswer, "done".into(), &mut m);
    assert_eq!(resp.stopped_because, StoppedBecause::FinalAnswer);
    assert_eq!(resp.steps.len(), 4);
    assert_eq!(m.agent_runs_stopped_final_answer, 1);
}

#[test]
fn reply_without_usage_keeps_tokens() {
    let mut m = Metrics::new();
    let mut run = AgentRun::begin(request(vec![]), "r".into(), &mut m).ok().unwrap();
    let d = run.on_model_reply(None, "", 2);
    assert_eq!(d, ReplyDecision::RunTools(2));
    assert_eq!(run.tokens_used, 0);
}

#[test]
fn no_tool_use_counts_as_tool_error() {
    let mut m = Metrics::new();
    let run = AgentRun::begin(request(vec![]), "r".into(), &mut m).ok().unwrap();
    let resp = run.finish(StoppedBecause::ModelDoesNotSupportToolUse, "x".into(), &mut m);
    assert_eq!(resp.stopped_because, StoppedBecause::ModelDoesNotSupportToolUse);
    assert_eq!(m.agent_runs_stopped_tool_error, 1);
    assert_eq!(stop_reason_label(StoppedBecause::ModelDoesNotSupportToolUse), "model_no_tool_use");
    assert_eq!(stop_reason_label(StoppedBecause::DlpBlocked), "dlp_blocked");
}

// ── Whole runs, with the upstream's replies scripted ─────────────

/// One scripted upstream reply: usage (total, completion), the assistant
/// content, and the tools it calls; or a failed call.
enum Upstream {
    Reply((u32, u32), &'static str, Vec<&'static str>),
    Fails(&'static str),
    NoChoices((u32, u32)),
}

/// Drives a run the way the runtime does, answering every tool call
/// with `tool_output`; the last scripted reply repeats.
fn drive(req: AgentRunRequest, script: Vec<Upstream>, tool_output: &str, m: &mut Metrics) -> AgentRunResponse {
    let mut run = match AgentRun::begin(req, "run".into(), m) {
        Ok(run) => run,
        Err(resp) => return resp,
    };
    let mut turn = 0usize;
    loop {
        if let Some(stop) = run.check_guardrails(0, m) {
            let answer = guardrail_answer(stop);
            return run.finish(stop, answer, m);
        }
        let reply = &script[turn.min(script.len() - 1)];
        turn += 1;
        let (usage, content, calls) = match reply {
            Upstream::Fails(e) => {
                let answer = upstream_error_answer(e);
                return run.finish(StoppedBecause::ToolError, answer, m);
            }
            Upstream::NoChoices(usage) => {
                run.on_empty_reply(Some(*usage));
                return run.finish(StoppedBecause::ToolError, no_choices_answer(), m);
            }
            Upstream::Reply(usage, content, calls) => (*usage, *content, calls),
        };
        match run.on_model_reply(Some(usage), content, calls.len()) {
            ReplyDecision::FinalAnswer => {
                return run.finish(StoppedBecause::FinalAnswer, content.to_string(), m);
            }
            ReplyDecision::RunTools(n) => {
                for name in calls.iter().take(n) {
                    let (out, err) = match tool_request(name, None, None) {
                        Ok(_) => (tool_output.to_string(), None),
                        Err(e) => (String::new(), Some(e)),
                    };
                    run.on_tool_call(name, short_hash("{}"), out.len(), err, m);
                }
                run.end_step();
            }
        }
    }
}

fn run_request(tools: Vec<&str>, max_steps: u32, max_tokens: u32) -> AgentRunRequest {
    AgentRunRequest {
        goal: "what is the meaning of life?".into(),
        tools: tools.into_iter().map(|t| t.to_string()).collect(),
        max_steps,
        max_tokens,
        max_seconds: 10,
        max_tool_calls_per_step: 4,
        model: "test-model".into(),
    }
}

#[test]
fn run_with_immediate_final_answer() {
    let mut m = Metrics::new();
    let resp = drive(
        run_request(vec![], 4, 1024),
        vec![Upstream::Reply((50, 12), "the answer is 42", vec![])],
        "",
        &mut m,
    );
    assert_eq!(resp.stopped_because, StoppedBecause::FinalAnswer);
    assert_eq!(resp.final_answer, "the answer is 42");
    assert_eq!(resp.steps.len(), 1);
    match &resp.steps[0] {
        StepRecord::ModelMessage { content, tool_calls_made, .. } => {
            assert_eq!(content, "the answer is 42");
            assert_eq!(*tool_calls_made, 0);
        }
        other => panic!("expected ModelMessage, got {other:?}"),
    }
}

#[test]
fn run_with_unknown_tool_short_circuits() {
    let mut m = Metrics::new();
    let resp = drive(run_request(vec!["nonexistent_tool"], 4, 1024), vec![Upstream::Fails("unused")], "", &mut m);
    assert_eq!(resp.stopped_because, StoppedBecause::ToolError);
    assert!(resp.final_answer.contains("nonexistent_tool"));
    assert!(resp.steps.is_empty(), "no model calls should have happened");
}

#[test]
fn run_executes_tool_then_finals() {
    let mut m = Metrics::new();
    assert_eq!(tool_request("list_models", None, None), Ok(ToolRequest::ListModels));
    assert_eq!(list_models_url("http://127.0.0.1:11434/"), "http://127.0.0.1:11434/v1/models");
    let models = r#"{"data":[{"id":"llama3.2:1b"},{"id":"qwen2.5:0.5b"},{"id":"mistral"}]}"#;
    let resp = drive(
        run_request(vec!["list_models"], 4, 1024),
        vec![
            Upstream::Reply((80, 22), "", vec!["list_models"]),
            Upstream::Reply((50, 12), "found 3 models", vec![]),
        ],
        models,
        &mut m,
    );
    assert_eq!(resp.stopped_because, StoppedBecause::FinalAnswer);
    assert_eq!(resp.final_answer, "found 3 models");
    assert_eq!(resp.steps.len(), 3);
    assert!(matches!(resp.steps[0], StepRecord::ModelMessage { .. }));
    match &resp.steps[1] {
        StepRecord::ToolCall { tool, error, result_chars, .. } => {
            assert_eq!(tool, "list_models");
            assert!(error.is_none());
            assert!(*result_chars > 0);
        }
        other => panic!("expected ToolCall, got {other:?}"),
    }
    assert!(matches!(resp.steps[2], StepRecord::ModelMessage { .. }));
}

#[test]
fn run_stops_at_max_steps_when_model_loops() {
    let mut m = Metrics::new();
    let resp = drive(
        run_request(vec!["list_models"], 3, 99_999),
        vec![Upstream::Reply((80, 22), "", vec!["list_models"])],
        r#"{"data":[]}"#,
        &mut m,
    );
    assert_eq!(resp.stopped_because, StoppedBecause::MaxSteps);
    assert_eq!(resp.final_answer, "stopped: max_steps reached without a final answer");
    let model_msgs = resp.steps.iter().filter(|s| matches!(s, StepRecord::ModelMessage { .. })).count();
    assert_eq!(model_msgs, 3);
}

#[test]
fn run_stops_at_max_tokens() {
    let mut m = Metrics::new();
    let resp = drive(
        run_request(vec!["list_models"], 10, 200),
        vec![Upstream::Reply((80, 22), "", vec!["list_models"])],
        r#"{"data":[]}"#,
        &mut m,
    );
    assert_eq!(resp.stopped_because, StoppedBecause::MaxTokens);
    assert_eq!(resp.final_answer, "stopped: max_tokens exceeded");
}

#[test]
fn run_returns_tool_error_when_upstream_5xx() {
    let mut m = Metrics::new();
    let resp = drive(
        run_request(vec![], 4, 1024),
        vec![Upstream::Fails("upstream 500 Internal Server Error: ")],
        "",
        &mut m,
    );
    assert_eq!(resp.stopped_because, StoppedBecause::ToolError);
    assert!(resp.final_answer.contains("upstream"));
    assert_eq!(m.agent_runs_stopped_tool_error, 1);
}

#[test]
fn run_metrics_bump_on_each_phase() {
    let mut m = Metrics::new();
    let _ = drive(run_request(vec![], 4, 1024), vec![Upstream::Reply((50, 12), "hi", vec![])], "", &mut m);
    assert_eq!(m.agent_runs_total, 1);
    assert_eq!(m.agent_steps_total, 1);
    assert_eq!(m.agent_runs_stopped_final_answer, 1);
    assert_eq!(m.agent_tool_calls_total, 0);
}

#[test]
fn stop_answers_name_their_cause() {
    assert_eq!(guardrail_answer(StoppedBecause::MaxSeconds), "stopped: max_seconds exceeded");
    assert_eq!(guardrail_answer(StoppedBecause::MaxTokens), "stopped: max_tokens exceeded");
    assert_eq!(upstream_error_answer("upstream send: refused"), "upstream chat error: upstream send: refused");
    assert_eq!(no_choices_answer(), "upstream returned no choices");
    assert_eq!(dlp_block_answer("PII", false), "blocked by dlp: PII");
    assert_eq!(dlp_block_answer("PII", true), "tool result blocked by dlp: PII");
    assert_eq!(
        tool_refusal("list_dir", &ReadFileError::OutsideAllowList),
        "list_dir: path is not under any allow-listed root"
    );
}

#[test]
fn tool_calls_are_budgeted_per_step() {
    let mut m = Metrics::new();
    let mut run = AgentRun::begin(request(vec!["list_models"]), "r".into(), &mut m).ok().unwrap();
    assert_eq!(run.calls_left, 0);
    assert_eq!(run.on_model_reply(None, "", 9), ReplyDecision::RunTools(2));
    assert_eq!(run.calls_left, 2);
    run.on_tool_call("list_models", "h".into(), 1, None, &mut m);
    run.on_tool_call("list_models", "h".into(), 1, None, &mut m);
    assert_eq!(run.calls_left, 0);
    run.end_step();
    assert_eq!(run.on_model_reply(None, "done", 0), ReplyDecision::FinalAnswer);
    assert_eq!(run.calls_left, 0);
    match run.steps.last() {
        Some(StepRecord::ModelMessage { content, tool_calls_made, .. }) => {
            assert_eq!(content, "done");
            assert_eq!(*tool_calls_made, 0);
        }
        other => panic!("expected the final answer last, got {other:?}"),
    }
}

#[test]
fn failed_and_empty_upstream_steps_still_count() {
    let mut m = Metrics::new();
    let resp = drive(
        run_request(vec![], 4, 1024),
        vec![Upstream::Fails("upstream 500 Internal Server Error: ")],
        "",
        &mut m,
    );
    assert_eq!(resp.stopped_because, StoppedBecause::ToolError);
    assert_eq!(m.agent_steps_total, 1);
    let mut m = Metrics::new();
    let resp = drive(run_request(vec![], 4, 1024), vec![Upstream::NoChoices((30, 7))], "", &mut m);
    assert_eq!(resp.stopped_because, StoppedBecause::ToolError);
    assert_eq!(resp.final_answer, "upstream returned no choices");
    assert_eq!(resp.tokens_used, 30);
    assert!(resp.steps.is_empty());
    assert_eq!(m.agent_steps_total, 1);
}
