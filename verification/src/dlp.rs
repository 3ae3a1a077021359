//! The Data Loss Prevention hook's decisions.
//!
//! Before a chat completion is forwarded, the runtime POSTs its body to a
//! configured DLP endpoint (with an optional bearer) and hands the answer
//! here. `{"decision": "allow"}` allows, `{"decision": "block", "reason":
//! ...}` blocks; anything else (a transport error, a non-2xx status, an
//! unparsable body, an unknown decision) goes through the fail mode:
//! fail-open allows, fail-closed blocks with the reason.

use vstd::prelude::*;
use crate::paths::{config_file, config_file_of, EnvVars, HomeError};
use crate::text::{owned, push_str, str_eq};

verus! {

/// What to do when the DLP service cannot give a decision.
#[derive(Debug, Clone, Copy, PartialEq, Eq, Structural)]
pub enum FailMode {
    /// Allow the request.
    FailOpen,
    /// Refuse the request.
    FailClosed,
}

/// The operator's DLP configuration.
#[derive(Debug, Clone)]
pub struct DlpConfig {
    pub endpoint: String,
    pub bearer: Option<String>,
    pub timeout_ms: u64,
    pub fail_mode: FailMode,
}

/// The request timeout when the configuration names none: 800 ms.
pub fn default_timeout_ms() -> (n: u64)
    ensures
        n == 800,
{
    800
}

/// The fail mode when the configuration names none: fail open.
pub fn default_fail_mode() -> (m: FailMode)
    ensures
        m == FailMode::FailOpen,
{
    FailMode::FailOpen
}

/// The policy decision for a chat request.
#[derive(Debug, Clone, PartialEq, Eq)]
pub enum DlpDecision {
    Allow,
    Block { reason: String },
}

/// A decision as plain values: `None` allows, `Some(reason)` blocks.
pub open spec fn decision_view(d: DlpDecision) -> Option<Seq<char>> {
    match d {
        DlpDecision::Allow => None,
        DlpDecision::Block { reason } => Some(reason@),
    }
}

/// The path of `dlp.toml`.
pub fn config_path(env: &EnvVars) -> (r: Result<String, HomeError>)
    ensures
        match config_file_of(*env, "dlp.toml"@) {
            Some(p) => r matches Ok(s) && s@ == p,
            None => r == Err::<String, HomeError>(HomeError::NoHome),
        },
{
    config_file(env, "dlp.toml")
}

/// The `Authorization` header value for a bearer token.
pub fn bearer_header(token: &str) -> (s: String)
    ensures
        s@ == "Bearer "@ + token@,
{
    let mut s = owned("Bearer ");
    push_str(&mut s, token);
    s
}

/// The decision when the service gave none: allow when failing open,
/// else block with `dlp unavailable: <reason>`.
pub open spec fn fail_decision(mode: FailMode, reason: Seq<char>) -> Option<Seq<char>> {
    match mode {
        FailMode::FailOpen => None,
        FailMode::FailClosed => Some("dlp unavailable: "@ + reason),
    }
}

/// The fail-mode decision for a failure described by `reason`.
pub fn fail_to_decision(cfg: &DlpConfig, reason: String) -> (d: DlpDecision)
    ensures
        decision_view(d) == fail_decision(cfg.fail_mode, reason@),
{
    match cfg.fail_mode {
        FailMode::FailOpen => DlpDecision::Allow,
        FailMode::FailClosed => {
            let mut r = owned("dlp unavailable: ");
            push_str(&mut r, reason.as_str());
            DlpDecision::Block { reason: r }
        },
    }
}

/// How the call to the DLP service went.
#[derive(Debug, Clone)]
pub enum DlpReply {
    /// The request failed; the error's text.
    Transport(String),
    /// The service answered with a non-2xx status; its text.
    Status(String),
    /// The body was not `{"decision": ..., "reason": ...}`; the error's
    /// text.
    Unparsable(String),
    /// The service's decision and optional reason.
    Parsed { decision: String, reason: Option<String> },
}

/// The decision for a reply.
pub open spec fn reply_decision(mode: FailMode, reply: DlpReply) -> Option<Seq<char>> {
    match reply {
        DlpReply::Transport(e) => fail_decision(mode, "dlp request: "@ + e@),
        DlpReply::Status(s) => fail_decision(mode, "dlp http "@ + s@),
        DlpReply::Unparsable(e) => fail_decision(mode, "dlp parse: "@ + e@),
        DlpReply::Parsed { decision, reason } => if decision@ == "allow"@ {
            None
        } else if decision@ == "block"@ {
            Some(
                match reason {
                    Some(r) => r@,
                    None => "dlp blocked"@,
                },
            )
        } else {
            fail_decision(mode, "dlp unknown decision: "@ + decision@)
        },
    }
}

/// Decides on the DLP service's reply under the configured fail mode.
pub fn decide(cfg: &DlpConfig, reply: DlpReply) -> (d: DlpDecision)
    ensures
        decision_view(d) == reply_decision(cfg.fail_mode, reply),
{
    match reply {
        DlpReply::Transport(e) => {
            let mut r = owned("dlp request: ");
            push_str(&mut r, e.as_str());
            fail_to_decision(cfg, r)
        },
        DlpReply::Status(s) => {
            let mut r = owned("dlp http ");
            push_str(&mut r, s.as_str());
            fail_to_decision(cfg, r)
        },
        DlpReply::Unparsable(e) => {
            let mut r = owned("dlp parse: ");
            push_str(&mut r, e.as_str());
            fail_to_decision(cfg, r)
        },
        DlpReply::Parsed { decision, reason } => {
            if str_eq(decision.as_str(), "allow") {
                DlpDecision::Allow
            } else if str_eq(decision.as_str(), "block") {
                DlpDecision::Block {
                    reason: match reason {
                        Some(r) => r,
                        None => owned("dlp blocked"),
                    },
                }
            } else {
                let mut r = owned("dlp unknown decision: ");
                push_str(&mut r, decision.as_str());
                fail_to_decision(cfg, r)
            }
        },
    }
}

/// Failing open never blocks on a failure; failing closed always blocks
/// on one (a decision other than `allow` or `block` counts as one); an
/// explicit `allow` always allows.
pub proof fn fail_modes_behave(reason: Seq<char>, reply: DlpReply)
    ensures
        fail_decision(FailMode::FailOpen, reason) is None,
        fail_decision(FailMode::FailClosed, reason) is Some,
        (reply matches DlpReply::Parsed { decision, .. } && decision@ == "allow"@) ==> reply_decision(
            FailMode::FailClosed,
            reply,
        ) is None,
        !(reply is Parsed) ==> (reply_decision(FailMode::FailOpen, reply) is None
            && reply_decision(FailMode::FailClosed, reply) is Some),
        (reply matches DlpReply::Parsed { decision, .. } && decision@ != "allow"@ && decision@
            != "block"@) ==> (reply_decision(FailMode::FailOpen, reply) is None && reply_decision(
            FailMode::FailClosed,
            reply,
        ) is Some),
{
}

/// An explicit answer from the service is final whatever the fail mode:
/// `block` blocks with the service's reason (`dlp blocked` when it gave
/// none), and `allow` allows. The fail mode only decides when no decision
/// came back.
pub proof fn explicit_decisions_ignore_the_fail_mode(mode: FailMode, reply: DlpReply)
    ensures
        (reply matches DlpReply::Parsed { decision, reason } && decision@ == "block"@) ==> reply_decision(
            mode,
            reply,
        ) == Some(
            match reply->reason {
                Some(r) => r@,
                None => "dlp blocked"@,
            },
        ),
        (reply matches DlpReply::Parsed { decision, .. } && decision@ == "allow"@) ==> reply_decision(
            mode,
            reply,
        ) is None,
{
    reveal_strlit("allow");
    reveal_strlit("block");
    assert("allow"@[0] != "block"@[0]);
}

} // verus!
