//! Prometheus-format metrics.
//!
//! Where the audit feed emits events, metrics expose aggregates
//! (counters and gauges) for a time-series database. The text format is
//! emitted by hand. Counters wrap on overflow, as atomic `fetch_add` does.

use vstd::prelude::*;
use crate::clock::{elapsed_secs, instant_now};
use crate::text::{contains_seq, decimal, occurs_at, push_i64, push_str, push_u64, signed_decimal};

verus! {

/// The build version carried by the `unhosted_build_info` gauge.
pub const VERSION: &'static str = "0.0.66";

/// One more than `x`, wrapping to zero past the top.
pub open spec fn wrap_inc(x: u64) -> u64 {
    if x == u64::MAX {
        0
    } else {
        (x + 1) as u64
    }
}

/// One more than `x`, wrapping to the bottom past the top.
pub open spec fn wrap_inc_i(x: i64) -> i64 {
    if x == i64::MAX {
        i64::MIN
    } else {
        (x + 1) as i64
    }
}

/// One less than `x`, wrapping to the top past the bottom.
pub open spec fn wrap_dec_i(x: i64) -> i64 {
    if x == i64::MIN {
        i64::MAX
    } else {
        (x - 1) as i64
    }
}

fn inc_u64(x: u64) -> (r: u64)
    ensures
        r == wrap_inc(x),
{
    if x == u64::MAX {
        0
    } else {
        x + 1
    }
}

fn inc_i64(x: i64) -> (r: i64)
    ensures
        r == wrap_inc_i(x),
{
    if x == i64::MAX {
        i64::MIN
    } else {
        x + 1
    }
}

fn dec_i64(x: i64) -> (r: i64)
    ensures
        r == wrap_dec_i(x),
{
    if x == i64::MIN {
        i64::MAX
    } else {
        x - 1
    }
}

/// Stable codes for tunnel state, the value of `unhosted_tunnel_state`.
#[derive(Debug, Clone, Copy, PartialEq, Eq, Structural)]
pub enum TunnelStateCode {
    Off,
    Starting,
    Live,
    Failed,
}

/// The gauge value of a tunnel state: 0 off, 1 starting, 2 live, 3 failed.
pub open spec fn tunnel_code(s: TunnelStateCode) -> i64 {
    match s {
        TunnelStateCode::Off => 0,
        TunnelStateCode::Starting => 1,
        TunnelStateCode::Live => 2,
        TunnelStateCode::Failed => 3,
    }
}

/// Why an agent run ended.
#[derive(Debug, Clone, Copy, PartialEq, Eq, Structural)]
pub enum AgentStopReason {
    FinalAnswer,
    MaxSteps,
    MaxTokens,
    MaxSeconds,
    ToolError,
    DlpBlocked,
}

/// Aggregate runtime metrics: counters and gauges.
pub struct Metrics {
    /// Total chat completion requests handled since startup.
    pub chat_completions_total: u64,
    /// Current in-flight chat completions.
    pub chat_completions_active: i64,
    /// Peer-pair operations performed (additions only).
    pub peer_pairs_total: u64,
    /// Peer-unpair operations performed.
    pub peer_unpairs_total: u64,
    /// Current count of paired peers.
    pub peers_paired: i64,
    /// Public-mode policy changes.
    pub policy_changes_total: u64,
    /// Tunnel state transitions.
    pub tunnel_state_changes_total: u64,
    /// Last observed tunnel state: 0 off, 1 starting, 2 live, 3 failed.
    pub tunnel_state: i64,
    /// Auth-rejected requests.
    pub auth_rejections_total: u64,
    /// Agent runs started.
    pub agent_runs_total: u64,
    /// Steps executed across all agent runs.
    pub agent_steps_total: u64,
    /// Tool invocations across all agent runs.
    pub agent_tool_calls_total: u64,
    /// Citations emitted by the agent via the `cite` tool.
    pub agent_citations_total: u64,
    /// Agent runs that ended with the model's final answer.
    pub agent_runs_stopped_final_answer: u64,
    /// Agent runs that hit max_steps.
    pub agent_runs_stopped_max_steps: u64,
    /// Agent runs that hit max_tokens.
    pub agent_runs_stopped_max_tokens: u64,
    /// Agent runs that hit max_seconds.
    pub agent_runs_stopped_max_seconds: u64,
    /// Agent runs that aborted on a tool error.
    pub agent_runs_stopped_tool_error: u64,
    /// Agent runs that the DLP hook blocked.
    pub agent_runs_stopped_dlp_blocked: u64,
    /// Process start, used to compute uptime on scrape.
    pub started_at: std::time::Instant,
}

impl Metrics {
    /// All counters and gauges zero, started now.
    pub fn new() -> (m: Self)
        ensures
            m.chat_completions_total == 0,
            m.chat_completions_active == 0,
            m.peer_pairs_total == 0,
            m.peer_unpairs_total == 0,
            m.peers_paired == 0,
            m.policy_changes_total == 0,
            m.tunnel_state_changes_total == 0,
            m.tunnel_state == 0,
            m.auth_rejections_total == 0,
            m.agent_runs_total == 0,
            m.agent_steps_total == 0,
            m.agent_tool_calls_total == 0,
            m.agent_citations_total == 0,
            m.agent_runs_stopped_final_answer == 0,
            m.agent_runs_stopped_max_steps == 0,
            m.agent_runs_stopped_max_tokens == 0,
            m.agent_runs_stopped_max_seconds == 0,
            m.agent_runs_stopped_tool_error == 0,
            m.agent_runs_stopped_dlp_blocked == 0,
    {
        Metrics {
            chat_completions_total: 0,
            chat_completions_active: 0,
            peer_pairs_total: 0,
            peer_unpairs_total: 0,
            peers_paired: 0,
            policy_changes_total: 0,
            tunnel_state_changes_total: 0,
            tunnel_state: 0,
            auth_rejections_total: 0,
            agent_runs_total: 0,
            agent_steps_total: 0,
            agent_tool_calls_total: 0,
            agent_citations_total: 0,
            agent_runs_stopped_final_answer: 0,
            agent_runs_stopped_max_steps: 0,
            agent_runs_stopped_max_tokens: 0,
            agent_runs_stopped_max_seconds: 0,
            agent_runs_stopped_tool_error: 0,
            agent_runs_stopped_dlp_blocked: 0,
            started_at: instant_now(),
        }
    }

    /// Counts one chat completion request.
    pub fn inc_chat_total(&mut self)
        ensures
            *final(self) == (Metrics { chat_completions_total: wrap_inc(old(self).chat_completions_total), ..*old(self) }),
    {
        self.chat_completions_total = inc_u64(self.chat_completions_total);
    }

    /// Marks one more chat completion in flight.
    pub fn inc_chat_active(&mut self)
        ensures
            *final(self) == (Metrics { chat_completions_active: wrap_inc_i(old(self).chat_completions_active), ..*old(self) }),
    {
        self.chat_completions_active = inc_i64(self.chat_completions_active);
    }

    /// Marks one chat completion finished.
    pub fn dec_chat_active(&mut self)
        ensures
            *final(self) == (Metrics { chat_completions_active: wrap_dec_i(old(self).chat_completions_active), ..*old(self) }),
    {
        self.chat_completions_active = dec_i64(self.chat_completions_active);
    }

    /// Counts one peer-pair operation.
    pub fn inc_peer_pairs(&mut self)
        ensures
            *final(self) == (Metrics { peer_pairs_total: wrap_inc(old(self).peer_pairs_total), ..*old(self) }),
    {
        self.peer_pairs_total = inc_u64(self.peer_pairs_total);
    }

    /// Counts one peer-unpair operation.
    pub fn inc_peer_unpairs(&mut self)
        ensures
            *final(self) == (Metrics { peer_unpairs_total: wrap_inc(old(self).peer_unpairs_total), ..*old(self) }),
    {
        self.peer_unpairs_total = inc_u64(self.peer_unpairs_total);
    }

    /// Sets the paired-peer gauge.
    pub fn set_peers_paired(&mut self, n: i64)
        ensures
            *final(self) == (Metrics { peers_paired: n, ..*old(self) }),
    {
        self.peers_paired = n;
    }

    /// Counts one public-mode policy change.
    pub fn inc_policy_changes(&mut self)
        ensures
            *final(self) == (Metrics { policy_changes_total: wrap_inc(old(self).policy_changes_total), ..*old(self) }),
    {
        self.policy_changes_total = inc_u64(self.policy_changes_total);
    }

    /// Counts one tunnel state transition and records the new state.
    pub fn record_tunnel_state(&mut self, new_state: TunnelStateCode)
        ensures
            *final(self) == (Metrics {
                tunnel_state_changes_total: wrap_inc(old(self).tunnel_state_changes_total),
                tunnel_state: tunnel_code(new_state),
                ..*old(self)
            }),
    {
        self.tunnel_state_changes_total = inc_u64(self.tunnel_state_changes_total);
        self.tunnel_state = match new_state {
            TunnelStateCode::Off => 0,
            TunnelStateCode::Starting => 1,
            TunnelStateCode::Live => 2,
            TunnelStateCode::Failed => 3,
        };
    }

    /// Counts one auth-rejected request.
    pub fn inc_auth_rejections(&mut self)
        ensures
            *final(self) == (Metrics { auth_rejections_total: wrap_inc(old(self).auth_rejections_total), ..*old(self) }),
    {
        self.auth_rejections_total = inc_u64(self.auth_rejections_total);
    }

    /// Counts one agent run started.
    pub fn inc_agent_runs(&mut self)
        ensures
            *final(self) == (Metrics { agent_runs_total: wrap_inc(old(self).agent_runs_total), ..*old(self) }),
    {
        self.agent_runs_total = inc_u64(self.agent_runs_total);
    }

    /// Counts one agent step.
    pub fn inc_agent_steps(&mut self)
        ensures
            *final(self) == (Metrics { agent_steps_total: wrap_inc(old(self).agent_steps_total), ..*old(self) }),
    {
        self.agent_steps_total = inc_u64(self.agent_steps_total);
    }

    /// Counts one agent tool call.
    pub fn inc_agent_tool_calls(&mut self)
        ensures
            *final(self) == (Metrics { agent_tool_calls_total: wrap_inc(old(self).agent_tool_calls_total), ..*old(self) }),
    {
        self.agent_tool_calls_total = inc_u64(self.agent_tool_calls_total);
    }

    /// Counts one citation.
    pub fn inc_agent_citations(&mut self)
        ensures
            *final(self) == (Metrics { agent_citations_total: wrap_inc(old(self).agent_citations_total), ..*old(self) }),
    {
        self.agent_citations_total = inc_u64(self.agent_citations_total);
    }

    /// Counts one agent run ending, under the counter of its reason.
    pub fn inc_agent_stop(&mut self, reason: AgentStopReason)
        ensures
            *final(self) == match reason {
                AgentStopReason::FinalAnswer => Metrics {
                    agent_runs_stopped_final_answer: wrap_inc(old(self).agent_runs_stopped_final_answer),
                    ..*old(self)
                },
                AgentStopReason::MaxSteps => Metrics {
                    agent_runs_stopped_max_steps: wrap_inc(old(self).agent_runs_stopped_max_steps),
                    ..*old(self)
                },
                AgentStopReason::MaxTokens => Metrics {
                    agent_runs_stopped_max_tokens: wrap_inc(old(self).agent_runs_stopped_max_tokens),
                    ..*old(self)
                },
                AgentStopReason::MaxSeconds => Metrics {
                    agent_runs_stopped_max_seconds: wrap_inc(old(self).agent_runs_stopped_max_seconds),
                    ..*old(self)
                },
                AgentStopReason::ToolError => Metrics {
                    agent_runs_stopped_tool_error: wrap_inc(old(self).agent_runs_stopped_tool_error),
                    ..*old(self)
                },
                AgentStopReason::DlpBlocked => Metrics {
                    agent_runs_stopped_dlp_blocked: wrap_inc(old(self).agent_runs_stopped_dlp_blocked),
                    ..*old(self)
                },
            },
    {
        match reason {
            AgentStopReason::FinalAnswer => {
                self.agent_runs_stopped_final_answer = inc_u64(self.agent_runs_stopped_final_answer);
            },
            AgentStopReason::MaxSteps => {
                self.agent_runs_stopped_max_steps = inc_u64(self.agent_runs_stopped_max_steps);
            },
            AgentStopReason::MaxTokens => {
                self.agent_runs_stopped_max_tokens = inc_u64(self.agent_runs_stopped_max_tokens);
            },
            AgentStopReason::MaxSeconds => {
                self.agent_runs_stopped_max_seconds = inc_u64(self.agent_runs_stopped_max_seconds);
            },
            AgentStopReason::ToolError => {
                self.agent_runs_stopped_tool_error = inc_u64(self.agent_runs_stopped_tool_error);
            },
            AgentStopReason::DlpBlocked => {
                self.agent_runs_stopped_dlp_blocked = inc_u64(self.agent_runs_stopped_dlp_blocked);
            },
        }
    }

    /// Renders the current values as Prometheus text format. The uptime
    /// comes from the process clock; everything else is this value.
    pub fn to_prometheus_text(&self) -> (r: String)
        ensures
            exists|uptime: u64| r@ == prometheus_text(*self, uptime),
    {
        let uptime = elapsed_secs(&self.started_at);
        self.render_prometheus(uptime)
    }

    /// Renders the values as Prometheus text format, with the given uptime.
    pub fn render_prometheus(&self, uptime: u64) -> (r: String)
        ensures
            r@ == prometheus_text(*self, uptime),
    {
        let mut out = String::new();
        push_header(&mut out, "unhosted_build_info", "Build info constant (always 1).", "gauge");
        push_str(&mut out, "unhosted_build_info{version=\"");
        push_str(&mut out, VERSION);
        push_str(&mut out, "\"} 1\n");
        push_header(&mut out, "unhosted_uptime_seconds", "Seconds since this daemon started.", "counter");
        push_sample_u64(&mut out, "unhosted_uptime_seconds", uptime);
        push_header(&mut out, "unhosted_chat_completions_total", "Total chat completion requests handled.", "counter");
        push_sample_u64(&mut out, "unhosted_chat_completions_total", self.chat_completions_total);
        push_header(&mut out, "unhosted_chat_completions_active", "Currently in-flight chat completions.", "gauge");
        push_sample_i64(&mut out, "unhosted_chat_completions_active", self.chat_completions_active);
        push_header(&mut out, "unhosted_peer_pairs_total", "Peer-pair operations performed.", "counter");
        push_sample_u64(&mut out, "unhosted_peer_pairs_total", self.peer_pairs_total);
        push_header(&mut out, "unhosted_peer_unpairs_total", "Peer-unpair operations performed.", "counter");
        push_sample_u64(&mut out, "unhosted_peer_unpairs_total", self.peer_unpairs_total);
        push_header(&mut out, "unhosted_peers_paired", "Currently paired peers.", "gauge");
        push_sample_i64(&mut out, "unhosted_peers_paired", self.peers_paired);
        push_header(&mut out, "unhosted_policy_changes_total", "Public-mode policy mutations.", "counter");
        push_sample_u64(&mut out, "unhosted_policy_changes_total", self.policy_changes_total);
        push_header(&mut out, "unhosted_tunnel_state_changes_total", "Cloudflare-tunnel state transitions.", "counter");
        push_sample_u64(&mut out, "unhosted_tunnel_state_changes_total", self.tunnel_state_changes_total);
        push_header(&mut out, "unhosted_tunnel_state", "Current tunnel state: 0 off, 1 starting, 2 live, 3 failed.", "gauge");
        push_sample_i64(&mut out, "unhosted_tunnel_state", self.tunnel_state);
        push_header(&mut out, "unhosted_auth_rejections_total", "Requests rejected by auth (bad sig, bearer, replay).", "counter");
        push_sample_u64(&mut out, "unhosted_auth_rejections_total", self.auth_rejections_total);
        push_header(&mut out, "unhosted_agent_runs_total", "Total agent runs started.", "counter");
        push_sample_u64(&mut out, "unhosted_agent_runs_total", self.agent_runs_total);
        push_header(&mut out, "unhosted_agent_steps_total", "Total agent steps across all runs.", "counter");
        push_sample_u64(&mut out, "unhosted_agent_steps_total", self.agent_steps_total);
        push_header(&mut out, "unhosted_agent_tool_calls_total", "Total tool invocations across all agent runs.", "counter");
        push_sample_u64(&mut out, "unhosted_agent_tool_calls_total", self.agent_tool_calls_total);
        push_header(&mut out, "unhosted_agent_citations_total", "Citations emitted by the agent via the cite tool.", "counter");
        push_sample_u64(&mut out, "unhosted_agent_citations_total", self.agent_citations_total);
        push_header(&mut out, "unhosted_agent_runs_stopped_by", "Agent runs by stop reason.", "counter");
        push_sample_u64(&mut out, "unhosted_agent_runs_stopped_by{reason=\"final_answer\"}", self.agent_runs_stopped_final_answer);
        push_sample_u64(&mut out, "unhosted_agent_runs_stopped_by{reason=\"max_steps\"}", self.agent_runs_stopped_max_steps);
        push_sample_u64(&mut out, "unhosted_agent_runs_stopped_by{reason=\"max_tokens\"}", self.agent_runs_stopped_max_tokens);
        push_sample_u64(&mut out, "unhosted_agent_runs_stopped_by{reason=\"max_seconds\"}", self.agent_runs_stopped_max_seconds);
        push_sample_u64(&mut out, "unhosted_agent_runs_stopped_by{reason=\"tool_error\"}", self.agent_runs_stopped_tool_error);
        push_sample_u64(&mut out, "unhosted_agent_runs_stopped_by{reason=\"dlp_blocked\"}", self.agent_runs_stopped_dlp_blocked);
        out
    }
}

/// The `# HELP` and `# TYPE` lines of one metric.
pub open spec fn header(name: Seq<char>, help: Seq<char>, kind: Seq<char>) -> Seq<char> {
    "# HELP "@ + name + " "@ + help + "\n"@ + "# TYPE "@ + name + " "@ + kind + "\n"@
}

/// One sample line: the metric name (with any labels) and its value.
pub open spec fn sample(name: Seq<char>, value: Seq<char>) -> Seq<char> {
    name + " "@ + value + "\n"@
}

fn push_header(out: &mut String, name: &str, help: &str, kind: &str)
    ensures
        final(out)@ == old(out)@ + header(name@, help@, kind@),
{
    push_str(out, "# HELP ");
    push_str(out, name);
    push_str(out, " ");
    push_str(out, help);
    push_str(out, "\n");
    push_str(out, "# TYPE ");
    push_str(out, name);
    push_str(out, " ");
    push_str(out, kind);
    push_str(out, "\n");
    assert(out@ =~= old(out)@ + header(name@, help@, kind@));
}

fn push_sample_u64(out: &mut String, name: &str, value: u64)
    ensures
        final(out)@ == old(out)@ + sample(name@, decimal(value as nat)),
{
    push_str(out, name);
    push_str(out, " ");
    push_u64(out, value);
    push_str(out, "\n");
    assert(out@ =~= old(out)@ + sample(name@, decimal(value as nat)));
}

fn push_sample_i64(out: &mut String, name: &str, value: i64)
    ensures
        final(out)@ == old(out)@ + sample(name@, signed_decimal(value as int)),
{
    push_str(out, name);
    push_str(out, " ");
    push_i64(out, value);
    push_str(out, "\n");
    assert(out@ =~= old(out)@ + sample(name@, signed_decimal(value as int)));
}

/// The Prometheus text for the given values and uptime: every metric with
/// its `# HELP` and `# TYPE` headers and its current value, in a fixed order.
pub open spec fn prometheus_text(m: Metrics, uptime: u64) -> Seq<char> {
    header("unhosted_build_info"@, "Build info constant (always 1)."@, "gauge"@)
        + "unhosted_build_info{version=\""@ + VERSION@ + "\"} 1\n"@
        + header("unhosted_uptime_seconds"@, "Seconds since this daemon started."@, "counter"@)
        + sample("unhosted_uptime_seconds"@, decimal(uptime as nat))
        + header("unhosted_chat_completions_total"@, "Total chat completion requests handled."@, "counter"@)
        + sample("unhosted_chat_completions_total"@, decimal(m.chat_completions_total as nat))
        + header("unhosted_chat_completions_active"@, "Currently in-flight chat completions."@, "gauge"@)
        + sample("unhosted_chat_completions_active"@, signed_decimal(m.chat_completions_active as int))
        + header("unhosted_peer_pairs_total"@, "Peer-pair operations performed."@, "counter"@)
        + sample("unhosted_peer_pairs_total"@, decimal(m.peer_pairs_total as nat))
        + header("unhosted_peer_unpairs_total"@, "Peer-unpair operations performed."@, "counter"@)
        + sample("unhosted_peer_unpairs_total"@, decimal(m.peer_unpairs_total as nat))
        + header("unhosted_peers_paired"@, "Currently paired peers."@, "gauge"@)
        + sample("unhosted_peers_paired"@, signed_decimal(m.peers_paired as int))
        + header("unhosted_policy_changes_total"@, "Public-mode policy mutations."@, "counter"@)
        + sample("unhosted_policy_changes_total"@, decimal(m.policy_changes_total as nat))
        + header("unhosted_tunnel_state_changes_total"@, "Cloudflare-tunnel state transitions."@, "counter"@)
        + sample("unhosted_tunnel_state_changes_total"@, decimal(m.tunnel_state_changes_total as nat))
        + header("unhosted_tunnel_state"@, "Current tunnel state: 0 off, 1 starting, 2 live, 3 failed."@, "gauge"@)
        + sample("unhosted_tunnel_state"@, signed_decimal(m.tunnel_state as int))
        + header("unhosted_auth_rejections_total"@, "Requests rejected by auth (bad sig, bearer, replay)."@, "counter"@)
        + sample("unhosted_auth_rejections_total"@, decimal(m.auth_rejections_total as nat))
        + header("unhosted_agent_runs_total"@, "Total agent runs started."@, "counter"@)
        + sample("unhosted_agent_runs_total"@, decimal(m.agent_runs_total as nat))
        + header("unhosted_agent_steps_total"@, "Total agent steps across all runs."@, "counter"@)
        + sample("unhosted_agent_steps_total"@, decimal(m.agent_steps_total as nat))
        + header("unhosted_agent_tool_calls_total"@, "Total tool invocations across all agent runs."@, "counter"@)
        + sample("unhosted_agent_tool_calls_total"@, decimal(m.agent_tool_calls_total as nat))
        + header("unhosted_agent_citations_total"@, "Citations emitted by the agent via the cite tool."@, "counter"@)
        + sample("unhosted_agent_citations_total"@, decimal(m.agent_citations_total as nat))
        + header("unhosted_agent_runs_stopped_by"@, "Agent runs by stop reason."@, "counter"@)
        + sample("unhosted_agent_runs_stopped_by{reason=\"final_answer\"}"@, decimal(m.agent_runs_stopped_final_answer as nat))
        + sample("unhosted_agent_runs_stopped_by{reason=\"max_steps\"}"@, decimal(m.agent_runs_stopped_max_steps as nat))
        + sample("unhosted_agent_runs_stopped_by{reason=\"max_tokens\"}"@, decimal(m.agent_runs_stopped_max_tokens as nat))
        + sample("unhosted_agent_runs_stopped_by{reason=\"max_seconds\"}"@, decimal(m.agent_runs_stopped_max_seconds as nat))
        + sample("unhosted_agent_runs_stopped_by{reason=\"tool_error\"}"@, decimal(m.agent_runs_stopped_tool_error as nat))
        + sample("unhosted_agent_runs_stopped_by{reason=\"dlp_blocked\"}"@, decimal(m.agent_runs_stopped_dlp_blocked as nat))
}

/// `t` holds `n`; kept opaque so that long texts are not unfolded.
#[verifier::opaque]
spec fn holds(t: Seq<char>, n: Seq<char>) -> bool {
    contains_seq(t, n)
}

proof fn lemma_holds_is_contains(t: Seq<char>, n: Seq<char>)
    requires
        holds(t, n),
    ensures
        contains_seq(t, n),
{
    reveal(holds);
}

proof fn lemma_occurrence_survives_append(x: Seq<char>, y: Seq<char>, n: Seq<char>, i: int)
    requires
        occurs_at(x, n, i),
    ensures
        occurs_at(x + y, n, i),
{
    assert((x + y).subrange(i, i + n.len()) =~= x.subrange(i, i + n.len()));
}

/// Text that holds a line keeps holding it when more text is appended.
proof fn lemma_lines_survive_append()
    ensures
        forall|x: Seq<char>, y: Seq<char>, n: Seq<char>| holds(x, n) ==> #[trigger] holds(x + y, n),
{
    reveal(holds);
    assert forall|x: Seq<char>, y: Seq<char>, n: Seq<char>| holds(x, n) implies #[trigger] holds(
        x + y,
        n,
    ) by {
        let i = choose|i: int| occurs_at(x, n, i);
        lemma_occurrence_survives_append(x, y, n, i);
    }
}

proof fn lemma_after_newline(h: Seq<char>, s: Seq<char>)
    requires
        h.len() > 0,
        h[h.len() - 1] == '\n',
    ensures
        holds(h + s, "\n"@ + s),
{
    reveal(holds);
    reveal_strlit("\n");
    assert((h + s).subrange(h.len() - 1, (h.len() + s.len()) as int) =~= "\n"@ + s);
    assert(occurs_at(h + s, "\n"@ + s, h.len() - 1));
}

/// What follows a header or a sample line starts a line of its own.
proof fn lemma_lines_start_after_newlines()
    ensures
        forall|a: Seq<char>, name: Seq<char>, help: Seq<char>, kind: Seq<char>, s: Seq<char>|
            #[trigger] holds(a + header(name, help, kind) + s, "\n"@ + s),
        forall|a: Seq<char>, name: Seq<char>, value: Seq<char>, s: Seq<char>|
            #[trigger] holds(a + sample(name, value) + s, "\n"@ + s),
{
    reveal_strlit("\n");
    assert forall|a: Seq<char>, name: Seq<char>, help: Seq<char>, kind: Seq<char>, s: Seq<char>|
        #[trigger] holds(a + header(name, help, kind) + s, "\n"@ + s) by {
        let h = a + header(name, help, kind);
        assert(h[h.len() - 1] == '\n');
        lemma_after_newline(h, s);
    }
    assert forall|a: Seq<char>, name: Seq<char>, value: Seq<char>, s: Seq<char>|
        #[trigger] holds(a + sample(name, value) + s, "\n"@ + s) by {
        let h = a + sample(name, value);
        assert(h[h.len() - 1] == '\n');
        lemma_after_newline(h, s);
    }
}

/// A line `name value`, newline-delimited on both sides.
proof fn lemma_line_is_sample(name: Seq<char>, value: Seq<char>)
    ensures
        "\n"@ + name + " "@ + value + "\n"@ == "\n"@ + sample(name, value),
{
    assert("\n"@ + name + " "@ + value + "\n"@ =~= "\n"@ + sample(name, value));
}
proof fn lemma_sample_lines_first(m: Metrics, uptime: u64)
    ensures
        holds(prometheus_text(m, uptime), "\n"@ + sample("unhosted_uptime_seconds"@, decimal(uptime as nat))),
        holds(prometheus_text(m, uptime), "\n"@ + sample("unhosted_chat_completions_total"@, decimal(m.chat_completions_total as nat))),
        holds(prometheus_text(m, uptime), "\n"@ + sample("unhosted_chat_completions_active"@, signed_decimal(m.chat_completions_active as int))),
        holds(prometheus_text(m, uptime), "\n"@ + sample("unhosted_peer_pairs_total"@, decimal(m.peer_pairs_total as nat))),
        holds(prometheus_text(m, uptime), "\n"@ + sample("unhosted_peer_unpairs_total"@, decimal(m.peer_unpairs_total as nat))),
{
    lemma_lines_survive_append();
    lemma_lines_start_after_newlines();
}

proof fn lemma_sample_lines_second(m: Metrics, uptime: u64)
    ensures
        holds(prometheus_text(m, uptime), "\n"@ + sample("unhosted_peers_paired"@, signed_decimal(m.peers_paired as int))),
        holds(prometheus_text(m, uptime), "\n"@ + sample("unhosted_policy_changes_total"@, decimal(m.policy_changes_total as nat))),
        holds(prometheus_text(m, uptime), "\n"@ + sample("unhosted_tunnel_state_changes_total"@, decimal(m.tunnel_state_changes_total as nat))),
        holds(prometheus_text(m, uptime), "\n"@ + sample("unhosted_tunnel_state"@, signed_decimal(m.tunnel_state as int))),
        holds(prometheus_text(m, uptime), "\n"@ + sample("unhosted_auth_rejections_total"@, decimal(m.auth_rejections_total as nat))),
{
    lemma_lines_survive_append();
    lemma_lines_start_after_newlines();
}

proof fn lemma_sample_lines_third(m: Metrics, uptime: u64)
    ensures
        holds(prometheus_text(m, uptime), "\n"@ + sample("unhosted_agent_runs_total"@, decimal(m.agent_runs_total as nat))),
        holds(prometheus_text(m, uptime), "\n"@ + sample("unhosted_agent_steps_total"@, decimal(m.agent_steps_total as nat))),
        holds(prometheus_text(m, uptime), "\n"@ + sample("unhosted_agent_tool_calls_total"@, decimal(m.agent_tool_calls_total as nat))),
        holds(prometheus_text(m, uptime), "\n"@ + sample("unhosted_agent_citations_total"@, decimal(m.agent_citations_total as nat))),
        holds(prometheus_text(m, uptime), "\n"@ + sample("unhosted_agent_runs_stopped_by{reason=\"final_answer\"}"@, decimal(m.agent_runs_stopped_final_answer as nat))),
{
    lemma_lines_survive_append();
    lemma_lines_start_after_newlines();
}

proof fn lemma_sample_lines_fourth(m: Metrics, uptime: u64)
    ensures
        holds(prometheus_text(m, uptime), "\n"@ + sample("unhosted_agent_runs_stopped_by{reason=\"max_steps\"}"@, decimal(m.agent_runs_stopped_max_steps as nat))),
        holds(prometheus_text(m, uptime), "\n"@ + sample("unhosted_agent_runs_stopped_by{reason=\"max_tokens\"}"@, decimal(m.agent_runs_stopped_max_tokens as nat))),
        holds(prometheus_text(m, uptime), "\n"@ + sample("unhosted_agent_runs_stopped_by{reason=\"max_seconds\"}"@, decimal(m.agent_runs_stopped_max_seconds as nat))),
        holds(prometheus_text(m, uptime), "\n"@ + sample("unhosted_agent_runs_stopped_by{reason=\"tool_error\"}"@, decimal(m.agent_runs_stopped_tool_error as nat))),
        holds(prometheus_text(m, uptime), "\n"@ + sample("unhosted_agent_runs_stopped_by{reason=\"dlp_blocked\"}"@, decimal(m.agent_runs_stopped_dlp_blocked as nat))),
{
    lemma_lines_survive_append();
    lemma_lines_start_after_newlines();
}

/// Each sample line of the rendered text carries the value that its metric
/// name denotes: the text holds, as a line of its own, `unhosted_agent_steps_total`
/// followed by the steps counter, `unhosted_agent_runs_total` followed by the
/// runs counter, and likewise for the uptime, every counter and gauge, and
/// each stop reason.
pub proof fn each_metric_line_carries_its_own_value(m: Metrics, uptime: u64)
    ensures
        contains_seq(prometheus_text(m, uptime), "\n"@ + "unhosted_uptime_seconds"@ + " "@ + decimal(uptime as nat) + "\n"@),
        contains_seq(prometheus_text(m, uptime), "\n"@ + "unhosted_chat_completions_total"@ + " "@ + decimal(m.chat_completions_total as nat) + "\n"@),
        contains_seq(prometheus_text(m, uptime), "\n"@ + "unhosted_chat_completions_active"@ + " "@ + signed_decimal(m.chat_completions_active as int) + "\n"@),
        contains_seq(prometheus_text(m, uptime), "\n"@ + "unhosted_peer_pairs_total"@ + " "@ + decimal(m.peer_pairs_total as nat) + "\n"@),
        contains_seq(prometheus_text(m, uptime), "\n"@ + "unhosted_peer_unpairs_total"@ + " "@ + decimal(m.peer_unpairs_total as nat) + "\n"@),
        contains_seq(prometheus_text(m, uptime), "\n"@ + "unhosted_peers_paired"@ + " "@ + signed_decimal(m.peers_paired as int) + "\n"@),
        contains_seq(prometheus_text(m, uptime), "\n"@ + "unhosted_policy_changes_total"@ + " "@ + decimal(m.policy_changes_total as nat) + "\n"@),
        contains_seq(prometheus_text(m, uptime), "\n"@ + "unhosted_tunnel_state_changes_total"@ + " "@ + decimal(m.tunnel_state_changes_total as nat) + "\n"@),
        contains_seq(prometheus_text(m, uptime), "\n"@ + "unhosted_tunnel_state"@ + " "@ + signed_decimal(m.tunnel_state as int) + "\n"@),
        contains_seq(prometheus_text(m, uptime), "\n"@ + "unhosted_auth_rejections_total"@ + " "@ + decimal(m.auth_rejections_total as nat) + "\n"@),
        contains_seq(prometheus_text(m, uptime), "\n"@ + "unhosted_agent_runs_total"@ + " "@ + decimal(m.agent_runs_total as nat) + "\n"@),
        contains_seq(prometheus_text(m, uptime), "\n"@ + "unhosted_agent_steps_total"@ + " "@ + decimal(m.agent_steps_total as nat) + "\n"@),
        contains_seq(prometheus_text(m, uptime), "\n"@ + "unhosted_agent_tool_calls_total"@ + " "@ + decimal(m.agent_tool_calls_total as nat) + "\n"@),
        contains_seq(prometheus_text(m, uptime), "\n"@ + "unhosted_agent_citations_total"@ + " "@ + decimal(m.agent_citations_total as nat) + "\n"@),
        contains_seq(prometheus_text(m, uptime), "\n"@ + "unhosted_agent_runs_stopped_by{reason=\"final_answer\"}"@ + " "@ + decimal(m.agent_runs_stopped_final_answer as nat) + "\n"@),
        contains_seq(prometheus_text(m, uptime), "\n"@ + "unhosted_agent_runs_stopped_by{reason=\"max_steps\"}"@ + " "@ + decimal(m.agent_runs_stopped_max_steps as nat) + "\n"@),
        contains_seq(prometheus_text(m, uptime), "\n"@ + "unhosted_agent_runs_stopped_by{reason=\"max_tokens\"}"@ + " "@ + decimal(m.agent_runs_stopped_max_tokens as nat) + "\n"@),
        contains_seq(prometheus_text(m, uptime), "\n"@ + "unhosted_agent_runs_stopped_by{reason=\"max_seconds\"}"@ + " "@ + decimal(m.agent_runs_stopped_max_seconds as nat) + "\n"@),
        contains_seq(prometheus_text(m, uptime), "\n"@ + "unhosted_agent_runs_stopped_by{reason=\"tool_error\"}"@ + " "@ + decimal(m.agent_runs_stopped_tool_error as nat) + "\n"@),
        contains_seq(prometheus_text(m, uptime), "\n"@ + "unhosted_agent_runs_stopped_by{reason=\"dlp_blocked\"}"@ + " "@ + decimal(m.agent_runs_stopped_dlp_blocked as nat) + "\n"@),
{
    lemma_sample_lines_first(m, uptime);
    lemma_sample_lines_second(m, uptime);
    lemma_sample_lines_third(m, uptime);
    lemma_sample_lines_fourth(m, uptime);
    let t = prometheus_text(m, uptime);
    lemma_line_is_sample("unhosted_uptime_seconds"@, decimal(uptime as nat));
    lemma_holds_is_contains(t, "\n"@ + sample("unhosted_uptime_seconds"@, decimal(uptime as nat)));
    lemma_line_is_sample("unhosted_chat_completions_total"@, decimal(m.chat_completions_total as nat));
    lemma_holds_is_contains(t, "\n"@ + sample("unhosted_chat_completions_total"@, decimal(m.chat_completions_total as nat)));
    lemma_line_is_sample("unhosted_chat_completions_active"@, signed_decimal(m.chat_completions_active as int));
    lemma_holds_is_contains(t, "\n"@ + sample("unhosted_chat_completions_active"@, signed_decimal(m.chat_completions_active as int)));
    lemma_line_is_sample("unhosted_peer_pairs_total"@, decimal(m.peer_pairs_total as nat));
    lemma_holds_is_contains(t, "\n"@ + sample("unhosted_peer_pairs_total"@, decimal(m.peer_pairs_total as nat)));
    lemma_line_is_sample("unhosted_peer_unpairs_total"@, decimal(m.peer_unpairs_total as nat));
    lemma_holds_is_contains(t, "\n"@ + sample("unhosted_peer_unpairs_total"@, decimal(m.peer_unpairs_total as nat)));
    lemma_line_is_sample("unhosted_peers_paired"@, signed_decimal(m.peers_paired as int));
    lemma_holds_is_contains(t, "\n"@ + sample("unhosted_peers_paired"@, signed_decimal(m.peers_paired as int)));
    lemma_line_is_sample("unhosted_policy_changes_total"@, decimal(m.policy_changes_total as nat));
    lemma_holds_is_contains(t, "\n"@ + sample("unhosted_policy_changes_total"@, decimal(m.policy_changes_total as nat)));
    lemma_line_is_sample("unhosted_tunnel_state_changes_total"@, decimal(m.tunnel_state_changes_total as nat));
    lemma_holds_is_contains(t, "\n"@ + sample("unhosted_tunnel_state_changes_total"@, decimal(m.tunnel_state_changes_total as nat)));
    lemma_line_is_sample("unhosted_tunnel_state"@, signed_decimal(m.tunnel_state as int));
    lemma_holds_is_contains(t, "\n"@ + sample("unhosted_tunnel_state"@, signed_decimal(m.tunnel_state as int)));
    lemma_line_is_sample("unhosted_auth_rejections_total"@, decimal(m.auth_rejections_total as nat));
    lemma_holds_is_contains(t, "\n"@ + sample("unhosted_auth_rejections_total"@, decimal(m.auth_rejections_total as nat)));
    lemma_line_is_sample("unhosted_agent_runs_total"@, decimal(m.agent_runs_total as nat));
    lemma_holds_is_contains(t, "\n"@ + sample("unhosted_agent_runs_total"@, decimal(m.agent_runs_total as nat)));
    lemma_line_is_sample("unhosted_agent_steps_total"@, decimal(m.agent_steps_total as nat));
    lemma_holds_is_contains(t, "\n"@ + sample("unhosted_agent_steps_total"@, decimal(m.agent_steps_total as nat)));
    lemma_line_is_sample("unhosted_agent_tool_calls_total"@, decimal(m.agent_tool_calls_total as nat));
    lemma_holds_is_contains(t, "\n"@ + sample("unhosted_agent_tool_calls_total"@, decimal(m.agent_tool_calls_total as nat)));
    lemma_line_is_sample("unhosted_agent_citations_total"@, decimal(m.agent_citations_total as nat));
    lemma_holds_is_contains(t, "\n"@ + sample("unhosted_agent_citations_total"@, decimal(m.agent_citations_total as nat)));
    lemma_line_is_sample("unhosted_agent_runs_stopped_by{reason=\"final_answer\"}"@, decimal(m.agent_runs_stopped_final_answer as nat));
    lemma_holds_is_contains(t, "\n"@ + sample("unhosted_agent_runs_stopped_by{reason=\"final_answer\"}"@, decimal(m.agent_runs_stopped_final_answer as nat)));
    lemma_line_is_sample("unhosted_agent_runs_stopped_by{reason=\"max_steps\"}"@, decimal(m.agent_runs_stopped_max_steps as nat));
    lemma_holds_is_contains(t, "\n"@ + sample("unhosted_agent_runs_stopped_by{reason=\"max_steps\"}"@, decimal(m.agent_runs_stopped_max_steps as nat)));
    lemma_line_is_sample("unhosted_agent_runs_stopped_by{reason=\"max_tokens\"}"@, decimal(m.agent_runs_stopped_max_tokens as nat));
    lemma_holds_is_contains(t, "\n"@ + sample("unhosted_agent_runs_stopped_by{reason=\"max_tokens\"}"@, decimal(m.agent_runs_stopped_max_tokens as nat)));
    lemma_line_is_sample("unhosted_agent_runs_stopped_by{reason=\"max_seconds\"}"@, decimal(m.agent_runs_stopped_max_seconds as nat));
    lemma_holds_is_contains(t, "\n"@ + sample("unhosted_agent_runs_stopped_by{reason=\"max_seconds\"}"@, decimal(m.agent_runs_stopped_max_seconds as nat)));
    lemma_line_is_sample("unhosted_agent_runs_stopped_by{reason=\"tool_error\"}"@, decimal(m.agent_runs_stopped_tool_error as nat));
    lemma_holds_is_contains(t, "\n"@ + sample("unhosted_agent_runs_stopped_by{reason=\"tool_error\"}"@, decimal(m.agent_runs_stopped_tool_error as nat)));
    lemma_line_is_sample("unhosted_agent_runs_stopped_by{reason=\"dlp_blocked\"}"@, decimal(m.agent_runs_stopped_dlp_blocked as nat));
    lemma_holds_is_contains(t, "\n"@ + sample("unhosted_agent_runs_stopped_by{reason=\"dlp_blocked\"}"@, decimal(m.agent_runs_stopped_dlp_blocked as nat)));
}

} // verus!
