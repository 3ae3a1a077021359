//! Cloudflare Tunnel control: the decisions of the tunnel supervisor.
//!
//! The runtime spawns `cloudflared tunnel --url http://127.0.0.1:<port>`,
//! feeds each stderr line to [`TunnelControl::on_stderr_line`], and asks
//! [`TunnelControl::on_exit`] whether to revive the process when it dies.
//! The public URL is parsed out of cloudflared's log lines, and the
//! progress stage only ever moves forward.

use vstd::prelude::*;
use crate::text::{
    chars_of, decimal, find_first, first_occurrence, is_ws, is_ws_exec, last_occurrence_before,
    owned, push_str, push_u64, rfind_before, string_of_range, str_eq, trim, trim_chars,
    contains_any, contains_any_exec, views,
};

verus! {

/// Hard cap on consecutive auto-restarts before the supervisor gives up.
pub const MAX_AUTO_RESTARTS: u32 = 3;

/// Backoff between auto-restart attempts, in seconds.
pub const AUTO_RESTART_DELAY_SECS: u64 = 3;

/// Eager-tunnel watchdog interval, in seconds.
pub const WATCHDOG_INTERVAL_SECS: u64 = 30;

/// Grace period before the watchdog's first health check, in seconds.
pub const WATCHDOG_INITIAL_DELAY_SECS: u64 = 15;

/// Name of the file recording whether the tunnel comes up on boot.
pub const AUTOSTART_FILE: &'static str = "tunnel-autostart.txt";

/// Sub-stage of a starting tunnel, parsed from cloudflared's milestone
/// log lines. Ordered: `Spawning < Requesting < Connecting`.
#[derive(Clone, Copy, Debug, PartialEq, Eq, Structural, PartialOrd, Ord)]
pub enum StartingStage {
    /// Process spawned, no useful output yet.
    Spawning,
    /// Cloudflared has reached out to Cloudflare.
    Requesting,
    /// Cloudflared got a tunnel and is negotiating the connection.
    Connecting,
}

/// The position of a stage in the progress order.
pub open spec fn stage_rank(s: StartingStage) -> nat {
    match s {
        StartingStage::Spawning => 0,
        StartingStage::Requesting => 1,
        StartingStage::Connecting => 2,
    }
}

/// Whether `next` lies further along than `cur`.
pub fn stage_after(next: StartingStage, cur: StartingStage) -> (r: bool)
    ensures
        r == (stage_rank(next) > stage_rank(cur)),
{
    let a: u8 = match next {
        StartingStage::Spawning => 0,
        StartingStage::Requesting => 1,
        StartingStage::Connecting => 2,
    };
    let b: u8 = match cur {
        StartingStage::Spawning => 0,
        StartingStage::Requesting => 1,
        StartingStage::Connecting => 2,
    };
    a > b
}

/// The tunnel's state as the UI sees it.
#[derive(Clone, Debug)]
pub enum TunnelState {
    Idle,
    Starting { stage: StartingStage },
    Running { url: String },
    Failed { error: String },
}

/// A tunnel state with its texts taken as character sequences.
pub enum TunnelView {
    Idle,
    Starting { stage: StartingStage },
    Running { url: Seq<char> },
    Failed { error: Seq<char> },
}

impl View for TunnelState {
    type V = TunnelView;

    open spec fn view(&self) -> TunnelView {
        match self {
            TunnelState::Idle => TunnelView::Idle,
            TunnelState::Starting { stage } => TunnelView::Starting { stage: *stage },
            TunnelState::Running { url } => TunnelView::Running { url: url@ },
            TunnelState::Failed { error } => TunnelView::Failed { error: error@ },
        }
    }
}

/// The log lines that mark the `Connecting` stage.
pub open spec fn connecting_markers() -> Seq<Seq<char>> {
    seq![
        "Registered tunnel connection"@,
        "Generated Connector ID"@,
        "Starting metrics server"@,
        "Initial protocol"@,
    ]
}

/// The log lines that mark the `Requesting` stage.
pub open spec fn requesting_markers() -> Seq<Seq<char>> {
    seq!["Requesting new quick Tunnel"@, "Thank you for trying Cloudflare Tunnel"@]
}

/// The stage a log line announces; the furthest stage wins when a line
/// carries markers of more than one.
pub open spec fn stage_of_line(line: Seq<char>) -> Option<StartingStage> {
    if contains_any(line, connecting_markers()) {
        Some(StartingStage::Connecting)
    } else if contains_any(line, requesting_markers()) {
        Some(StartingStage::Requesting)
    } else {
        None
    }
}

/// Classifies a cloudflared log line into the stage it announces, or
/// `None` for lines that do not move the progress bar.
pub fn detect_stage(line: &str) -> (r: Option<StartingStage>)
    ensures
        r == stage_of_line(line@),
{
    let hay = chars_of(line);
    let connecting: Vec<&str> = vec![
        "Registered tunnel connection",
        "Generated Connector ID",
        "Starting metrics server",
        "Initial protocol",
    ];
    let requesting: Vec<&str> = vec![
        "Requesting new quick Tunnel",
        "Thank you for trying Cloudflare Tunnel",
    ];
    assert(views(connecting@) =~= connecting_markers());
    assert(views(requesting@) =~= requesting_markers());
    if contains_any_exec(hay.as_slice(), &connecting) {
        Some(StartingStage::Connecting)
    } else if contains_any_exec(hay.as_slice(), &requesting) {
        Some(StartingStage::Requesting)
    } else {
        None
    }
}

/// A character that ends a URL in a log line: whitespace or a pipe.
pub open spec fn ends_url(c: char) -> bool {
    is_ws(c) || c == '|'
}

/// The index of the first URL-ending character at or after `i`, or the
/// line's length when there is none.
pub open spec fn url_end_from(line: Seq<char>, i: int) -> int
    decreases line.len() - i,
{
    if i < 0 || i >= line.len() {
        line.len() as int
    } else if ends_url(line[i]) {
        i
    } else {
        url_end_from(line, i + 1)
    }
}

/// The position where the URL's scheme starts: the last `https://` that
/// ends before `pos`, or failing that the last `http://`.
pub open spec fn scheme_start(line: Seq<char>, pos: int) -> Option<int> {
    match last_occurrence_before(line, "https://"@, pos) {
        Some(p) => Some(p),
        None => last_occurrence_before(line, "http://"@, pos),
    }
}

/// The `*.trycloudflare.com` URL in a cloudflared log line: from the
/// scheme in front of the first `trycloudflare.com` up to the first
/// whitespace or pipe after it.
pub open spec fn trycloudflare_url(line: Seq<char>) -> Option<Seq<char>> {
    match first_occurrence(line, "trycloudflare.com"@) {
        None => None,
        Some(pos) => match scheme_start(line, pos) {
            None => None,
            Some(p) => Some(line.subrange(p, url_end_from(line, p))),
        },
    }
}

proof fn lemma_url_end_bounds(line: Seq<char>, i: int)
    requires
        0 <= i <= line.len(),
    ensures
        i <= url_end_from(line, i) <= line.len(),
    decreases line.len() - i,
{
    if i < line.len() && !ends_url(line[i]) {
        lemma_url_end_bounds(line, i + 1);
    }
}

/// Finds the `*.trycloudflare.com` URL inside a cloudflared log line.
pub fn extract_trycloudflare_url(line: &str) -> (r: Option<String>)
    ensures
        match r {
            Some(u) => trycloudflare_url(line@) == Some(u@),
            None => trycloudflare_url(line@) is None,
        },
{
    let hay = chars_of(line);
    let needle = chars_of("trycloudflare.com");
    let pos = match find_first(hay.as_slice(), needle.as_slice()) {
        Some(p) => p,
        None => return None,
    };
    proof {
        assert(first_occurrence(hay@, needle@) == Some(pos as int));
        assert(pos <= hay@.len());
    }
    let https = chars_of("https://");
    let http = chars_of("http://");
    let start = match rfind_before(hay.as_slice(), https.as_slice(), pos) {
        Some(p) => p,
        None => match rfind_before(hay.as_slice(), http.as_slice(), pos) {
            Some(p) => p,
            None => return None,
        },
    };
    proof {
        assert(scheme_start(hay@, pos as int) == Some(start as int));
        lemma_url_end_bounds(hay@, start as int);
    }
    let mut end = start;
    while end < hay.len() && !(is_ws_exec(hay[end]) || hay[end] == '|')
        invariant
            start <= end <= hay@.len(),
            url_end_from(hay@, end as int) == url_end_from(hay@, start as int),
        decreases hay@.len() - end,
    {
        end += 1;
    }
    Some(string_of_range(hay.as_slice(), start, end))
}

/// What the autostart file holds for a choice.
pub open spec fn autostart_text(enabled: bool) -> Seq<char> {
    if enabled {
        "enabled"@
    } else {
        "disabled"@
    }
}

/// The body written to the autostart file for a choice.
pub fn autostart_body(enabled: bool) -> (s: &'static str)
    ensures
        s@ == autostart_text(enabled),
{
    if enabled {
        "enabled"
    } else {
        "disabled"
    }
}

/// Reads the autostart file's contents: on only when, trimmed, it says
/// exactly `enabled`. Anything else reads as off.
pub fn autostart_enabled(text: &str) -> (r: bool)
    ensures
        r == (trim(text@) == "enabled"@),
{
    let t = trim_chars(chars_of(text).as_slice());
    let s = string_of_range(t.as_slice(), 0, t.len());
    assert(t@.subrange(0, t@.len() as int) =~= t@);
    str_eq(s.as_str(), "enabled")
}

/// Whether the tunnel is already starting or running.
pub open spec fn is_up(s: TunnelView) -> bool {
    s is Starting || s is Running
}

/// The state after one cloudflared log line: a line carrying the public
/// URL makes the tunnel `Running`; a milestone line moves a starting
/// tunnel to a later stage; any other line changes nothing.
pub open spec fn next_on_line(s: TunnelView, line: Seq<char>) -> TunnelView {
    match trycloudflare_url(line) {
        Some(u) => TunnelView::Running { url: u },
        None => match (s, stage_of_line(line)) {
            (TunnelView::Starting { stage }, Some(next)) => if stage_rank(next) > stage_rank(stage) {
                TunnelView::Starting { stage: next }
            } else {
                s
            },
            _ => s,
        },
    }
}

/// The supervisor's bookkeeping: the tunnel state, the consecutive
/// auto-restarts tried, and whether the user explicitly stopped it.
pub struct TunnelControl {
    pub state: TunnelState,
    /// Consecutive auto-restarts, reset when a tunnel comes up or on stop.
    pub restart_attempts: u32,
    /// Set by an explicit stop; the watchdog does not fight it.
    pub user_stopped: bool,
}

/// The failure text after too many consecutive crashes.
pub open spec fn crashed_text(attempts: u32) -> Seq<char> {
    "cloudflared crashed "@ + decimal(attempts as nat) + " times in a row \u{2014} check the binary"@
}

impl TunnelControl {
    /// The well-formedness of the bookkeeping: the restart counter never
    /// passes its cap.
    pub open spec fn wf(&self) -> bool {
        self.restart_attempts <= MAX_AUTO_RESTARTS
    }

    /// An idle tunnel with a fresh restart budget.
    pub fn new() -> (c: Self)
        ensures
            c.state@ == TunnelView::Idle,
            c.restart_attempts == 0,
            !c.user_stopped,
            c.wf(),
    {
        TunnelControl { state: TunnelState::Idle, restart_attempts: 0, user_stopped: false }
    }

    /// The first step of a start: when the tunnel is already up, nothing
    /// changes and the caller returns the current state (`false`);
    /// otherwise the user's earlier stop is cleared and the start goes on
    /// (`true`).
    pub fn begin_start(&mut self) -> (proceed: bool)
        ensures
            proceed == !is_up(old(self).state@),
            final(self).state@ == old(self).state@,
            final(self).restart_attempts == old(self).restart_attempts,
            final(self).user_stopped == if proceed {
                false
            } else {
                old(self).user_stopped
            },
    {
        match &self.state {
            TunnelState::Starting { .. } | TunnelState::Running { .. } => false,
            _ => {
                self.user_stopped = false;
                true
            },
        }
    }

    /// The network preflight failed: the tunnel fails with a message that
    /// says why.
    pub fn fail_offline(&mut self)
        ensures
            final(self).state@ == (TunnelView::Failed {
                error: "no internet \u{2014} open to internet needs an outbound connection"@,
            }),
            final(self).restart_attempts == old(self).restart_attempts,
            final(self).user_stopped == old(self).user_stopped,
    {
        self.state = TunnelState::Failed {
            error: owned("no internet \u{2014} open to internet needs an outbound connection"),
        };
    }

    /// Hands off to the supervisor: unless the tunnel came up in the
    /// meantime (`false`, nothing changes), the state becomes
    /// `Starting { Spawning }` (`true`).
    pub fn mark_spawning(&mut self) -> (proceed: bool)
        ensures
            proceed == !is_up(old(self).state@),
            final(self).state@ == if proceed {
                TunnelView::Starting { stage: StartingStage::Spawning }
            } else {
                old(self).state@
            },
            final(self).restart_attempts == old(self).restart_attempts,
            final(self).user_stopped == old(self).user_stopped,
    {
        match &self.state {
            TunnelState::Starting { .. } | TunnelState::Running { .. } => false,
            _ => {
                self.state = TunnelState::Starting { stage: StartingStage::Spawning };
                true
            },
        }
    }

    /// Cloudflared could not be spawned: the tunnel fails with the reason.
    pub fn on_spawn_error(&mut self, reason: &str)
        ensures
            final(self).state@ == (TunnelView::Failed {
                error: "failed to spawn cloudflared: "@ + reason@,
            }),
            final(self).restart_attempts == old(self).restart_attempts,
            final(self).user_stopped == old(self).user_stopped,
    {
        let mut e = owned("failed to spawn cloudflared: ");
        push_str(&mut e, reason);
        self.state = TunnelState::Failed { error: e };
    }

    /// Cloudflared's stderr could not be taken: the tunnel fails.
    pub fn on_stderr_unavailable(&mut self)
        ensures
            final(self).state@ == (TunnelView::Failed { error: "cloudflared stderr unavailable"@ }),
            final(self).restart_attempts == old(self).restart_attempts,
            final(self).user_stopped == old(self).user_stopped,
    {
        self.state = TunnelState::Failed { error: owned("cloudflared stderr unavailable") };
    }

    /// A process is attached: an idle state (a stop raced the spawn)
    /// becomes `Starting { Spawning }`; any other state is kept.
    pub fn on_child_attached(&mut self)
        ensures
            final(self).state@ == if old(self).state@ is Idle {
                TunnelView::Starting { stage: StartingStage::Spawning }
            } else {
                old(self).state@
            },
            final(self).restart_attempts == old(self).restart_attempts,
            final(self).user_stopped == old(self).user_stopped,
    {
        if let TunnelState::Idle = self.state {
            self.state = TunnelState::Starting { stage: StartingStage::Spawning };
        }
    }

    /// Takes in one cloudflared log line. A line carrying the public URL
    /// makes the tunnel `Running` and resets the restart budget; a
    /// milestone line moves a starting tunnel forward, never back.
    pub fn on_stderr_line(&mut self, line: &str)
        requires
            old(self).wf(),
        ensures
            final(self).wf(),
            final(self).user_stopped == old(self).user_stopped,
            final(self).state@ == next_on_line(old(self).state@, line@),
            final(self).restart_attempts == if trycloudflare_url(line@) is Some {
                0
            } else {
                old(self).restart_attempts
            },
    {
        match extract_trycloudflare_url(line) {
            Some(url) => {
                self.state = TunnelState::Running { url };
                self.restart_attempts = 0;
            },
            None => {
                if let Some(next) = detect_stage(line) {
                    if let TunnelState::Starting { stage } = self.state {
                        if stage_after(next, stage) {
                            self.state = TunnelState::Starting { stage: next };
                        }
                    }
                }
            },
        }
    }

    /// Cloudflared exited. A running tunnel is revived (`true`) while the
    /// restart budget lasts, else it fails; a tunnel that never produced a
    /// URL fails; an idle or failed tunnel is left alone.
    pub fn on_exit(&mut self) -> (revive: bool)
        requires
            old(self).wf(),
        ensures
            final(self).wf(),
            final(self).user_stopped == old(self).user_stopped,
            match old(self).state@ {
                TunnelView::Running { .. } => if old(self).restart_attempts < MAX_AUTO_RESTARTS {
                    &&& revive
                    &&& final(self).restart_attempts == old(self).restart_attempts + 1
                    &&& final(self).state@ == (TunnelView::Starting {
                        stage: StartingStage::Spawning,
                    })
                } else {
                    &&& !revive
                    &&& final(self).restart_attempts == old(self).restart_attempts
                    &&& final(self).state@ == (TunnelView::Failed {
                        error: crashed_text(old(self).restart_attempts),
                    })
                },
                TunnelView::Starting { .. } => {
                    &&& !revive
                    &&& final(self).restart_attempts == old(self).restart_attempts
                    &&& final(self).state@ == (TunnelView::Failed {
                        error: "cloudflared exited before producing a url"@,
                    })
                },
                _ => {
                    &&& !revive
                    &&& final(self).restart_attempts == old(self).restart_attempts
                    &&& final(self).state@ == old(self).state@
                },
            },
    {
        match &self.state {
            TunnelState::Running { .. } => {
                if self.restart_attempts < MAX_AUTO_RESTARTS {
                    self.restart_attempts = self.restart_attempts + 1;
                    self.state = TunnelState::Starting { stage: StartingStage::Spawning };
                    true
                } else {
                    let mut e = owned("cloudflared crashed ");
                    push_u64(&mut e, self.restart_attempts as u64);
                    push_str(&mut e, " times in a row \u{2014} check the binary");
                    self.state = TunnelState::Failed { error: e };
                    false
                }
            },
            TunnelState::Starting { .. } => {
                self.state = TunnelState::Failed {
                    error: owned("cloudflared exited before producing a url"),
                };
                false
            },
            _ => false,
        }
    }

    /// An explicit stop: the tunnel goes idle, the restart budget is
    /// renewed and the watchdog backs off until the next start.
    pub fn stop(&mut self)
        ensures
            final(self).state@ == TunnelView::Idle,
            final(self).restart_attempts == 0,
            final(self).user_stopped,
            final(self).wf(),
    {
        self.state = TunnelState::Idle;
        self.restart_attempts = 0;
        self.user_stopped = true;
    }

    /// The watchdog's question: is the tunnel down (idle or failed)
    /// without the user having stopped it?
    pub fn needs_revive(&self) -> (r: bool)
        ensures
            r == ((self.state@ is Idle || self.state@ is Failed) && !self.user_stopped),
    {
        let dead = match &self.state {
            TunnelState::Idle => true,
            TunnelState::Failed { .. } => true,
            _ => false,
        };
        dead && !self.user_stopped
    }
}

/// The progress stage of a starting tunnel never moves backwards: after
/// any log line it is either running or starting at the same or a later
/// stage.
pub proof fn stage_never_regresses(s: TunnelView, line: Seq<char>)
    requires
        s is Starting,
    ensures
        next_on_line(s, line) is Running || (next_on_line(s, line) is Starting && stage_rank(
            next_on_line(s, line)->stage,
        ) >= stage_rank(s->stage)),
{
}

/// Log lines never take a tunnel out of the idle or failed states except
/// by announcing its URL.
pub proof fn lines_do_not_wake_a_stopped_tunnel(s: TunnelView, line: Seq<char>)
    requires
        s is Idle || s is Failed,
        trycloudflare_url(line) is None,
    ensures
        next_on_line(s, line) == s,
{
}

} // verus!
