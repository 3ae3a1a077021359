//! The audit feed's ring buffer.
//!
//! Every operation that touches authentication, configuration or peer
//! state emits a structured event. The most recent events are kept in a
//! ring of fixed capacity (1000 by default) so late subscribers can see
//! the last few minutes; when full, the oldest event makes room. The
//! runtime also fans each event out to live subscribers.

use vstd::prelude::*;
use crate::text::owned;

verus! {

/// Default ring size.
pub const RING_DEFAULT: usize = 1000;

/// Default capacity of the live broadcast channel.
pub const BROADCAST_DEFAULT: usize = 256;

/// One audit event.
#[derive(Debug, Clone)]
pub enum AuditEvent {
    /// A chat completion request entered the daemon.
    ChatCompletionStarted { ts: u64, caller: String, upstream: String, model: String },
    /// A chat completion finished cleanly; `completion_tokens` is -1 when
    /// unknown.
    ChatCompletionFinished {
        ts: u64,
        caller: String,
        upstream: String,
        model: String,
        completion_tokens: i64,
    },
    /// A new peer was paired (`direction` is `offered` or `accepted`).
    PeerPaired { ts: u64, peer_name: String, peer_pubkey: String, direction: String },
    /// An existing peer was removed.
    PeerUnpaired { ts: u64, peer_name: String, peer_pubkey: String },
    /// The public-mode policy changed; the policy after enforcement as
    /// JSON text.
    PolicyChanged { ts: u64, caller: String, policy: String },
    /// A chat completion was blocked by the DLP integration.
    DlpBlocked { ts: u64, caller: String, model: String, reason: String },
    /// The tunnel changed state (`starting`, `live`, `stopped`); the URL
    /// when live.
    TunnelStateChanged { ts: u64, state: String, url: String },
}

/// An event as plain values: its kind's number, its time, its texts in
/// field order and its token count (0 where the kind has none).
pub open spec fn event_view(e: AuditEvent) -> (nat, u64, Seq<Seq<char>>, i64) {
    match e {
        AuditEvent::ChatCompletionStarted { ts, caller, upstream, model } => (
            0,
            ts,
            seq![caller@, upstream@, model@],
            0,
        ),
        AuditEvent::ChatCompletionFinished { ts, caller, upstream, model, completion_tokens } => (
            1,
            ts,
            seq![caller@, upstream@, model@],
            completion_tokens,
        ),
        AuditEvent::PeerPaired { ts, peer_name, peer_pubkey, direction } => (
            2,
            ts,
            seq![peer_name@, peer_pubkey@, direction@],
            0,
        ),
        AuditEvent::PeerUnpaired { ts, peer_name, peer_pubkey } => (
            3,
            ts,
            seq![peer_name@, peer_pubkey@],
            0,
        ),
        AuditEvent::PolicyChanged { ts, caller, policy } => (4, ts, seq![caller@, policy@], 0),
        AuditEvent::DlpBlocked { ts, caller, model, reason } => (
            5,
            ts,
            seq![caller@, model@, reason@],
            0,
        ),
        AuditEvent::TunnelStateChanged { ts, state, url } => (6, ts, seq![state@, url@], 0),
    }
}

/// The events as plain values.
pub open spec fn events_view(s: Seq<AuditEvent>) -> Seq<(nat, u64, Seq<Seq<char>>, i64)> {
    s.map_values(|e: AuditEvent| event_view(e))
}

/// A copy of an event.
pub fn copy_event(e: &AuditEvent) -> (c: AuditEvent)
    ensures
        event_view(c) == event_view(*e),
{
    match e {
        AuditEvent::ChatCompletionStarted { ts, caller, upstream, model } => {
            AuditEvent::ChatCompletionStarted {
                ts: *ts,
                caller: owned(caller.as_str()),
                upstream: owned(upstream.as_str()),
                model: owned(model.as_str()),
            }
        },
        AuditEvent::ChatCompletionFinished { ts, caller, upstream, model, completion_tokens } => {
            AuditEvent::ChatCompletionFinished {
                ts: *ts,
                caller: owned(caller.as_str()),
                upstream: owned(upstream.as_str()),
                model: owned(model.as_str()),
                completion_tokens: *completion_tokens,
            }
        },
        AuditEvent::PeerPaired { ts, peer_name, peer_pubkey, direction } => AuditEvent::PeerPaired {
            ts: *ts,
            peer_name: owned(peer_name.as_str()),
            peer_pubkey: owned(peer_pubkey.as_str()),
            direction: owned(direction.as_str()),
        },
        AuditEvent::PeerUnpaired { ts, peer_name, peer_pubkey } => AuditEvent::PeerUnpaired {
            ts: *ts,
            peer_name: owned(peer_name.as_str()),
            peer_pubkey: owned(peer_pubkey.as_str()),
        },
        AuditEvent::PolicyChanged { ts, caller, policy } => AuditEvent::PolicyChanged {
            ts: *ts,
            caller: owned(caller.as_str()),
            policy: owned(policy.as_str()),
        },
        AuditEvent::DlpBlocked { ts, caller, model, reason } => AuditEvent::DlpBlocked {
            ts: *ts,
            caller: owned(caller.as_str()),
            model: owned(model.as_str()),
            reason: owned(reason.as_str()),
        },
        AuditEvent::TunnelStateChanged { ts, state, url } => AuditEvent::TunnelStateChanged {
            ts: *ts,
            state: owned(state.as_str()),
            url: owned(url.as_str()),
        },
    }
}

/// The ring of recent events, oldest first.
pub struct AuditRing {
    pub events: Vec<AuditEvent>,
    pub cap: usize,
}

/// The ring after an event is appended: when it held exactly `cap`
/// events, the oldest is dropped first.
pub open spec fn after_emit(s: Seq<(nat, u64, Seq<Seq<char>>, i64)>, cap: nat, e: (nat, u64, Seq<Seq<char>>, i64)) -> Seq<(nat, u64, Seq<Seq<char>>, i64)> {
    if s.len() == cap && s.len() > 0 {
        s.drop_first().push(e)
    } else {
        s.push(e)
    }
}

/// The last `n` events (all of them when there are fewer).
pub open spec fn last_n(s: Seq<(nat, u64, Seq<Seq<char>>, i64)>, n: nat) -> Seq<(nat, u64, Seq<Seq<char>>, i64)> {
    if n >= s.len() {
        s
    } else {
        s.skip(s.len() - n)
    }
}

impl AuditRing {
    /// An empty ring of the given capacity.
    pub fn with_capacity(cap: usize) -> (r: Self)
        ensures
            r.events@.len() == 0,
            r.cap == cap,
    {
        AuditRing { events: Vec::new(), cap }
    }

    /// An empty ring of the default capacity.
    pub fn new() -> (r: Self)
        ensures
            r.events@.len() == 0,
            r.cap == RING_DEFAULT,
    {
        Self::with_capacity(RING_DEFAULT)
    }

    /// Appends an event, dropping the oldest when the ring is full.
    pub fn emit(&mut self, event: AuditEvent)
        ensures
            final(self).cap == old(self).cap,
            events_view(final(self).events@) == after_emit(
                events_view(old(self).events@),
                old(self).cap as nat,
                event_view(event),
            ),
    {
        let ghost before = events_view(self.events@);
        if self.events.len() == self.cap && self.events.len() > 0 {
            self.events.remove(0);
            assert(events_view(self.events@) =~= before.drop_first());
        }
        let ghost mid = events_view(self.events@);
        self.events.push(event);
        assert(events_view(self.events@) =~= mid.push(event_view(event)));
    }

    /// Copies of the most recent `n` events, oldest first.
    pub fn recent(&self, n: usize) -> (r: Vec<AuditEvent>)
        ensures
            events_view(r@) == last_n(events_view(self.events@), n as nat),
    {
        let len = self.events.len();
        let start = len.saturating_sub(n);
        let mut out: Vec<AuditEvent> = Vec::new();
        let mut i = start;
        let ghost all = events_view(self.events@);
        while i < len
            invariant
                start <= i <= len,
                len == self.events@.len(),
                all == events_view(self.events@),
                events_view(out@) == all.subrange(start as int, i as int),
            decreases len - i,
        {
            let ghost before = events_view(out@);
            out.push(copy_event(&self.events[i]));
            assert(events_view(out@) =~= before.push(all[i as int]));
            assert(all.subrange(start as int, i + 1) =~= all.subrange(start as int, i as int).push(all[i as int]));
            i += 1;
        }
        assert(all.subrange(start as int, len as int) =~= last_n(all, n as nat));
        out
    }
}

/// A ring with a positive capacity never holds more events than its
/// capacity, and always keeps the newest event last.
pub proof fn ring_respects_cap(s: Seq<(nat, u64, Seq<Seq<char>>, i64)>, cap: nat, e: (nat, u64, Seq<Seq<char>>, i64))
    requires
        cap > 0,
        s.len() <= cap,
    ensures
        after_emit(s, cap, e).len() <= cap,
        after_emit(s, cap, e).last() == e,
        s.len() < cap ==> after_emit(s, cap, e) == s.push(e),
{
}

} // verus!
