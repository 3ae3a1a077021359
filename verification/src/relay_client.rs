//! The relay client's decisions.
//!
//! The daemon keeps a WebSocket open to its relay (registering with its
//! identity) and reconnects whenever the session ends, backing off 1, 2,
//! 4, ... up to 60 seconds after failures and starting over at 1 after a
//! clean close. The runtime runs the socket; this module holds the
//! connection state, the backoff, the URLs derived from the relay's
//! address and the request ids.

use vstd::prelude::*;
use crate::auth::b64url_encode;
use crate::text::{chars_of, find_first, first_occurrence, owned, push_str, str_eq, string_of_range};
use crate::upstream::{trim_trailing, trim_trailing_slashes};

verus! {

/// The connection state shown in the status endpoint.
#[derive(Clone, Debug, PartialEq, Eq)]
pub enum RelayState {
    Disabled,
    Connecting,
    Registered,
    Error(String),
}

/// The longest backoff between reconnects, in seconds.
pub const MAX_BACKOFF_SECS: u64 = 60;

/// The backoff after a failed session: doubled, at most 60 seconds.
pub fn next_backoff(secs: u64) -> (n: u64)
    requires
        secs <= MAX_BACKOFF_SECS,
    ensures
        n == if 2 * secs <= MAX_BACKOFF_SECS {
            2 * secs
        } else {
            MAX_BACKOFF_SECS as int
        },
{
    let d = secs * 2;
    if d <= MAX_BACKOFF_SECS {
        d
    } else {
        MAX_BACKOFF_SECS
    }
}

/// How a relay session ended.
#[derive(Clone, Debug)]
pub enum SessionEnd {
    /// The relay closed the session cleanly.
    Clean,
    /// The session failed; the error's text.
    Failed(String),
}

/// After a session ends: the state to show (an error keeps its text, a
/// clean close leaves the state as it was) and the wait before the next
/// attempt (reset to 1 second after a clean close).
pub fn after_session(end: SessionEnd, current: RelayState, backoff: u64) -> (r: (RelayState, u64, u64))
    requires
        1 <= backoff <= MAX_BACKOFF_SECS,
    ensures
        match end {
            SessionEnd::Clean => r.0 == current && r.1 == 1 && r.2 == 2,
            SessionEnd::Failed(m) => r.0 == RelayState::Error(m) && r.1 == backoff && r.2 == if 2
                * backoff <= MAX_BACKOFF_SECS {
                2 * backoff
            } else {
                MAX_BACKOFF_SECS as int
            },
        },
        1 <= r.2 <= MAX_BACKOFF_SECS,
{
    match end {
        SessionEnd::Clean => (current, 1, 2),
        SessionEnd::Failed(m) => (RelayState::Error(m), backoff, next_backoff(backoff)),
    }
}

/// The backoff stays between 1 and 60 seconds however sessions end.
pub proof fn backoff_stays_bounded(secs: u64)
    requires
        1 <= secs <= MAX_BACKOFF_SECS,
    ensures
        1 <= (if 2 * secs <= MAX_BACKOFF_SECS {
            2 * secs
        } else {
            MAX_BACKOFF_SECS as int
        }) <= MAX_BACKOFF_SECS,
{
}

/// The relay's WebSocket endpoint: its URL without trailing slashes,
/// then `/v1/tunnel`.
pub fn tunnel_url(relay_url: &str) -> (s: String)
    ensures
        s@ == trim_trailing(relay_url@, '/') + "/v1/tunnel"@,
{
    let mut s = trim_trailing_slashes(relay_url);
    push_str(&mut s, "/v1/tunnel");
    s
}

/// `s` with the first occurrence of `from` replaced by `to`
/// (`str::replacen(from, to, 1)`).
pub open spec fn replace_first(s: Seq<char>, from: Seq<char>, to: Seq<char>) -> Seq<char> {
    match first_occurrence(s, from) {
        Some(i) => s.subrange(0, i) + to + s.subrange(i + from.len(), s.len() as int),
        None => s,
    }
}

fn replacen_once(s: &str, from: &str, to: &str) -> (r: String)
    requires
        from@.len() > 0,
    ensures
        r@ == replace_first(s@, from@, to@),
{
    let v = chars_of(s);
    let f = chars_of(from);
    match find_first(v.as_slice(), f.as_slice()) {
        Some(i) => {
            assert(crate::text::is_first_occurrence(v@, f@, i as int));
            assert(crate::text::occurs_at(v@, f@, i as int));
            assert(i + f@.len() <= v@.len());
            let mut r = string_of_range(v.as_slice(), 0, i);
            push_str(&mut r, to);
            let vl = v.len();
            let tail = string_of_range(v.as_slice(), i + f.len(), vl);
            push_str(&mut r, tail.as_str());
            r
        },
        None => owned(s),
    }
}

/// The relay's HTTP base from its WebSocket URL: the first `wss://`
/// becomes `https://`, then the first `ws://` becomes `http://`.
pub fn relay_http_base(relay_url: &str) -> (s: String)
    ensures
        s@ == replace_first(replace_first(relay_url@, "wss://"@, "https://"@), "ws://"@, "http://"@),
{
    proof {
        reveal_strlit("wss://");
        reveal_strlit("ws://");
    }
    let a = replacen_once(relay_url, "wss://", "https://");
    replacen_once(a.as_str(), "ws://", "http://")
}

/// 16 bytes from the thread-local cryptographic generator
/// (`rand::Rng::fill` on `rand::thread_rng`). Nothing is stated about the
/// bytes.
#[verifier::external_body]
fn random_bytes16() -> [u8; 16] {
    let mut buf = [0u8; 16];
    rand::Rng::fill(&mut rand::thread_rng(), &mut buf);
    buf
}

/// A fresh request id: 16 random bytes in URL-safe base64 (no padding).
pub fn uuid_simple() -> (s: String)
    ensures
        exists|b: Seq<u8>| b.len() == 16 && s@ == b64url_encode(b),
{
    let b = random_bytes16();
    crate::auth::b64url_encode_exec(&b)
}


// ---------------------------------------------------------------------
// Session protocol
// ---------------------------------------------------------------------

/// A frame from the relay, as the runtime decoded it.
#[derive(Debug, Clone)]
pub enum ServerFrame {
    Hello { challenge: String },
    Registered,
    Inbound { from_pubkey: String, payload: String },
    Error { code: String, message: String },
}

/// Why the handshake failed: the relay's own message, or a frame out of
/// turn.
pub open spec fn hello_error(code: Seq<char>, message: Seq<char>) -> Seq<char> {
    "relay rejected with "@ + code + ": "@ + message
}

/// The challenge the relay's first frame carries; the error text when the
/// first frame is not a hello.
pub fn expect_hello(frame: ServerFrame) -> (r: Result<String, String>)
    ensures
        match frame {
            ServerFrame::Hello { challenge } => r == Ok::<String, String>(challenge),
            ServerFrame::Error { code, message } => (r matches Err(e) && e@ == hello_error(
                code@,
                message@,
            )),
            _ => (r matches Err(e) && e@ == "relay sent unexpected first frame"@),
        },
{
    match frame {
        ServerFrame::Hello { challenge } => Ok(challenge),
        ServerFrame::Error { code, message } => {
            let mut s = owned("relay rejected with ");
            push_str(&mut s, code.as_str());
            push_str(&mut s, ": ");
            push_str(&mut s, message.as_str());
            Err(s)
        },
        _ => Err(owned("relay sent unexpected first frame")),
    }
}

/// Whether the relay confirmed the registration; the error text when not.
pub fn expect_registered(frame: ServerFrame) -> (r: Result<(), String>)
    ensures
        match frame {
            ServerFrame::Registered => r is Ok,
            ServerFrame::Error { code, message } => (r matches Err(e) && e@
                == "relay refused registration ("@ + code@ + "): "@ + message@),
            _ => (r matches Err(e) && e@ == "relay sent unexpected confirmation frame"@),
        },
{
    match frame {
        ServerFrame::Registered => Ok(()),
        ServerFrame::Error { code, message } => {
            let mut s = owned("relay refused registration (");
            push_str(&mut s, code.as_str());
            push_str(&mut s, "): ");
            push_str(&mut s, message.as_str());
            Err(s)
        },
        _ => Err(owned("relay sent unexpected confirmation frame")),
    }
}

/// The envelope a peer's payload carries through the relay.
#[derive(Debug, Clone, PartialEq, Eq)]
pub enum RelayPayload {
    /// A request from the peer; its body is JSON text.
    ReqStart { id: String, body: String },
    RespChunk { id: String, data: String },
    RespEnd { id: String },
    /// The peer's request failed.
    Failed { id: String, msg: String },
}

/// What the response to one of our requests brings.
#[derive(Debug, Clone, PartialEq, Eq)]
pub enum ResponseEvent {
    Chunk(Vec<u8>),
    End,
    Error(String),
}

/// What to do with a payload that arrived.
#[derive(Debug, Clone, PartialEq, Eq)]
pub enum PayloadAction {
    /// Hand the peer's request to the daemon.
    Dispatch { from_pubkey: String, id: String, body: String },
    /// Pass an event to the caller waiting on request `id`.
    Deliver { id: String, event: ResponseEvent },
    /// Nobody waits for it.
    Drop,
}

/// The ids of our requests still waiting for their response, with each
/// id once.
#[derive(Debug)]
pub struct PendingCalls {
    ids: Vec<String>,
}

/// The view of a list of texts.
pub open spec fn ids_view(v: Seq<String>) -> Seq<Seq<char>> {
    crate::text::string_views(v)
}

/// Each id once.
pub open spec fn unique_ids(s: Seq<Seq<char>>) -> bool {
    forall|i: int, j: int| 0 <= i < j < s.len() ==> s[i] != s[j]
}

impl View for PendingCalls {
    type V = Set<Seq<char>>;

    closed spec fn view(&self) -> Set<Seq<char>> {
        ids_view(self.ids@).to_set()
    }
}

impl PendingCalls {
    #[verifier::type_invariant]
    spec fn ids_unique(self) -> bool {
        unique_ids(ids_view(self.ids@))
    }

    /// No calls in flight.
    pub fn new() -> (p: Self)
        ensures
            p@ == Set::<Seq<char>>::empty(),
    {
        let p = PendingCalls { ids: Vec::new() };
        assert(p@ =~= Set::<Seq<char>>::empty());
        p
    }

    fn index_of(&self, id: &str) -> (r: Option<usize>)
        ensures
            match r {
                Some(i) => i < self.ids@.len() && self.ids@[i as int]@ == id@,
                None => !self@.contains(id@),
            },
    {
        let mut i: usize = 0;
        while i < self.ids.len()
            invariant
                i <= self.ids@.len(),
                forall|k: int| 0 <= k < i ==> self.ids@[k]@ != id@,
            decreases self.ids@.len() - i,
        {
            if str_eq(self.ids[i].as_str(), id) {
                return Some(i);
            }
            i += 1;
        }
        assert(!ids_view(self.ids@).contains(id@)) by {
            assert forall|k: int| 0 <= k < ids_view(self.ids@).len() implies ids_view(self.ids@)[k] != id@ by {
                assert(ids_view(self.ids@)[k] == self.ids@[k]@);
            }
        }
        None
    }

    /// Whether a call with this id waits for its response.
    pub fn is_pending(&self, id: &str) -> (r: bool)
        ensures
            r == self@.contains(id@),
    {
        match self.index_of(id) {
            Some(i) => {
                assert(ids_view(self.ids@)[i as int] == id@);
                true
            },
            None => false,
        }
    }

    /// Records a call sent with this id.
    pub fn begin(&mut self, id: String)
        ensures
            final(self)@ == old(self)@.insert(id@),
    {
        proof {
            use_type_invariant(&*self);
        }
        if self.is_pending(id.as_str()) {
            assert(self@.insert(id@) =~= self@);
            return;
        }
        let ghost before = ids_view(self.ids@);
        let mut ids: Vec<String> = Vec::new();
        std::mem::swap(&mut ids, &mut self.ids);
        let ghost held = ids@;
        ids.push(id);
        assert(ids_view(ids@) =~= before.push(id@));
        proof {
            before.lemma_push_to_set_commute(id@);
        }
        self.ids = ids;
    }

    /// Forgets a call; returns whether it was pending.
    fn finish(&mut self, id: &str) -> (was: bool)
        ensures
            was == old(self)@.contains(id@),
            final(self)@ == old(self)@.remove(id@),
    {
        proof {
            use_type_invariant(&*self);
        }
        match self.index_of(id) {
            Some(i) => {
                let ghost before = ids_view(self.ids@);
                let mut ids: Vec<String> = Vec::new();
                std::mem::swap(&mut ids, &mut self.ids);
                ids.remove(i);
                let ghost after = ids_view(ids@);
                assert(after =~= before.remove(i as int));
                assert(before[i as int] == id@);
                assert forall|x: Seq<char>| #[trigger] after.contains(x) <==> (before.contains(x) && x != id@) by {
                    if after.contains(x) {
                        let k = choose|k: int| 0 <= k < after.len() && after[k] == x;
                        if k < i {
                            assert(before[k] == x);
                        } else {
                            assert(before[k + 1] == x);
                        }
                    }
                    if before.contains(x) && x != id@ {
                        let k = choose|k: int| 0 <= k < before.len() && before[k] == x;
                        if k < i {
                            assert(after[k] == x);
                        } else if k > i {
                            assert(after[k - 1] == x);
                        }
                    }
                }
                assert(after.to_set() =~= before.to_set().remove(id@));
                assert(before.to_set().contains(id@));
                self.ids = ids;
                true
            },
            None => {
                assert(self@.remove(id@) =~= self@);
                false
            },
        }
    }

    /// Routes a payload that arrived from `from_pubkey`: a request goes to
    /// the daemon; a chunk goes to the waiting caller; an end or a failure
    /// goes to the waiting caller and ends the call; anything for an id
    /// nobody waits for is dropped.
    pub fn on_payload(&mut self, from_pubkey: &str, payload: RelayPayload) -> (a: PayloadAction)
        ensures
            match payload {
                RelayPayload::ReqStart { id, body } => final(self)@ == old(self)@ && (a matches PayloadAction::Dispatch { from_pubkey: f, id: i, body: b } && f@
                    == from_pubkey@ && i == id && b == body),
                RelayPayload::RespChunk { id, data } => final(self)@ == old(self)@ && if old(
                    self,
                )@.contains(id@) {
                    a matches PayloadAction::Deliver { id: i, event: ResponseEvent::Chunk(bytes) }
                        && i == id && bytes@ == crate::node::utf8_bytes(data@)
                } else {
                    a == PayloadAction::Drop
                },
                RelayPayload::RespEnd { id } => final(self)@ == old(self)@.remove(id@) && if old(
                    self,
                )@.contains(id@) {
                    a == PayloadAction::Deliver { id, event: ResponseEvent::End }
                } else {
                    a == PayloadAction::Drop
                },
                RelayPayload::Failed { id, msg } => final(self)@ == old(self)@.remove(id@) && if old(
                    self,
                )@.contains(id@) {
                    a == PayloadAction::Deliver { id, event: ResponseEvent::Error(msg) }
                } else {
                    a == PayloadAction::Drop
                },
            },
    {
        match payload {
            RelayPayload::ReqStart { id, body } => PayloadAction::Dispatch {
                from_pubkey: owned(from_pubkey),
                id,
                body,
            },
            RelayPayload::RespChunk { id, data } => {
                if self.is_pending(id.as_str()) {
                    PayloadAction::Deliver { id, event: ResponseEvent::Chunk(crate::node::bytes_of(data.as_str())) }
                } else {
                    PayloadAction::Drop
                }
            },
            RelayPayload::RespEnd { id } => {
                if self.finish(id.as_str()) {
                    PayloadAction::Deliver { id, event: ResponseEvent::End }
                } else {
                    PayloadAction::Drop
                }
            },
            RelayPayload::Failed { id, msg } => {
                if self.finish(id.as_str()) {
                    PayloadAction::Deliver { id, event: ResponseEvent::Error(msg) }
                } else {
                    PayloadAction::Drop
                }
            },
        }
    }

    /// The session dropped: every waiting call is ended (each is told
    /// `relay disconnected`). Returns their ids.
    pub fn on_disconnect(&mut self) -> (ended: Vec<String>)
        ensures
            final(self)@ == Set::<Seq<char>>::empty(),
            ids_view(ended@).to_set() == old(self)@,
    {
        let mut ids: Vec<String> = Vec::new();
        std::mem::swap(&mut ids, &mut self.ids);
        assert(self@ =~= Set::<Seq<char>>::empty());
        ids
    }
}

/// The message every call still waiting is told when the session drops.
pub fn disconnected_message() -> (s: &'static str)
    ensures
        s@ == "relay disconnected"@,
{
    "relay disconnected"
}

/// Once a call has ended its id is no longer pending, so the chunks,
/// ends and failures that still arrive for it are dropped.
pub proof fn ended_calls_hear_nothing(pending: Set<Seq<char>>, id: Seq<char>)
    ensures
        !pending.remove(id).contains(id),
{
}

/// The payload that carries one event of a request the peer sent us, and
/// whether it is the last one (an end or an error).
pub fn reply_payload(id: String, event: ResponseEvent) -> (r: (RelayPayload, bool))
    ensures
        match event {
            ResponseEvent::Chunk(b) => (r.0 matches RelayPayload::RespChunk { id: i, data } && i == id
                && data@ == lossy_text(b@)) && !r.1,
            ResponseEvent::End => r.0 == RelayPayload::RespEnd { id } && r.1,
            ResponseEvent::Error(m) => r.0 == RelayPayload::Failed { id, msg: m } && r.1,
        },
{
    match event {
        ResponseEvent::Chunk(b) => (RelayPayload::RespChunk { id, data: utf8_lossy(b) }, false),
        ResponseEvent::End => (RelayPayload::RespEnd { id }, true),
        ResponseEvent::Error(msg) => (RelayPayload::Failed { id, msg }, true),
    }
}

/// What `String::from_utf8_lossy` makes of some bytes.
pub uninterp spec fn lossy_text(b: Seq<u8>) -> Seq<char>;

/// `String::from_utf8_lossy`: the text the bytes encode, with each
/// invalid sequence replaced by U+FFFD; named by `lossy_text`. Valid
/// UTF-8 comes back as decoded.
#[verifier::external_body]
pub(crate) fn utf8_lossy(b: Vec<u8>) -> (s: String)
    ensures
        s@ == lossy_text(b@),
        crate::agent_fs::utf8_decode(b@) matches Some(t) ==> s@ == t,
{
    String::from_utf8_lossy(&b).into_owned()
}


/// What one response event does to a reply being collected.
#[derive(Debug, Clone, PartialEq, Eq)]
pub enum CollectStep {
    /// Keep reading.
    More,
    /// The reply is complete: these bytes.
    Done(Vec<u8>),
    /// The call failed with this message.
    Failed(String),
}

/// A whole reply gathered from a call through the relay.
#[derive(Debug)]
pub struct ReplyCollector {
    buf: Vec<u8>,
}

impl View for ReplyCollector {
    type V = Seq<u8>;

    closed spec fn view(&self) -> Seq<u8> {
        self.buf@
    }
}

/// How a reply ends once the stream is over: its bytes, or the error of a
/// peer that answered nothing.
pub open spec fn reply_end(buf: Seq<u8>) -> Result<Seq<u8>, Seq<char>> {
    if buf.len() == 0 {
        Err("peer closed stream with no response"@)
    } else {
        Ok(buf)
    }
}

impl ReplyCollector {
    /// Nothing received yet.
    pub fn new() -> (c: Self)
        ensures
            c@ == Seq::<u8>::empty(),
    {
        ReplyCollector { buf: Vec::new() }
    }

    /// Takes one event: chunks are appended; the end completes the reply
    /// (an empty one is an error); an error ends it with the peer's
    /// message.
    pub fn on_event(&mut self, event: ResponseEvent) -> (step: CollectStep)
        ensures
            match event {
                ResponseEvent::Chunk(b) => final(self)@ == old(self)@ + b@ && step == CollectStep::More,
                ResponseEvent::End => match reply_end(old(self)@) {
                    Ok(all) => (step matches CollectStep::Done(v) && v@ == all),
                    Err(m) => (step matches CollectStep::Failed(e) && e@ == m),
                },
                ResponseEvent::Error(msg) => (step matches CollectStep::Failed(e) && e@ == "peer rejected: "@
                    + msg@),
            },
    {
        match event {
            ResponseEvent::Chunk(b) => {
                let mut i: usize = 0;
                let ghost start = self.buf@;
                while i < b.len()
                    invariant
                        i <= b@.len(),
                        self.buf@ == start + b@.take(i as int),
                    decreases b@.len() - i,
                {
                    self.buf.push(b[i]);
                    assert(self.buf@ =~= start + b@.take(i + 1));
                    i += 1;
                }
                assert(b@.take(i as int) =~= b@);
                CollectStep::More
            },
            ResponseEvent::End => self.finish(),
            ResponseEvent::Error(msg) => {
                let mut e = owned("peer rejected: ");
                push_str(&mut e, msg.as_str());
                CollectStep::Failed(e)
            },
        }
    }

    /// The stream closed: the reply as collected (an empty one is an
    /// error).
    pub fn finish(&mut self) -> (step: CollectStep)
        ensures
            match reply_end(old(self)@) {
                Ok(all) => (step matches CollectStep::Done(v) && v@ == all),
                Err(m) => (step matches CollectStep::Failed(e) && e@ == m),
            },
    {
        if self.buf.len() == 0 {
            CollectStep::Failed(owned("peer closed stream with no response"))
        } else {
            let mut out: Vec<u8> = Vec::new();
            std::mem::swap(&mut out, &mut self.buf);
            CollectStep::Done(out)
        }
    }
}

/// How a request was served, as the `x-unhosted-served-by` header says.
#[derive(Debug, Clone)]
pub enum ServedBy {
    Local,
    /// A peer over direct HTTP, by name.
    Peer(String),
    /// A peer through the relay, by name.
    PeerViaRelay(String),
    /// A peer over QUIC.
    PeerViaQuic,
}

/// The `x-unhosted-served-by` header value.
pub fn served_by_header(s: &ServedBy) -> (h: String)
    ensures
        h@ == match s {
            ServedBy::Local => "local"@,
            ServedBy::Peer(n) => "peer:"@ + n@,
            ServedBy::PeerViaRelay(n) => "peer:"@ + n@ + ":relay"@,
            ServedBy::PeerViaQuic => "peer:quic"@,
        },
{
    match s {
        ServedBy::Local => owned("local"),
        ServedBy::Peer(n) => {
            let mut h = owned("peer:");
            push_str(&mut h, n.as_str());
            h
        },
        ServedBy::PeerViaRelay(n) => {
            let mut h = owned("peer:");
            push_str(&mut h, n.as_str());
            push_str(&mut h, ":relay");
            h
        },
        ServedBy::PeerViaQuic => owned("peer:quic"),
    }
}

} // verus!
