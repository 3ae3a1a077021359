//! Request authentication policy.
//!
//! Two tracks: peer auth through a signed `X-Unhosted-Auth` header for
//! requests between paired daemons, and local auth through a bearer token
//! for the user's own clients. A replay guard remembers recently seen
//! `(pubkey, ts, signature prefix)` keys so a captured signed request
//! cannot be replayed within the window.

use vstd::prelude::*;
use vstd::string::StringSliceAdditionalSpecFns;
use crate::clock::{elapsed_millis, instant_now, unix_now_secs_checked};
use crate::identity::{split3, verify_request_spec, Identity};
use crate::text::{chars_of, owned, starts_with, str_eq};

verus! {

/// Hard cap on the replay table.
pub const REPLAY_MAX_ENTRIES: usize = 65536;

/// How an incoming request authenticated.
#[derive(Debug, Clone)]
pub enum AuthOutcome {
    /// Verified signed request from a paired peer; the pubkey is base64.
    Peer(String),
    /// Verified local bearer token.
    Local,
    /// No auth header, but the request came from loopback.
    LoopbackUnauthed,
    /// Header present but invalid.
    Rejected(&'static str),
    /// No auth header and not from loopback.
    Missing,
}

impl AuthOutcome {
    /// Authenticated as a paired peer or with the local bearer.
    pub fn is_authed(&self) -> (r: bool)
        ensures
            r == (self is Peer || self is Local),
    {
        match self {
            AuthOutcome::Peer(_) | AuthOutcome::Local => true,
            _ => false,
        }
    }

    /// The caller is the local user: the local bearer or loopback.
    pub fn is_local_user(&self) -> (r: bool)
        ensures
            r == (self is Local || self is LoopbackUnauthed),
    {
        match self {
            AuthOutcome::Local | AuthOutcome::LoopbackUnauthed => true,
            _ => false,
        }
    }
}

/// One remembered request: the key and when it was seen (milliseconds on
/// the guard's own clock).
pub struct ReplayEntry {
    pub pubkey: String,
    pub ts: u64,
    pub sig_prefix: [u8; 16],
    pub seen_at: u64,
}

/// An entry as plain values: pubkey, timestamp, signature prefix, seen-at.
pub type EntryView = (Seq<char>, u64, Seq<u8>, u64);

impl ReplayEntry {
    pub open spec fn view(&self) -> EntryView {
        (self.pubkey@, self.ts, self.sig_prefix@, self.seen_at)
    }
}

/// Replay defense: remembered keys with the time each was seen.
pub struct ReplayGuard {
    pub seen: Vec<ReplayEntry>,
    /// The guard's clock starts here.
    pub epoch: std::time::Instant,
}

/// The first 16 bytes of a signature's text, zero-padded.
pub open spec fn prefix16(b: Seq<u8>) -> Seq<u8> {
    Seq::new(16, |i: int| if i < b.len() {
        b[i]
    } else {
        0u8
    })
}

/// How long ago an entry was seen (zero if the clock reads earlier).
pub open spec fn age(e: EntryView, now: u64) -> int {
    if now >= e.3 {
        now - e.3
    } else {
        0
    }
}

/// The entry was seen within the window.
pub open spec fn is_fresh(e: EntryView, now: u64, window: u64) -> bool {
    age(e, now) < window
}

/// The entries seen within the window, in order.
pub open spec fn fresh_only(es: Seq<EntryView>, now: u64, window: u64) -> Seq<EntryView>
    decreases es.len(),
{
    if es.len() == 0 {
        es
    } else {
        let rest = fresh_only(es.drop_last(), now, window);
        if is_fresh(es.last(), now, window) {
            rest.push(es.last())
        } else {
            rest
        }
    }
}

/// The index of the first entry with the smallest seen-at time.
pub open spec fn oldest_index(es: Seq<EntryView>) -> int
    decreases es.len(),
{
    if es.len() <= 1 {
        0
    } else {
        let i = oldest_index(es.drop_last());
        if es.last().3 < es[i].3 {
            es.len() - 1
        } else {
            i
        }
    }
}

/// Eviction before an insert: when the table is full, drop stale entries,
/// and if it is still full, drop the oldest one.
pub open spec fn evict(es: Seq<EntryView>, now: u64, window: u64) -> Seq<EntryView> {
    if es.len() >= REPLAY_MAX_ENTRIES {
        let f = fresh_only(es, now, window);
        if f.len() >= REPLAY_MAX_ENTRIES {
            f.remove(oldest_index(f))
        } else {
            f
        }
    } else {
        es
    }
}

/// The index of the first entry with the given key.
pub open spec fn find_key(es: Seq<EntryView>, pk: Seq<char>, ts: u64, pre: Seq<u8>) -> Option<int>
    decreases es.len(),
{
    if es.len() == 0 {
        None
    } else {
        match find_key(es.drop_last(), pk, ts, pre) {
            Some(i) => Some(i),
            None => if es.last().0 == pk && es.last().1 == ts && es.last().2 == pre {
                Some(es.len() - 1)
            } else {
                None
            },
        }
    }
}

/// Recording a key at time `now`: whether the request is new, and the
/// table afterwards. A key seen within the window is a replay and changes
/// nothing but eviction; otherwise the key is remembered as seen now.
pub open spec fn record_outcome(
    es: Seq<EntryView>,
    pk: Seq<char>,
    ts: u64,
    pre: Seq<u8>,
    now: u64,
    window: u64,
) -> (bool, Seq<EntryView>) {
    let m = evict(es, now, window);
    match find_key(m, pk, ts, pre) {
        Some(i) => if is_fresh(m[i], now, window) {
            (false, m)
        } else {
            (true, m.update(i, (pk, ts, pre, now)))
        },
        None => (true, m.push((pk, ts, pre, now))),
    }
}

proof fn lemma_fresh_only_len(es: Seq<EntryView>, now: u64, window: u64)
    ensures
        fresh_only(es, now, window).len() <= es.len(),
    decreases es.len(),
{
    if es.len() > 0 {
        lemma_fresh_only_len(es.drop_last(), now, window);
    }
}

proof fn lemma_oldest_index_range(es: Seq<EntryView>)
    ensures
        es.len() > 0 ==> 0 <= oldest_index(es) < es.len(),
    decreases es.len(),
{
    if es.len() > 1 {
        lemma_oldest_index_range(es.drop_last());
    }
}

proof fn lemma_find_key_range(es: Seq<EntryView>, pk: Seq<char>, ts: u64, pre: Seq<u8>)
    ensures
        find_key(es, pk, ts, pre) matches Some(i) ==> 0 <= i < es.len() && es[i].0 == pk
            && es[i].1 == ts && es[i].2 == pre,
        find_key(es, pk, ts, pre) is None ==> forall|j: int|
            0 <= j < es.len() ==> !(es[j].0 == pk && es[j].1 == ts && es[j].2 == pre),
    decreases es.len(),
{
    if es.len() > 0 {
        lemma_find_key_range(es.drop_last(), pk, ts, pre);
        if find_key(es, pk, ts, pre) is None {
            assert forall|j: int| 0 <= j < es.len() implies !(es[j].0 == pk && es[j].1 == ts
                && es[j].2 == pre) by {
                if j < es.len() - 1 {
                    assert(es.drop_last()[j] == es[j]);
                }
            }
        }
    }
}

impl ReplayGuard {
    /// The remembered entries as plain values.
    pub open spec fn view(&self) -> Seq<EntryView> {
        self.seen@.map_values(|e: ReplayEntry| e.view())
    }

    /// An empty guard whose clock starts now.
    pub fn new() -> (g: Self)
        ensures
            g.view().len() == 0,
    {
        ReplayGuard { seen: Vec::new(), epoch: instant_now() }
    }

    /// Records a request key seen at `now` (milliseconds on the guard's
    /// clock) with a window of `window` milliseconds. Returns `true` for a
    /// new request, `false` for a replay.
    pub fn record_at(&mut self, now: u64, pubkey: &str, ts: u64, sig: &str, window: u64) -> (r:
        bool)
        ensures
            (r, final(self).view()) == record_outcome(
                old(self).view(),
                pubkey@,
                ts,
                prefix16(sig.spec_bytes()),
                now,
                window,
            ),
    {
        if self.seen.len() >= REPLAY_MAX_ENTRIES {
            self.keep_fresh(now, window);
            if self.seen.len() >= REPLAY_MAX_ENTRIES {
                let i = self.oldest();
                self.seen.remove(i);
                assert(self.view() =~= fresh_only(old(self).view(), now, window).remove(i as int));
            }
        }
        assert(self.view() == evict(old(self).view(), now, window));
        let pre = sig_prefix(sig);
        match self.find(pubkey, ts, &pre) {
            Some(i) => {
                let seen_at = self.seen[i].seen_at;
                let fresh = if now >= seen_at {
                    now - seen_at < window
                } else {
                    0 < window
                };
                let ghost mid = self.view();
                assert(mid[i as int] == self.seen@[i as int].view());
                assert(fresh == is_fresh(mid[i as int], now, window));
                assert(mid == evict(old(self).view(), now, window));
                assert(find_key(mid, pubkey@, ts, pre@) == Some(i as int));
                if fresh {
                    assert(record_outcome(old(self).view(), pubkey@, ts, pre@, now, window).0
                        == false);
                    return false;
                }
                let entry = ReplayEntry { pubkey: owned(pubkey), ts, sig_prefix: pre, seen_at: now };
                self.seen.set(i, entry);
                assert(self.view() =~= mid.update(i as int, (pubkey@, ts, pre@, now)));
                true
            },
            None => {
                let ghost mid = self.view();
                self.seen.push(ReplayEntry { pubkey: owned(pubkey), ts, sig_prefix: pre, seen_at: now });
                assert(self.view() =~= mid.push((pubkey@, ts, pre@, now)));
                true
            },
        }
    }

    /// Records a request key now (by the guard's clock), with a window of
    /// `window_ms` milliseconds. Returns `true` for a new request, `false`
    /// for a replay.
    pub fn record(&mut self, pubkey: &str, ts: u64, sig: &str, window_ms: u64) -> (r: bool)
        ensures
            exists|now: u64|
                (r, final(self).view()) == #[trigger] record_outcome(
                    old(self).view(),
                    pubkey@,
                    ts,
                    prefix16(sig.spec_bytes()),
                    now,
                    window_ms,
                ),
    {
        let now = elapsed_millis(&self.epoch);
        self.record_at(now, pubkey, ts, sig, window_ms)
    }

    fn keep_fresh(&mut self, now: u64, window: u64)
        ensures
            final(self).view() == fresh_only(old(self).view(), now, window),
            final(self).epoch == old(self).epoch,
    {
        let mut kept: Vec<ReplayEntry> = Vec::new();
        let n = self.seen.len();
        let mut idx: usize = 0;
        while idx < n
            invariant
                n == self.seen@.len(),
                idx <= n,
                kept@.map_values(|e: ReplayEntry| e.view()) == fresh_only(
                    self.view().take(idx as int),
                    now,
                    window,
                ),
            decreases n - idx,
        {
            let e = &self.seen[idx];
            assert(self.view().take(idx + 1).drop_last() =~= self.view().take(idx as int));
            assert(self.view().take(idx + 1).last() == e.view());
            let fresh = if now >= e.seen_at {
                now - e.seen_at < window
            } else {
                0 < window
            };
            let ghost before = kept@.map_values(|e: ReplayEntry| e.view());
            if fresh {
                kept.push(
                    ReplayEntry {
                        pubkey: owned(e.pubkey.as_str()),
                        ts: e.ts,
                        sig_prefix: e.sig_prefix,
                        seen_at: e.seen_at,
                    },
                );
                assert(kept@.map_values(|e: ReplayEntry| e.view()) =~= before.push(e.view()));
            }
            idx += 1;
        }
        assert(self.view().take(n as int) =~= self.view());
        self.seen = kept;
    }

    fn oldest(&self) -> (i: usize)
        requires
            self.seen@.len() > 0,
        ensures
            i == oldest_index(self.view()),
            i < self.seen@.len(),
    {
        let mut best: usize = 0;
        let mut k: usize = 1;
        while k < self.seen.len()
            invariant
                1 <= k <= self.seen@.len(),
                best < k,
                best == oldest_index(self.view().take(k as int)),
            decreases self.seen@.len() - k,
        {
            assert(self.view().take(k + 1).drop_last() =~= self.view().take(k as int));
            if self.seen[k].seen_at < self.seen[best].seen_at {
                best = k;
            }
            k += 1;
        }
        assert(self.view().take(self.seen@.len() as int) =~= self.view());
        best
    }

    fn find(&self, pubkey: &str, ts: u64, pre: &[u8; 16]) -> (r: Option<usize>)
        ensures
            match find_key(self.view(), pubkey@, ts, pre@) {
                Some(i) => r == Some(i as usize),
                None => r is None,
            },
            r matches Some(i) ==> i < self.seen@.len() && find_key(self.view(), pubkey@, ts, pre@)
                == Some(i as int),
    {
        proof {
            lemma_find_key_range(self.view(), pubkey@, ts, pre@);
        }
        let mut k: usize = 0;
        while k < self.seen.len()
            invariant
                k <= self.seen@.len(),
                find_key(self.view().take(k as int), pubkey@, ts, pre@) is None,
            decreases self.seen@.len() - k,
        {
            assert(self.view().take(k + 1).drop_last() =~= self.view().take(k as int));
            let e = &self.seen[k];
            if e.ts == ts && str_eq(e.pubkey.as_str(), pubkey) && prefix_eq(&e.sig_prefix, pre) {
                proof {
                    lemma_find_key_prefix(self.view(), k as int, pubkey@, ts, pre@);
                }
                return Some(k);
            }
            k += 1;
        }
        assert(self.view().take(self.seen@.len() as int) =~= self.view());
        None
    }
}

proof fn lemma_find_key_prefix(es: Seq<EntryView>, k: int, pk: Seq<char>, ts: u64, pre: Seq<u8>)
    requires
        0 <= k < es.len(),
        find_key(es.take(k), pk, ts, pre) is None,
        es[k].0 == pk && es[k].1 == ts && es[k].2 == pre,
    ensures
        find_key(es, pk, ts, pre) == Some(k),
    decreases es.len(),
{
    if es.len() > k + 1 {
        assert(es.drop_last().take(k) =~= es.take(k));
        lemma_find_key_prefix(es.drop_last(), k, pk, ts, pre);
    } else {
        assert(es.drop_last() =~= es.take(k));
    }
}

fn prefix_eq(a: &[u8; 16], b: &[u8; 16]) -> (r: bool)
    ensures
        r == (a@ == b@),
{
    let mut i: usize = 0;
    while i < 16
        invariant
            i <= 16,
            a@.len() == 16,
            b@.len() == 16,
            forall|j: int| 0 <= j < i ==> a@[j] == b@[j],
        decreases 16 - i,
    {
        if a[i] != b[i] {
            return false;
        }
        i += 1;
    }
    assert(a@ =~= b@);
    true
}

fn sig_prefix(sig: &str) -> (p: [u8; 16])
    ensures
        p@ == prefix16(sig.spec_bytes()),
{
    let bytes = sig.as_bytes();
    let mut p = [0u8; 16];
    let mut i: usize = 0;
    while i < 16 && i < bytes.len()
        invariant
            i <= 16,
            i <= bytes@.len(),
            p@.len() == 16,
            forall|j: int| 0 <= j < i ==> p@[j] == bytes@[j],
            forall|j: int| i <= j < 16 ==> p@[j] == 0u8,
        decreases 16 - i,
    {
        p.set(i, bytes[i]);
        i += 1;
    }
    assert forall|j: int| 0 <= j < 16 implies p@[j] == prefix16(bytes@)[j] by {
        assert(prefix16(bytes@)[j] == if j < bytes@.len() {
            bytes@[j]
        } else {
            0u8
        });
        if j < bytes@.len() {
            assert(j < i);
            assert(p@[j] == bytes@[j]);
        } else {
            assert(j >= i);
        }
    }
    assert(p@ =~= prefix16(bytes@));
    p
}

/// A request recorded as new is rejected as a replay when the same key
/// arrives again within the window, as long as the table was not near
/// its cap.
pub proof fn replay_is_rejected_within_window(
    es: Seq<EntryView>,
    pk: Seq<char>,
    ts: u64,
    pre: Seq<u8>,
    t1: u64,
    t2: u64,
    window: u64,
)
    requires
        es.len() + 1 < REPLAY_MAX_ENTRIES,
        record_outcome(es, pk, ts, pre, t1, window).0,
        t1 <= t2,
        t2 - t1 < window,
    ensures
        !record_outcome(record_outcome(es, pk, ts, pre, t1, window).1, pk, ts, pre, t2, window).0,
{
    let m1 = evict(es, t1, window);
    assert(m1 == es);
    lemma_find_key_range(es, pk, ts, pre);
    let after = record_outcome(es, pk, ts, pre, t1, window).1;
    assert(evict(after, t2, window) == after);
    match find_key(es, pk, ts, pre) {
        Some(i) => {
            assert(after == es.update(i, (pk, ts, pre, t1)));
            assert(after.take(i) =~= es.take(i));
            lemma_find_key_range(es.take(i), pk, ts, pre);
            assert(find_key(es.take(i), pk, ts, pre) is None) by {
                lemma_find_key_none_prefix(es, i, pk, ts, pre);
            }
            lemma_find_key_prefix(after, i, pk, ts, pre);
        },
        None => {
            assert(after == es.push((pk, ts, pre, t1)));
            assert(after.drop_last() =~= es);
        },
    }
}

/// One call of a sequence: the key's pubkey, timestamp and signature
/// prefix, and the guard-clock time of the call.
pub type ReplayCall = (Seq<char>, u64, Seq<u8>, u64);

/// Two calls carry the same request key.
pub open spec fn same_key(a: ReplayCall, b: ReplayCall) -> bool {
    a.0 == b.0 && a.1 == b.1 && a.2 == b.2
}

/// The answers to a sequence of calls on a guard holding `es`, and the
/// table afterwards.
pub open spec fn replay_run(es: Seq<EntryView>, calls: Seq<ReplayCall>, window: u64) -> (Seq<bool>, Seq<EntryView>)
    decreases calls.len(),
{
    if calls.len() == 0 {
        (Seq::empty(), es)
    } else {
        let prev = replay_run(es, calls.drop_last(), window);
        let c = calls.last();
        let out = record_outcome(prev.1, c.0, c.1, c.2, c.3, window);
        (prev.0.push(out.0), out.1)
    }
}

/// The calls come in time order, all within one window of the first.
pub open spec fn within_one_window(calls: Seq<ReplayCall>, window: u64) -> bool {
    &&& forall|i: int, j: int| 0 <= i <= j < calls.len() ==> (#[trigger] calls[i]).3 <= (#[trigger] calls[j]).3
    &&& calls.len() > 0 ==> calls.last().3 - calls[0].3 < window
}

proof fn lemma_find_key_push(es: Seq<EntryView>, x: EntryView, pk: Seq<char>, ts: u64, pre: Seq<u8>)
    requires
        find_key(es, pk, ts, pre) is Some,
    ensures
        find_key(es.push(x), pk, ts, pre) == find_key(es, pk, ts, pre),
{
    assert(es.push(x).drop_last() =~= es);
}

proof fn lemma_replay_run(calls: Seq<ReplayCall>, window: u64)
    requires
        calls.len() + 1 < REPLAY_MAX_ENTRIES,
        within_one_window(calls, window),
    ensures
        replay_run(Seq::empty(), calls, window).0.len() == calls.len(),
        replay_run(Seq::empty(), calls, window).1.len() <= calls.len(),
        forall|k: int|
            0 <= k < replay_run(Seq::empty(), calls, window).1.len() ==> exists|j: int|
                0 <= j < calls.len() && (#[trigger] replay_run(Seq::empty(), calls, window).1[k]).0
                    == calls[j].0 && replay_run(Seq::empty(), calls, window).1[k].1 == calls[j].1
                    && replay_run(Seq::empty(), calls, window).1[k].2 == calls[j].2
                    && replay_run(Seq::empty(), calls, window).1[k].3 == calls[j].3,
        forall|j: int|
            0 <= j < calls.len() ==> find_key(
                replay_run(Seq::empty(), calls, window).1,
                (#[trigger] calls[j]).0,
                calls[j].1,
                calls[j].2,
            ) is Some,
        forall|i: int|
            0 <= i < calls.len() ==> #[trigger] replay_run(Seq::empty(), calls, window).0[i] == !exists|j: int|
                0 <= j < i && same_key(calls[j], calls[i]),
    decreases calls.len(),
{
    if calls.len() > 0 {
        let pre = calls.drop_last();
        assert forall|i: int, j: int| 0 <= i <= j < pre.len() implies (#[trigger] pre[i]).3 <= (#[trigger] pre[j]).3 by {
            assert(pre[i] == calls[i] && pre[j] == calls[j]);
        }
        if pre.len() > 0 {
            assert(pre.last() == calls[pre.len() - 1]);
            assert(pre[0] == calls[0]);
            assert(calls[pre.len() - 1].3 <= calls.last().3);
        }
        lemma_replay_run(pre, window);
        let prev = replay_run(Seq::empty(), pre, window);
        let t = prev.1;
        let c = calls.last();
        let n = calls.len() - 1;
        assert(c == calls[n]);
        assert(evict(t, c.3, window) == t);
        lemma_find_key_range(t, c.0, c.1, c.2);
        let out = record_outcome(t, c.0, c.1, c.2, c.3, window);
        let run = replay_run(Seq::empty(), calls, window);
        assert(run.0 == prev.0.push(out.0));
        assert(run.1 == out.1);
        match find_key(t, c.0, c.1, c.2) {
            Some(i) => {
                let j = choose|j: int|
                    0 <= j < pre.len() && t[i].0 == pre[j].0 && t[i].1 == pre[j].1 && t[i].2
                        == pre[j].2 && t[i].3 == pre[j].3;
                assert(pre[j] == calls[j]);
                assert(calls[0].3 <= calls[j].3 && calls[j].3 <= c.3);
                assert(is_fresh(t[i], c.3, window));
                assert(!out.0 && out.1 == t);
                assert(same_key(calls[j], calls[n]));
            },
            None => {
                assert(out.0 && out.1 == t.push((c.0, c.1, c.2, c.3)));
                assert forall|j: int| 0 <= j < n implies !same_key(calls[j], calls[n]) by {
                    assert(pre[j] == calls[j]);
                    assert(find_key(t, pre[j].0, pre[j].1, pre[j].2) is Some);
                }
                assert forall|j: int| 0 <= j < calls.len() implies find_key(
                    run.1,
                    (#[trigger] calls[j]).0,
                    calls[j].1,
                    calls[j].2,
                ) is Some by {
                    if j < n {
                        assert(pre[j] == calls[j]);
                        lemma_find_key_push(t, (c.0, c.1, c.2, c.3), calls[j].0, calls[j].1, calls[j].2);
                    } else {
                        assert(t.push((c.0, c.1, c.2, c.3)).drop_last() =~= t);
                    }
                }
                assert forall|k: int| 0 <= k < run.1.len() implies exists|j: int|
                    0 <= j < calls.len() && (#[trigger] run.1[k]).0 == calls[j].0 && run.1[k].1
                        == calls[j].1 && run.1[k].2 == calls[j].2 && run.1[k].3 == calls[j].3 by {
                    if k < t.len() {
                        let j = choose|j: int|
                            0 <= j < pre.len() && t[k].0 == pre[j].0 && t[k].1 == pre[j].1 && t[k].2
                                == pre[j].2 && t[k].3 == pre[j].3;
                        assert(pre[j] == calls[j]);
                    } else {
                        assert(run.1[k] == (c.0, c.1, c.2, c.3));
                    }
                }
            },
        }
        assert forall|j: int| 0 <= j < calls.len() implies find_key(
            run.1,
            (#[trigger] calls[j]).0,
            calls[j].1,
            calls[j].2,
        ) is Some by {
            if j < n {
                assert(pre[j] == calls[j]);
                if find_key(t, c.0, c.1, c.2) is None {
                    lemma_find_key_push(t, (c.0, c.1, c.2, c.3), calls[j].0, calls[j].1, calls[j].2);
                }
            } else if find_key(t, c.0, c.1, c.2) is None {
                assert(t.push((c.0, c.1, c.2, c.3)).drop_last() =~= t);
            }
        }
        assert forall|i: int| 0 <= i < calls.len() implies #[trigger] run.0[i] == !exists|j: int|
            0 <= j < i && same_key(calls[j], calls[i]) by {
            if i < n {
                assert(run.0[i] == prev.0[i]);
                assert(pre[i] == calls[i]);
                assert forall|j: int| 0 <= j < i implies same_key(calls[j], calls[i]) == same_key(pre[j], pre[i]) by {
                    assert(pre[j] == calls[j]);
                }
            }
        }
    }
}

/// Over a sequence of calls on a fresh guard, all within one window and
/// too few to reach the table's cap, a call is refused as a replay exactly
/// when an earlier call carried the same key (pubkey, timestamp and
/// signature prefix).
pub proof fn replays_are_exactly_repeated_keys(calls: Seq<ReplayCall>, window: u64)
    requires
        calls.len() + 1 < REPLAY_MAX_ENTRIES,
        within_one_window(calls, window),
    ensures
        replay_run(Seq::empty(), calls, window).0.len() == calls.len(),
        forall|i: int|
            0 <= i < calls.len() ==> #[trigger] replay_run(Seq::empty(), calls, window).0[i] == !exists|j: int|
                0 <= j < i && same_key(calls[j], calls[i]),
{
    lemma_replay_run(calls, window);
}

proof fn lemma_find_key_none_prefix(es: Seq<EntryView>, i: int, pk: Seq<char>, ts: u64, pre: Seq<u8>)
    requires
        find_key(es, pk, ts, pre) == Some(i),
    ensures
        find_key(es.take(i), pk, ts, pre) is None,
    decreases es.len(),
{
    lemma_find_key_range(es, pk, ts, pre);
    if es.len() > i + 1 {
        assert(es.drop_last().take(i) =~= es.take(i));
        if find_key(es.drop_last(), pk, ts, pre) is None {
            lemma_find_key_range(es.drop_last(), pk, ts, pre);
            assert(false);
        }
        lemma_find_key_none_prefix(es.drop_last(), i, pk, ts, pre);
    } else {
        assert(es.drop_last() =~= es.take(i));
        if find_key(es.drop_last(), pk, ts, pre) is Some {
            lemma_find_key_range(es.drop_last(), pk, ts, pre);
        }
    }
}

/// The daemon's local bearer token.
#[derive(Clone)]
pub struct LocalToken {
    value: String,
}

/// URL-safe base64 (no padding) text of some bytes.
pub open spec fn b64url_encode(bytes: Seq<u8>) -> Seq<char> {
    crate::identity::b64_text(bytes, true)
}

/// `URL_SAFE_NO_PAD.encode`: URL-safe base64 of the bytes, as
/// `b64url_encode` spells it out.
#[verifier::external_body]
pub(crate) fn b64url_encode_exec(bytes: &[u8]) -> (s: String)
    ensures
        s@ == b64url_encode(bytes@),
{
    base64::Engine::encode(&base64::engine::general_purpose::URL_SAFE_NO_PAD, bytes)
}

/// 32 bytes from the thread-local cryptographic generator
/// (`rand::thread_rng`). Nothing is stated about the bytes.
#[verifier::external_body]
fn random_token_bytes() -> [u8; 32] {
    let mut buf = [0u8; 32];
    rand::RngCore::fill_bytes(&mut rand::thread_rng(), &mut buf);
    buf
}

impl LocalToken {
    /// The token text.
    pub closed spec fn view(&self) -> Seq<char> {
        self.value@
    }

    /// A token read back from its file: the text with surrounding
    /// whitespace trimmed, or `None` when nothing is left.
    pub fn from_stored(text: &str) -> (r: Option<Self>)
        ensures
            crate::text::trim(text@).len() == 0 <==> r is None,
            r matches Some(t) ==> t.view() == crate::text::trim(text@),
    {
        let c = chars_of(text);
        let t = crate::text::trim_chars(c.as_slice());
        if t.len() == 0 {
            return None;
        }
        Some(LocalToken { value: crate::text::string_from_chars(t.as_slice()) })
    }

    /// A fresh token: 32 random bytes, URL-safe base64.
    pub fn generate() -> (t: Self)
        ensures
            exists|b: Seq<u8>| b.len() == 32 && t.view() == b64url_encode(b),
    {
        let buf = random_token_bytes();
        LocalToken { value: b64url_encode_exec(&buf) }
    }

    /// The token text.
    pub fn value(&self) -> (s: &str)
        ensures
            s@ == self.view(),
    {
        self.value.as_str()
    }

    /// Constant-time comparison of the candidate's bytes with the token's.
    pub fn check(&self, candidate: &str) -> (r: bool)
        ensures
            r == (vstd::utf8::encode_utf8(self.view()) == candidate.spec_bytes()),
    {
        let a = self.value.as_str().as_bytes();
        let b = candidate.as_bytes();
        if a.len() != b.len() {
            return false;
        }
        let mut diff: u8 = 0;
        let mut i: usize = 0;
        while i < a.len()
            invariant
                a@.len() == b@.len(),
                i <= a@.len(),
                (diff == 0) <==> forall|j: int| 0 <= j < i ==> a@[j] == b@[j],
            decreases a@.len() - i,
        {
            let x = a[i];
            let y = b[i];
            let nd = diff | (x ^ y);
            assert((nd == 0) <==> (diff == 0 && x == y)) by (bit_vector)
                requires
                    nd == diff | (x ^ y),
            ;
            diff = nd;
            i += 1;
        }
        if diff == 0 {
            assert(a@ =~= b@);
        }
        diff == 0
    }
}

/// The headers `classify` looks at. `Some(None)` means the header is
/// present but its value is not visible ASCII text.
pub struct AuthHeaders {
    pub auth: Option<Option<String>>,
    pub bearer: Option<Option<String>>,
}

/// The bearer candidate: the header value without a leading `Bearer ` or
/// `bearer `.
pub open spec fn bearer_candidate(v: Seq<char>) -> Seq<char> {
    if starts_with(v, "Bearer "@) {
        v.subrange(7, v.len() as int)
    } else if starts_with(v, "bearer "@) {
        v.subrange(7, v.len() as int)
    } else {
        v
    }
}

fn strip_bearer(v: &str) -> (s: String)
    ensures
        s@ == bearer_candidate(v@),
{
    proof {
        reveal_strlit("Bearer ");
        reveal_strlit("bearer ");
    }
    let c = chars_of(v);
    if crate::text::starts_with_str(c.as_slice(), "Bearer ") || crate::text::starts_with_str(
        c.as_slice(),
        "bearer ",
    ) {
        let mut rest: Vec<char> = Vec::new();
        let mut i: usize = 7;
        while i < c.len()
            invariant
                7 <= i <= c@.len(),
                rest@ == c@.subrange(7, i as int),
            decreases c@.len() - i,
        {
            rest.push(c[i]);
            assert(c@.subrange(7, i + 1) =~= c@.subrange(7, i as int).push(c@[i as int]));
            i += 1;
        }
        return crate::text::string_from_chars(rest.as_slice());
    }
    owned(v)
}

/// Whether some paired peer has exactly this pubkey.
pub open spec fn is_paired(peers: Seq<Option<String>>, pk: Seq<char>) -> bool {
    exists|i: int| 0 <= i < peers.len() && (#[trigger] peers[i] matches Some(p) && p@ == pk)
}

fn any_peer_has(peers: &Vec<Option<String>>, pk: &str) -> (r: bool)
    ensures
        r == is_paired(peers@, pk@),
{
    let mut i: usize = 0;
    while i < peers.len()
        invariant
            i <= peers@.len(),
            forall|j: int| 0 <= j < i ==> !(#[trigger] peers@[j] matches Some(p) && p@ == pk@),
        decreases peers@.len() - i,
    {
        match &peers[i] {
            Some(p) => {
                if str_eq(p.as_str(), pk) {
                    return true;
                }
            },
            None => {},
        }
        i += 1;
    }
    false
}

/// Classifies an incoming request at the given clock readings (seconds
/// since the epoch for the signature window, milliseconds on the replay
/// guard's clock). Only the replay guard is changed.
///
/// A signed header wins over a bearer header, which wins over the
/// request's source address; a request with neither header is allowed
/// only from loopback.
pub fn classify_at(
    headers: &AuthHeaders,
    peer_is_loopback: Option<bool>,
    body: &[u8],
    peer_pubkeys: &Vec<Option<String>>,
    local_token: &LocalToken,
    replay: &mut ReplayGuard,
    now_secs: Option<u64>,
    now_ms: u64,
) -> (r: AuthOutcome)
    ensures
        match headers.auth {
            Some(None) => r == AuthOutcome::Rejected("malformed auth header") && final(replay).view()
                == old(replay).view(),
            Some(Some(h)) => match verify_request_spec(h@, body@, now_secs) {
                None => r == AuthOutcome::Rejected("signature invalid or expired")
                    && final(replay).view() == old(replay).view(),
                Some(pk) => {
                    let (_, ts_text, sig) = split3(h@)->0;
                    let ts = crate::text::parse_uint(ts_text, u64::MAX as nat)->0 as u64;
                    let out = record_outcome(old(replay).view(), pk, ts, prefix16(
                        vstd::utf8::encode_utf8(sig),
                    ), now_ms, 300000);
                    &&& final(replay).view() == out.1
                    &&& if !out.0 {
                        r == AuthOutcome::Rejected("replay detected")
                    } else if !is_paired(peer_pubkeys@, pk) {
                        r == AuthOutcome::Rejected("signing pubkey is not a paired peer")
                    } else {
                        r matches AuthOutcome::Peer(p) && p@ == pk
                    }
                },
            },
            None => final(replay).view() == old(replay).view() && match headers.bearer {
                Some(None) => r == AuthOutcome::Rejected("malformed bearer header"),
                Some(Some(v)) => if vstd::utf8::encode_utf8(local_token.view())
                    == vstd::utf8::encode_utf8(bearer_candidate(v@)) {
                    r is Local
                } else {
                    r == AuthOutcome::Rejected("bad bearer token")
                },
                None => match peer_is_loopback {
                    Some(true) => r is LoopbackUnauthed,
                    _ => r is Missing,
                },
            },
        },
{
    match &headers.auth {
        Some(None) => {
            return AuthOutcome::Rejected("malformed auth header");
        },
        Some(Some(h)) => {
            let sender = match Identity::verify_request_at(h.as_str(), body, now_secs) {
                Some(s) => s,
                None => {
                    return AuthOutcome::Rejected("signature invalid or expired");
                },
            };
            let hc = chars_of(h.as_str());
            let (_, ts_text, sig) = crate::identity::split3_exec(hc.as_slice()).unwrap();
            let tc = chars_of(ts_text.as_str());
            let ts = crate::text::parse_uint_exec(tc.as_slice(), u64::MAX).unwrap();
            let fresh = replay.record_at(now_ms, sender.as_str(), ts, sig.as_str(), 300000);
            if !fresh {
                return AuthOutcome::Rejected("replay detected");
            }
            if !any_peer_has(peer_pubkeys, sender.as_str()) {
                return AuthOutcome::Rejected("signing pubkey is not a paired peer");
            }
            return AuthOutcome::Peer(sender);
        },
        None => {},
    }
    match &headers.bearer {
        Some(None) => {
            return AuthOutcome::Rejected("malformed bearer header");
        },
        Some(Some(v)) => {
            let candidate = strip_bearer(v.as_str());
            if local_token.check(candidate.as_str()) {
                return AuthOutcome::Local;
            }
            return AuthOutcome::Rejected("bad bearer token");
        },
        None => {},
    }
    match peer_is_loopback {
        Some(true) => AuthOutcome::LoopbackUnauthed,
        _ => AuthOutcome::Missing,
    }
}

/// Classifies an incoming request against the system clock and the replay
/// guard's clock (see [`classify_at`]). Requests without a signed header
/// do not depend on the clocks; a signed one is a paired peer's or is
/// rejected.
pub fn classify(
    headers: &AuthHeaders,
    peer_is_loopback: Option<bool>,
    body: &[u8],
    peer_pubkeys: &Vec<Option<String>>,
    local_token: &LocalToken,
    replay: &mut ReplayGuard,
) -> (r: AuthOutcome)
    ensures
        match headers.auth {
            Some(None) => r == AuthOutcome::Rejected("malformed auth header") && final(replay).view()
                == old(replay).view(),
            Some(Some(_)) => r is Peer || r == AuthOutcome::Rejected("signature invalid or expired")
                || r == AuthOutcome::Rejected("replay detected") || r == AuthOutcome::Rejected(
                "signing pubkey is not a paired peer",
            ),
            None => final(replay).view() == old(replay).view() && match headers.bearer {
                Some(None) => r == AuthOutcome::Rejected("malformed bearer header"),
                Some(Some(v)) => if vstd::utf8::encode_utf8(local_token.view())
                    == vstd::utf8::encode_utf8(bearer_candidate(v@)) {
                    r is Local
                } else {
                    r == AuthOutcome::Rejected("bad bearer token")
                },
                None => match peer_is_loopback {
                    Some(true) => r is LoopbackUnauthed,
                    _ => r is Missing,
                },
            },
        },
        r matches AuthOutcome::Peer(p) ==> is_paired(peer_pubkeys@, p@),
{
    let now_secs = unix_now_secs_checked();
    let now_ms = elapsed_millis(&replay.epoch);
    classify_at(headers, peer_is_loopback, body, peer_pubkeys, local_token, replay, now_secs, now_ms)
}

} // verus!
