//! Round-robin routing across this node and its peers.
//!
//! The rotation is `Local` followed by every configured peer in
//! ascending priority (lower is preferred; equal priorities keep their
//! configured order). Each request takes the next target in turn. Peer
//! health is not tracked here: the caller falls back to `Local` when a
//! chosen peer is unreachable.

use vstd::prelude::*;
use crate::text::owned;

verus! {

/// Where a request is served.
#[derive(Clone, Debug, PartialEq, Eq)]
pub enum Target {
    /// This node's own upstream.
    Local,
    /// A remote peer, by name and `host:port` address.
    Peer { name: String, addr: String },
}

/// A target as plain values: `None` for local, else name and address.
pub open spec fn target_view(t: Target) -> Option<(Seq<char>, Seq<char>)> {
    match t {
        Target::Local => None,
        Target::Peer { name, addr } => Some((name@, addr@)),
    }
}

/// A configured peer as the router needs it.
#[derive(Clone, Debug)]
pub struct Peer {
    pub name: String,
    /// `host:port`.
    pub addr: String,
    /// Lower is preferred.
    pub priority: u8,
}

/// Where a peer goes into a priority-ordered list: after every peer of
/// the same or a lower priority, scanning from `i`.
pub open spec fn priority_pos(s: Seq<Peer>, p: u8, i: int) -> int
    decreases s.len() - i,
{
    if i < 0 || i >= s.len() {
        s.len() as int
    } else if p < s[i].priority {
        i
    } else {
        priority_pos(s, p, i + 1)
    }
}

/// Stable ordering by ascending priority.
pub open spec fn by_priority(s: Seq<Peer>) -> Seq<Peer>
    decreases s.len(),
{
    if s.len() == 0 {
        s
    } else {
        let r = by_priority(s.drop_last());
        r.insert(priority_pos(r, s.last().priority, 0), s.last())
    }
}

/// Peers as routing targets.
pub open spec fn peers_view(ps: Seq<Peer>) -> Seq<Option<(Seq<char>, Seq<char>)>> {
    ps.map_values(|p: Peer| Some((p.name@, p.addr@)))
}

/// Targets as plain values.
pub open spec fn targets_view(ts: Seq<Target>) -> Seq<Option<(Seq<char>, Seq<char>)>> {
    ts.map_values(|t: Target| target_view(t))
}

/// The rotation for a list of peers: local, then the peers by priority.
pub open spec fn rotation(peers: Seq<Peer>) -> Seq<Option<(Seq<char>, Seq<char>)>> {
    seq![None].add(peers_view(by_priority(peers)))
}

/// The router: its rotation and how many requests it has routed.
pub struct Router {
    pub targets: Vec<Target>,
    pub counter: usize,
}

fn copy_target(t: &Target) -> (c: Target)
    ensures
        target_view(c) == target_view(*t),
{
    match t {
        Target::Local => Target::Local,
        Target::Peer { name, addr } => Target::Peer {
            name: owned(name.as_str()),
            addr: owned(addr.as_str()),
        },
    }
}

fn sort_by_priority(items: Vec<Peer>) -> (r: Vec<Peer>)
    ensures
        r@ == by_priority(items@),
{
    let mut rest = items;
    let ghost orig = rest@;
    let total: usize = rest.len();
    let mut out: Vec<Peer> = Vec::new();
    let mut n: usize = 0;
    while rest.len() > 0
        invariant
            n + rest@.len() == orig.len(),
            orig.len() == total,
            rest@ == orig.subrange(n as int, orig.len() as int),
            out@ == by_priority(orig.take(n as int)),
        decreases rest@.len(),
    {
        let x = rest.remove(0);
        assert(orig.take(n + 1).drop_last() =~= orig.take(n as int));
        assert(orig.take(n + 1).last() == x);
        let mut j: usize = 0;
        while j < out.len() && !(x.priority < out[j].priority)
            invariant
                j <= out@.len(),
                priority_pos(out@, x.priority, 0) == priority_pos(out@, x.priority, j as int),
            decreases out@.len() - j,
        {
            j += 1;
        }
        out.insert(j, x);
        n += 1;
        assert(rest@ =~= orig.subrange(n as int, orig.len() as int));
    }
    assert(orig.take(n as int) =~= orig);
    out
}

impl Router {
    /// The targets as plain values.
    pub open spec fn rotation_view(&self) -> Seq<Option<(Seq<char>, Seq<char>)>> {
        targets_view(self.targets@)
    }

    /// A router whose rotation is `Local` followed by the peers in
    /// ascending priority; nothing routed yet.
    pub fn new(peers: &Vec<Peer>) -> (r: Self)
        ensures
            r.rotation_view() == rotation(peers@),
            r.counter == 0,
    {
        let mut copy: Vec<Peer> = Vec::new();
        let mut i: usize = 0;
        while i < peers.len()
            invariant
                i <= peers@.len(),
                copy@.len() == i,
                forall|k: int|
                    0 <= k < i ==> (#[trigger] copy@[k]).name@ == peers@[k].name@ && copy@[k].addr@
                        == peers@[k].addr@ && copy@[k].priority == peers@[k].priority,
            decreases peers@.len() - i,
        {
            copy.push(
                Peer {
                    name: owned(peers[i].name.as_str()),
                    addr: owned(peers[i].addr.as_str()),
                    priority: peers[i].priority,
                },
            );
            i += 1;
        }
        let ghost cv = copy@;
        proof {
            lemma_by_priority_views(cv, peers@);
        }
        let sorted = sort_by_priority(copy);
        let mut targets: Vec<Target> = Vec::new();
        targets.push(Target::Local);
        let ghost sv = peers_view(by_priority(peers@));
        let mut k: usize = 0;
        while k < sorted.len()
            invariant
                k <= sorted@.len(),
                sorted@ == by_priority(cv),
                peers_view(by_priority(cv)) == sv,
                targets_view(targets@) == seq![None].add(sv.take(k as int)),
            decreases sorted@.len() - k,
        {
            let ghost before = targets_view(targets@);
            let p = &sorted[k];
            targets.push(Target::Peer { name: owned(p.name.as_str()), addr: owned(p.addr.as_str()) });
            assert(sv[k as int] == Some((sorted@[k as int].name@, sorted@[k as int].addr@)));
            assert(targets_view(targets@) =~= before.push(sv[k as int]));
            assert(seq![None].add(sv.take(k as int)).push(sv[k as int]) =~= seq![None].add(sv.take(k + 1)));
            k += 1;
        }
        assert(sv.take(k as int) =~= sv);
        Router { targets, counter: 0 }
    }

    /// The next target in turn: `targets[counter % n]`, the counter
    /// advancing (wrapping at the top).
    pub fn next(&mut self) -> (t: Target)
        requires
            old(self).targets@.len() > 0,
        ensures
            target_view(t) == old(self).rotation_view()[(old(self).counter as int) % (old(self).targets@.len() as int)],
            final(self).targets == old(self).targets,
            final(self).counter == if old(self).counter == usize::MAX {
                0
            } else {
                (old(self).counter + 1) as usize
            },
    {
        let i = self.counter;
        self.counter = if i == usize::MAX {
            0
        } else {
            i + 1
        };
        copy_target(&self.targets[i % self.targets.len()])
    }

    /// How many targets the rotation has, `Local` included.
    pub fn target_count(&self) -> (n: usize)
        ensures
            n == self.targets@.len(),
    {
        self.targets.len()
    }

    /// Whether the rotation leaves this node at all.
    pub fn has_peers(&self) -> (r: bool)
        ensures
            r == (self.targets@.len() > 1),
    {
        self.targets.len() > 1
    }
}

proof fn lemma_by_priority_views(a: Seq<Peer>, b: Seq<Peer>)
    requires
        a.len() == b.len(),
        forall|k: int|
            0 <= k < a.len() ==> (#[trigger] a[k]).name@ == b[k].name@ && a[k].addr@ == b[k].addr@
                && a[k].priority == b[k].priority,
    ensures
        by_priority(a).len() == by_priority(b).len(),
        peers_view(by_priority(a)) == peers_view(by_priority(b)),
        forall|k: int|
            0 <= k < by_priority(a).len() ==> (#[trigger] by_priority(a)[k]).priority == by_priority(
                b,
            )[k].priority,
    decreases a.len(),
{
    if a.len() > 0 {
        lemma_by_priority_views(a.drop_last(), b.drop_last());
        let ra = by_priority(a.drop_last());
        let rb = by_priority(b.drop_last());
        lemma_priority_pos_same(ra, rb, a.last().priority, 0);
        let p = priority_pos(ra, a.last().priority, 0);
        lemma_priority_pos_bounds(ra, a.last().priority, 0);
        let ta = ra.insert(p, a.last());
        let tb = rb.insert(p, b.last());
        assert(peers_view(ta) =~= peers_view(tb)) by {
            assert forall|k: int| 0 <= k < ta.len() implies ta[k].name@ == tb[k].name@
                && ta[k].addr@ == tb[k].addr@ by {
                if k < p {
                    assert(peers_view(ra)[k] == peers_view(rb)[k]);
                } else if k > p {
                    assert(peers_view(ra)[k - 1] == peers_view(rb)[k - 1]);
                }
            }
        }
    }
}

proof fn lemma_priority_pos_same(a: Seq<Peer>, b: Seq<Peer>, p: u8, i: int)
    requires
        a.len() == b.len(),
        forall|k: int| 0 <= k < a.len() ==> (#[trigger] a[k]).priority == b[k].priority,
    ensures
        priority_pos(a, p, i) == priority_pos(b, p, i),
    decreases a.len() - i,
{
    if 0 <= i < a.len() && !(p < a[i].priority) {
        lemma_priority_pos_same(a, b, p, i + 1);
    }
}

proof fn lemma_priority_pos_bounds(s: Seq<Peer>, p: u8, i: int)
    requires
        0 <= i <= s.len(),
    ensures
        i <= priority_pos(s, p, i) <= s.len(),
    decreases s.len() - i,
{
    if i < s.len() && !(p < s[i].priority) {
        lemma_priority_pos_bounds(s, p, i + 1);
    }
}

/// The rotation always starts with this node, and holds one target per
/// peer besides.
pub proof fn rotation_starts_local(peers: Seq<Peer>)
    ensures
        rotation(peers).len() == peers.len() + 1,
        rotation(peers)[0] is None,
{
    lemma_by_priority_len(peers);
}

proof fn lemma_by_priority_len(s: Seq<Peer>)
    ensures
        by_priority(s).len() == s.len(),
    decreases s.len(),
{
    if s.len() > 0 {
        lemma_by_priority_len(s.drop_last());
        lemma_priority_pos_bounds(by_priority(s.drop_last()), s.last().priority, 0);
    }
}

/// Whether a peer has the given priority.
pub open spec fn has_priority(p: u8) -> spec_fn(Peer) -> bool {
    |x: Peer| x.priority == p
}

/// Peers in non-decreasing priority.
pub open spec fn priority_sorted(s: Seq<Peer>) -> bool {
    forall|i: int, j: int| 0 <= i < j < s.len() ==> (#[trigger] s[i]).priority <= (#[trigger] s[j]).priority
}

/// `q` is the configured peers reordered by ascending priority, peers of
/// equal priority keeping their configured order.
pub open spec fn stable_priority_order(peers: Seq<Peer>, q: Seq<Peer>) -> bool {
    &&& priority_sorted(q)
    &&& q.to_multiset() == peers.to_multiset()
    &&& forall|p: u8| #[trigger] q.filter(has_priority(p)) == peers.filter(has_priority(p))
}

proof fn lemma_priority_pos_sorted(s: Seq<Peer>, p: u8, i: int)
    requires
        priority_sorted(s),
        0 <= i <= s.len(),
    ensures
        i <= priority_pos(s, p, i) <= s.len(),
        forall|k: int| i <= k < priority_pos(s, p, i) ==> (#[trigger] s[k]).priority <= p,
        forall|k: int| priority_pos(s, p, i) <= k < s.len() ==> p < (#[trigger] s[k]).priority,
    decreases s.len() - i,
{
    if i < s.len() && !(p < s[i].priority) {
        lemma_priority_pos_sorted(s, p, i + 1);
    } else if i < s.len() {
        assert forall|k: int| i <= k < s.len() implies p < (#[trigger] s[k]).priority by {
            if k > i {
                assert(s[i].priority <= s[k].priority);
            }
        }
    }
}

proof fn lemma_filter_none(s: Seq<Peer>, f: spec_fn(Peer) -> bool)
    requires
        forall|k: int| 0 <= k < s.len() ==> !f(#[trigger] s[k]),
    ensures
        s.filter(f) == Seq::<Peer>::empty(),
    decreases s.len(),
{
    if s.len() > 0 {
        lemma_filter_none(s.drop_last(), f);
        s.drop_last().lemma_filter_push(s.last(), f);
        assert(s.drop_last().push(s.last()) =~= s);
    } else {
        assert(s =~= Seq::<Peer>::empty());
        Seq::<Peer>::empty().lemma_filter_len(f);
    }
}

proof fn lemma_by_priority_order(s: Seq<Peer>)
    ensures
        stable_priority_order(s, by_priority(s)),
    decreases s.len(),
{
    if s.len() == 0 {
        assert(by_priority(s) == s);
    } else {
        let sp = s.drop_last();
        let x = s.last();
        lemma_by_priority_order(sp);
        let r = by_priority(sp);
        let pos = priority_pos(r, x.priority, 0);
        lemma_priority_pos_sorted(r, x.priority, 0);
        let t = r.insert(pos, x);
        assert(by_priority(s) == t);
        assert forall|i: int, j: int| 0 <= i < j < t.len() implies (#[trigger] t[i]).priority
            <= (#[trigger] t[j]).priority by {
            if j < pos {
                assert(t[i] == r[i] && t[j] == r[j]);
            } else if j == pos {
                assert(t[i] == r[i]);
            } else if i < pos {
                assert(t[i] == r[i] && t[j] == r[j - 1]);
            } else if i == pos {
                assert(t[j] == r[j - 1]);
            } else {
                assert(t[i] == r[i - 1] && t[j] == r[j - 1]);
            }
        }
        vstd::seq_lib::to_multiset_insert(r, pos, x);
        vstd::seq_lib::to_multiset_insert(sp, s.len() - 1, x);
        assert(s =~= sp.insert(s.len() - 1, x));
        let head = r.take(pos);
        let tail = r.skip(pos);
        assert(r =~= head + tail);
        assert(t =~= head + seq![x] + tail);
        assert(s =~= sp.push(x));
        assert forall|p: u8| #[trigger] t.filter(has_priority(p)) == s.filter(has_priority(p)) by {
            let f = has_priority(p);
            Seq::filter_distributes_over_add(head + seq![x], tail, f);
            Seq::filter_distributes_over_add(head, seq![x], f);
            Seq::filter_distributes_over_add(head, tail, f);
            Seq::<Peer>::empty().lemma_filter_push(x, f);
            assert(Seq::<Peer>::empty().push(x) =~= seq![x]);
            Seq::<Peer>::empty().lemma_filter_len(f);
            sp.lemma_filter_push(x, f);
            assert(r.filter(f) == sp.filter(f));
            if p == x.priority {
                assert forall|k: int| 0 <= k < tail.len() implies !f(#[trigger] tail[k]) by {
                    assert(tail[k] == r[pos + k]);
                }
                lemma_filter_none(tail, f);
                assert(t.filter(f) =~= head.filter(f) + seq![x]);
                assert(r.filter(f) =~= head.filter(f));
            } else {
                assert(seq![x].filter(f) =~= Seq::<Peer>::empty());
                assert(t.filter(f) =~= head.filter(f) + tail.filter(f));
            }
        }
    }
}

/// Routing order: the rotation is this node followed by every configured
/// peer exactly once, in non-decreasing priority, peers of equal priority
/// in their configured order.
pub proof fn rotation_orders_peers_by_priority(peers: Seq<Peer>)
    ensures
        exists|q: Seq<Peer>|
            #[trigger] stable_priority_order(peers, q) && rotation(peers) == seq![
                None::<(Seq<char>, Seq<char>)>,
            ].add(peers_view(q)),
{
    lemma_by_priority_order(peers);
    assert(stable_priority_order(peers, by_priority(peers)));
}

/// Routing is periodic: `n` requests later the same target comes round.
pub proof fn rotation_is_periodic(counter: nat, n: nat)
    requires
        n > 0,
    ensures
        (counter + n) % n == counter % n,
{
    vstd::arithmetic::div_mod::lemma_mod_add_multiples_vanish(counter as int, n as int);
}

/// Where a request is served: a request a peer already forwarded to us
/// stays here (no second hop) and leaves the rotation where it was;
/// any other takes the rotation's next target.
pub fn route_request(router: &mut Router, forwarded: bool) -> (t: Target)
    requires
        old(router).targets@.len() > 0,
    ensures
        forwarded ==> t == Target::Local && *final(router) == *old(router),
        !forwarded ==> target_view(t) == old(router).rotation_view()[(old(router).counter as int)
            % (old(router).targets@.len() as int)] && final(router).targets == old(router).targets
            && final(router).counter == if old(router).counter == usize::MAX {
            0
        } else {
            (old(router).counter + 1) as usize
        },
{
    if forwarded {
        Target::Local
    } else {
        router.next()
    }
}

/// One way of serving a request routed to a peer.
#[derive(Clone, Debug, PartialEq, Eq)]
pub enum RunPath {
    /// Over QUIC, to the peer's QUIC port.
    Quic { port: u16 },
    /// Over HTTP; signed when the peer is a trusted (keyed) peer.
    Direct { signed: bool },
    /// Through the relay, to the peer's key.
    Relay { pubkey: String },
    /// On this node.
    Local,
}

/// Whether the QUIC run path is switched on (`UNHOSTED_QUIC_RUN` set,
/// not empty and not `0`).
pub fn quic_run_enabled(flag: &Option<String>) -> (r: bool)
    ensures
        r == match flag {
            Some(v) => v@.len() > 0 && v@ != "0"@,
            None => false,
        },
{
    match flag {
        Some(v) => crate::text::chars_of(v.as_str()).len() > 0 && !crate::text::str_eq(v.as_str(), "0"),
        None => false,
    }
}

/// The first path for a peer: QUIC (one port above the peer's HTTP
/// port, saturating) when the peer is keyed, QUIC is up and switched on;
/// otherwise HTTP, signed for a keyed peer.
pub fn first_path(peer_pubkey: &Option<String>, quic_available: bool, quic_enabled: bool, peer_port: u16) -> (p: RunPath)
    ensures
        p == if peer_pubkey is Some && quic_available && quic_enabled {
            RunPath::Quic { port: if peer_port == u16::MAX { u16::MAX } else { (peer_port + 1) as u16 } }
        } else {
            RunPath::Direct { signed: peer_pubkey is Some }
        },
{
    if peer_pubkey.is_some() && quic_available && quic_enabled {
        RunPath::Quic { port: if peer_port == u16::MAX { u16::MAX } else { peer_port + 1 } }
    } else {
        RunPath::Direct { signed: peer_pubkey.is_some() }
    }
}

/// How many more paths a request may try after this one.
pub open spec fn paths_left(p: RunPath) -> nat {
    match p {
        RunPath::Quic { .. } => 3,
        RunPath::Direct { .. } => 2,
        RunPath::Relay { .. } => 1,
        RunPath::Local => 0,
    }
}

/// The path after one failed: QUIC falls back to HTTP; HTTP to the relay
/// for a keyed peer while we are registered with it, else to this node;
/// the relay to this node. Every failure moves the request strictly
/// closer to being served here, so after at most three fallbacks it is.
pub fn after_failure(path: RunPath, peer_pubkey: &Option<String>, relay_ready: bool) -> (p: RunPath)
    requires
        !(path is Local),
    ensures
        match path {
            RunPath::Quic { .. } => p == RunPath::Direct { signed: peer_pubkey is Some },
            RunPath::Direct { .. } => match peer_pubkey {
                Some(k) => if relay_ready {
                    (p matches RunPath::Relay { pubkey } && pubkey@ == k@)
                } else {
                    p == RunPath::Local
                },
                None => p == RunPath::Local,
            },
            _ => p == RunPath::Local,
        },
        paths_left(p) < paths_left(path),
{
    match path {
        RunPath::Quic { .. } => RunPath::Direct { signed: peer_pubkey.is_some() },
        RunPath::Direct { .. } => match peer_pubkey {
            Some(k) => if relay_ready {
                RunPath::Relay { pubkey: owned(k.as_str()) }
            } else {
                RunPath::Local
            },
            None => RunPath::Local,
        },
        _ => RunPath::Local,
    }
}

} // verus!
