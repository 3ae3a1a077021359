//! Zero-config peer discovery on a LAN: the table of daemons heard on
//! `_unhosted._tcp.local.`, what each mDNS event does to it, and the
//! snapshot the UI offers for pairing. The mDNS daemon itself runs
//! outside the library and hands each event to the table.

use vstd::prelude::*;
use crate::text::{chars_of, ends_with, ends_with_str, lex_lt, owned, str_eq, str_lt,
    string_of_range, lemma_lex_total, lemma_lex_transitive};

verus! {

/// The mDNS service type every daemon registers and browses.
pub const SERVICE_TYPE: &'static str = "_unhosted._tcp.local.";

/// How long a peer stays listed after it was last heard, in ms.
pub const STALE_AFTER_MS: u64 = 60_000;

/// A daemon heard on the LAN, not necessarily paired.
#[derive(Debug)]
pub struct DiscoveredPeer {
    pub name: String,
    /// `host:port`.
    pub addr: String,
    pub host: Option<String>,
    pub version: Option<String>,
    /// Unix milliseconds of the last announcement heard.
    pub last_seen_ms: u64,
}

/// The instance name of an mDNS full name: the name without the
/// `.<service type>` suffix (the full name when it has none).
pub open spec fn service_name(fullname: Seq<char>) -> Seq<char> {
    let suffix = seq!['.'] + SERVICE_TYPE@;
    if ends_with(fullname, suffix) {
        fullname.take(fullname.len() - suffix.len())
    } else {
        fullname
    }
}

/// The instance name of an mDNS full name.
pub fn instance_name(fullname: &str) -> (r: String)
    ensures
        r@ == service_name(fullname@),
{
    let v = chars_of(fullname);
    let mut suffix = String::new();
    crate::text::push_char(&mut suffix, '.');
    crate::text::push_str(&mut suffix, SERVICE_TYPE);
    assert(suffix@ =~= seq!['.'] + SERVICE_TYPE@);
    if ends_with_str(v.as_slice(), suffix.as_str()) {
        let n = v.len() - chars_of(suffix.as_str()).len();
        let r = string_of_range(v.as_slice(), 0, n);
        assert(v@.subrange(0, n as int) =~= v@.take(n as int));
        r
    } else {
        owned(fullname)
    }
}

/// A host label character: ASCII letters and digits and `-` stay, the
/// rest become `-`.
pub open spec fn host_char(c: char) -> char {
    if ('a' <= c && c <= 'z') || ('A' <= c && c <= 'Z') || ('0' <= c && c <= '9') || c == '-' {
        c
    } else {
        '-'
    }
}

/// A node name made fit for an mDNS host label.
pub open spec fn sanitized_host(s: Seq<char>) -> Seq<char> {
    s.map_values(|c: char| host_char(c))
}

/// Makes a node name fit for an mDNS host label.
pub fn sanitize_host(name: &str) -> (r: String)
    ensures
        r@ == sanitized_host(name@),
{
    let v = chars_of(name);
    let mut r = String::new();
    let mut i: usize = 0;
    while i < v.len()
        invariant
            i <= v@.len(),
            r@ == sanitized_host(v@.take(i as int)),
        decreases v@.len() - i,
    {
        let c = v[i];
        let h = if ('a' <= c && c <= 'z') || ('A' <= c && c <= 'Z') || ('0' <= c && c <= '9') || c
            == '-' {
            c
        } else {
            '-'
        };
        crate::text::push_char(&mut r, h);
        assert(sanitized_host(v@.take(i + 1)) =~= sanitized_host(v@.take(i as int)).push(h));
        i += 1;
    }
    assert(v@.take(i as int) =~= v@);
    r
}

/// The name a node goes by: `UNHOSTED_NODE_NAME` when set and not empty,
/// else the host name without a `.local` suffix, else `unhosted`.
pub open spec fn node_name(env_name: Option<Seq<char>>, hostname: Option<Seq<char>>) -> Seq<char> {
    match env_name {
        Some(s) if s.len() > 0 => s,
        _ => match hostname {
            Some(h) => if ends_with(h, ".local"@) {
                h.take(h.len() - 6)
            } else {
                h
            },
            None => "unhosted"@,
        },
    }
}

/// Picks the node's name from the environment variable's value and the
/// machine's host name (each `None` when unavailable or not Unicode).
pub fn default_node_name(env_name: Option<String>, hostname: Option<String>) -> (r: String)
    ensures
        r@ == node_name(
            match env_name {
                Some(s) => Some(s@),
                None => None,
            },
            match hostname {
                Some(s) => Some(s@),
                None => None,
            },
        ),
{
    proof {
        reveal_strlit(".local");
        reveal_strlit("unhosted");
    }
    if let Some(s) = env_name {
        if chars_of(s.as_str()).len() > 0 {
            return s;
        }
    }
    match hostname {
        Some(h) => {
            let v = chars_of(h.as_str());
            if ends_with_str(v.as_slice(), ".local") {
                let n = v.len() - 6;
                let r = string_of_range(v.as_slice(), 0, n);
                assert(v@.subrange(0, n as int) =~= v@.take(n as int));
                r
            } else {
                h
            }
        },
        None => owned("unhosted"),
    }
}

/// No two peers share a name.
pub open spec fn distinct_names(s: Seq<DiscoveredPeer>) -> bool {
    forall|i: int, j: int| 0 <= i < j < s.len() ==> s[i].name@ != s[j].name@
}

/// The peers heard so far, one per instance name.
#[derive(Debug)]
pub struct PeerTable {
    pub peers: Vec<DiscoveredPeer>,
}

/// What one mDNS resolution announces.
#[derive(Debug)]
pub struct Announcement {
    /// The mDNS full name.
    pub fullname: String,
    pub port: u16,
    /// The first announced address with the port, as `host:port`; `None`
    /// when the announcement carries no address.
    pub addr: Option<String>,
    pub host: String,
    pub version: Option<String>,
}

/// The view of an optional text.
pub open spec fn opt_text(o: Option<String>) -> Option<Seq<char>> {
    match o {
        Some(s) => Some(s@),
        None => None,
    }
}

fn copy_opt(o: &Option<String>) -> (r: Option<String>)
    ensures
        opt_text(r) == opt_text(*o),
{
    match o {
        Some(s) => Some(owned(s.as_str())),
        None => None,
    }
}

/// `p` is the peer that announcement `a` records at time `now`.
pub open spec fn recorded(p: DiscoveredPeer, a: Announcement, now: u64) -> bool {
    &&& p.name@ == service_name(a.fullname@)
    &&& a.addr matches Some(x) && p.addr@ == x@
    &&& opt_text(p.host) == Some(a.host@)
    &&& opt_text(p.version) == opt_text(a.version)
    &&& p.last_seen_ms == now
}

/// Two peers hold the same values.
pub open spec fn same_peer(p: DiscoveredPeer, q: DiscoveredPeer) -> bool {
    &&& p.name@ == q.name@
    &&& p.addr@ == q.addr@
    &&& opt_text(p.host) == opt_text(q.host)
    &&& opt_text(p.version) == opt_text(q.version)
    &&& p.last_seen_ms == q.last_seen_ms
}

impl PeerTable {
    /// An empty table.
    pub fn new() -> (t: Self)
        ensures
            t.peers@.len() == 0,
    {
        PeerTable { peers: Vec::new() }
    }

    /// The index of the peer with the given name.
    pub fn position(&self, name: &str) -> (r: Option<usize>)
        ensures
            match r {
                Some(i) => i < self.peers@.len() && self.peers@[i as int].name@ == name@,
                None => forall|k: int| 0 <= k < self.peers@.len() ==> self.peers@[k].name@ != name@,
            },
    {
        let mut i: usize = 0;
        while i < self.peers.len()
            invariant
                i <= self.peers@.len(),
                forall|k: int| 0 <= k < i ==> self.peers@[k].name@ != name@,
            decreases self.peers@.len() - i,
        {
            if str_eq(self.peers[i].name.as_str(), name) {
                return Some(i);
            }
            i += 1;
        }
        None
    }

    /// A resolved announcement: our own (same instance name and port) and
    /// one without an address are ignored; otherwise the peer under its
    /// instance name is recorded, replacing an earlier record. Returns
    /// whether the table changed.
    pub fn on_resolved(&mut self, a: Announcement, local_name: &str, local_port: u16, now: u64) -> (recorded_it: bool)
        requires
            distinct_names(old(self).peers@),
        ensures
            distinct_names(final(self).peers@),
            recorded_it == !((service_name(a.fullname@) == local_name@ && a.port == local_port)
                || a.addr is None),
            !recorded_it ==> final(self).peers@ == old(self).peers@,
            recorded_it ==> {
                &&& forall|k: int|
                    0 <= k < old(self).peers@.len() && old(self).peers@[k].name@ != service_name(a.fullname@)
                    ==> exists|j: int| 0 <= j < final(self).peers@.len() && #[trigger] final(self).peers@[j] == old(
                        self,
                    ).peers@[k]
                &&& forall|j: int|
                    0 <= j < final(self).peers@.len() ==> (#[trigger] final(self).peers@[j]).name@
                        != service_name(a.fullname@) ==> old(self).peers@.contains(final(self).peers@[j])
                &&& exists|j: int|
                    0 <= j < final(self).peers@.len() && recorded(#[trigger] final(self).peers@[j], a, now)
            },
    {
        let ghost ann = a;
        let name = instance_name(a.fullname.as_str());
        if str_eq(name.as_str(), local_name) && a.port == local_port {
            return false;
        }
        let addr = match a.addr {
            Some(x) => x,
            None => return false,
        };
        let peer = DiscoveredPeer {
            name,
            addr,
            host: Some(a.host),
            version: a.version,
            last_seen_ms: now,
        };
        assert(recorded(peer, ann, now));
        let ghost before = self.peers@;
        match self.position(peer.name.as_str()) {
            Some(i) => {
                self.peers.set(i, peer);
                assert(self.peers@[i as int] == peer);
                assert forall|k: int|
                    0 <= k < before.len() && before[k].name@ != service_name(ann.fullname@) implies exists|
                        j: int,
                    | 0 <= j < self.peers@.len() && #[trigger] self.peers@[j] == before[k] by {
                    assert(self.peers@[k] == before[k]);
                }
                assert forall|j: int|
                    0 <= j < self.peers@.len() && (#[trigger] self.peers@[j]).name@ != service_name(
                        ann.fullname@,
                    ) implies before.contains(self.peers@[j]) by {
                    assert(before[j] == self.peers@[j]);
                }
            },
            None => {
                self.peers.push(peer);
                assert(self.peers@[before.len() as int] == peer);
                assert forall|k: int|
                    0 <= k < before.len() && before[k].name@ != service_name(ann.fullname@) implies exists|
                        j: int,
                    | 0 <= j < self.peers@.len() && #[trigger] self.peers@[j] == before[k] by {
                    assert(self.peers@[k] == before[k]);
                }
                assert forall|j: int|
                    0 <= j < self.peers@.len() && (#[trigger] self.peers@[j]).name@ != service_name(
                        ann.fullname@,
                    ) implies before.contains(self.peers@[j]) by {
                    assert(before[j] == self.peers@[j]);
                }
            },
        }
        true
    }

    /// A removal: the peer under the instance name is dropped. Returns
    /// whether one was.
    pub fn on_removed(&mut self, fullname: &str) -> (removed: bool)
        requires
            distinct_names(old(self).peers@),
        ensures
            distinct_names(final(self).peers@),
            removed == exists|k: int|
                0 <= k < old(self).peers@.len() && old(self).peers@[k].name@ == service_name(fullname@),
            removed ==> final(self).peers@.len() + 1 == old(self).peers@.len(),
            !removed ==> final(self).peers@ == old(self).peers@,
            forall|j: int|
                0 <= j < final(self).peers@.len() ==> (#[trigger] final(self).peers@[j]).name@ != service_name(
                    fullname@,
                ) && old(self).peers@.contains(final(self).peers@[j]),
    {
        let name = instance_name(fullname);
        let ghost before = self.peers@;
        match self.position(name.as_str()) {
            Some(i) => {
                self.peers.remove(i);
                assert forall|j: int| 0 <= j < self.peers@.len() implies (#[trigger] self.peers@[j]).name@
                    != service_name(fullname@) && before.contains(self.peers@[j]) by {
                    if j < i {
                        assert(before[j] == self.peers@[j]);
                    } else {
                        assert(before[j + 1] == self.peers@[j]);
                    }
                }
                true
            },
            None => {
                assert forall|j: int| 0 <= j < self.peers@.len() implies (#[trigger] self.peers@[j]).name@
                    != service_name(fullname@) && before.contains(self.peers@[j]) by {
                    assert(before[j] == self.peers@[j]);
                }
                false
            },
        }
    }

    /// The peers heard within the last minute before `now`, by name.
    pub fn snapshot(&self, now: u64) -> (r: Vec<DiscoveredPeer>)
        ensures
            r@.len() == listed(self.peers@, now).len(),
            forall|i: int| 0 <= i < r@.len() ==> same_peer(#[trigger] r@[i], listed(self.peers@, now)[i]),
    {
        let cutoff = if now >= STALE_AFTER_MS {
            now - STALE_AFTER_MS
        } else {
            0
        };
        let mut fresh: Vec<DiscoveredPeer> = Vec::new();
        let mut i: usize = 0;
        while i < self.peers.len()
            invariant
                i <= self.peers@.len(),
                cutoff == seen_cutoff(now),
                fresh@.len() == recent(self.peers@.take(i as int), cutoff).len(),
                forall|k: int|
                    0 <= k < fresh@.len() ==> same_peer(#[trigger] fresh@[k], recent(self.peers@.take(i as int), cutoff)[k]),
            decreases self.peers@.len() - i,
        {
            let p = &self.peers[i];
            proof {
                reveal(Seq::filter);
                assert(self.peers@.take(i + 1).drop_last() =~= self.peers@.take(i as int));
                assert(self.peers@.take(i + 1).last() == *p);
            }
            if p.last_seen_ms >= cutoff {
                let copy = DiscoveredPeer {
                    name: owned(p.name.as_str()),
                    addr: owned(p.addr.as_str()),
                    host: copy_opt(&p.host),
                    version: copy_opt(&p.version),
                    last_seen_ms: p.last_seen_ms,
                };
                fresh.push(copy);
            }
            i += 1;
        }
        assert(self.peers@.take(i as int) =~= self.peers@);
        proof {
            lemma_by_name_same(fresh@, recent(self.peers@, cutoff));
        }
        sort_by_name(fresh)
    }
}

/// The oldest last-seen time still listed at `now`.
pub open spec fn seen_cutoff(now: u64) -> u64 {
    if now >= STALE_AFTER_MS {
        (now - STALE_AFTER_MS) as u64
    } else {
        0
    }
}

/// The peers heard at or after the cutoff, in table order.
pub open spec fn recent(s: Seq<DiscoveredPeer>, cutoff: u64) -> Seq<DiscoveredPeer> {
    s.filter(heard_since(cutoff))
}

/// A peer was heard at or after the cutoff.
pub open spec fn heard_since(cutoff: u64) -> spec_fn(DiscoveredPeer) -> bool {
    |p: DiscoveredPeer| p.last_seen_ms >= cutoff
}

/// Where a peer named `n` goes into a by-name list: before the first
/// peer whose name sorts after it, scanning from `i`.
pub open spec fn name_pos(s: Seq<DiscoveredPeer>, n: Seq<char>, i: int) -> int
    decreases s.len() - i,
{
    if i < 0 || i >= s.len() {
        s.len() as int
    } else if lex_lt(n, s[i].name@) {
        i
    } else {
        name_pos(s, n, i + 1)
    }
}

/// Stable ordering by name.
pub open spec fn by_name(s: Seq<DiscoveredPeer>) -> Seq<DiscoveredPeer>
    decreases s.len(),
{
    if s.len() == 0 {
        s
    } else {
        let r = by_name(s.drop_last());
        r.insert(name_pos(r, s.last().name@, 0), s.last())
    }
}

/// What the UI lists at `now`: the recent peers by name.
pub open spec fn listed(s: Seq<DiscoveredPeer>, now: u64) -> Seq<DiscoveredPeer> {
    by_name(recent(s, seen_cutoff(now)))
}

proof fn lemma_name_pos_same(s1: Seq<DiscoveredPeer>, s2: Seq<DiscoveredPeer>, n: Seq<char>, i: int)
    requires
        s1.len() == s2.len(),
        forall|k: int| 0 <= k < s1.len() ==> #[trigger] same_peer(s1[k], s2[k]),
    ensures
        name_pos(s1, n, i) == name_pos(s2, n, i),
    decreases s1.len() - i,
{
    if 0 <= i < s1.len() {
        assert(same_peer(s1[i], s2[i]));
        lemma_name_pos_same(s1, s2, n, i + 1);
    }
}

proof fn lemma_by_name_same(s1: Seq<DiscoveredPeer>, s2: Seq<DiscoveredPeer>)
    requires
        s1.len() == s2.len(),
        forall|k: int| 0 <= k < s1.len() ==> #[trigger] same_peer(s1[k], s2[k]),
    ensures
        by_name(s1).len() == s1.len(),
        by_name(s2).len() == s2.len(),
        forall|k: int| 0 <= k < s1.len() ==> #[trigger] same_peer(by_name(s1)[k], by_name(s2)[k]),
    decreases s1.len(),
{
    if s1.len() > 0 {
        let a = s1.drop_last();
        let b = s2.drop_last();
        assert forall|k: int| 0 <= k < a.len() implies #[trigger] same_peer(a[k], b[k]) by {
            assert(same_peer(s1[k], s2[k]));
        }
        lemma_by_name_same(a, b);
        let ra = by_name(a);
        let rb = by_name(b);
        assert(same_peer(s1.last(), s2.last()));
        lemma_name_pos_same(ra, rb, s1.last().name@, 0);
        lemma_name_pos_bounds(ra, s1.last().name@, 0);
        let p = name_pos(ra, s1.last().name@, 0);
        assert forall|k: int| 0 <= k < s1.len() implies #[trigger] same_peer(by_name(s1)[k], by_name(s2)[k]) by {
            if k < p {
                assert(same_peer(ra[k], rb[k]));
            } else if k > p {
                assert(same_peer(ra[k - 1], rb[k - 1]));
            }
        }
    }
}

proof fn lemma_name_pos_bounds(s: Seq<DiscoveredPeer>, n: Seq<char>, i: int)
    requires
        0 <= i <= s.len(),
    ensures
        i <= name_pos(s, n, i) <= s.len(),
    decreases s.len() - i,
{
    if i < s.len() {
        lemma_name_pos_bounds(s, n, i + 1);
    }
}

/// The by-name order of a list whose elements are copies of another's.
fn sort_by_name(items: Vec<DiscoveredPeer>) -> (r: Vec<DiscoveredPeer>)
    ensures
        r@ == by_name(items@),
{
    let mut rest = items;
    let ghost orig = rest@;
    let total: usize = rest.len();
    let mut out: Vec<DiscoveredPeer> = Vec::new();
    let mut n: usize = 0;
    while rest.len() > 0
        invariant
            n + rest@.len() == orig.len(),
            orig.len() == total,
            rest@ == orig.subrange(n as int, orig.len() as int),
            out@ == by_name(orig.take(n as int)),
        decreases rest@.len(),
    {
        let x = rest.remove(0);
        assert(orig.take(n + 1).drop_last() =~= orig.take(n as int));
        assert(orig.take(n + 1).last() == x);
        let mut j: usize = 0;
        while j < out.len() && !str_lt(x.name.as_str(), out[j].name.as_str())
            invariant
                j <= out@.len(),
                name_pos(out@, x.name@, 0) == name_pos(out@, x.name@, j as int),
            decreases out@.len() - j,
        {
            j += 1;
        }
        out.insert(j, x);
        n += 1;
        assert(rest@ =~= orig.subrange(n as int, orig.len() as int));
    }
    assert(orig.take(n as int) =~= orig);
    out
}

/// No later peer's name sorts before an earlier one's.
pub open spec fn ordered_by_name(s: Seq<DiscoveredPeer>) -> bool {
    forall|i: int, j: int| 0 <= i < j < s.len() ==> !lex_lt(s[j].name@, s[i].name@)
}

proof fn lemma_name_pos(s: Seq<DiscoveredPeer>, n: Seq<char>, i: int)
    requires
        0 <= i <= s.len(),
        ordered_by_name(s),
    ensures
        i <= name_pos(s, n, i) <= s.len(),
        forall|j: int| i <= j < name_pos(s, n, i) ==> !lex_lt(n, #[trigger] s[j].name@),
        forall|j: int| name_pos(s, n, i) <= j < s.len() ==> lex_lt(n, #[trigger] s[j].name@),
    decreases s.len() - i,
{
    if i < s.len() && !lex_lt(n, s[i].name@) {
        lemma_name_pos(s, n, i + 1);
    } else if i < s.len() {
        assert forall|j: int| i <= j < s.len() implies lex_lt(n, #[trigger] s[j].name@) by {
            if j > i {
                lemma_lex_total(s[i].name@, s[j].name@);
                if s[i].name@ != s[j].name@ {
                    lemma_lex_transitive(n, s[i].name@, s[j].name@);
                }
            }
        }
    }
}

/// The UI's list holds exactly the peers heard within the last minute,
/// each once, ordered by name.
pub proof fn listing_is_recent_and_by_name(s: Seq<DiscoveredPeer>, now: u64)
    ensures
        ordered_by_name(listed(s, now)),
        listed(s, now).to_multiset() == recent(s, seen_cutoff(now)).to_multiset(),
        forall|i: int| 0 <= i < listed(s, now).len() ==> (#[trigger] listed(s, now)[i]).last_seen_ms
            >= seen_cutoff(now),
{
    let r = recent(s, seen_cutoff(now));
    lemma_by_name(r);
    assert forall|i: int| 0 <= i < r.len() implies (#[trigger] r[i]).last_seen_ms >= seen_cutoff(now) by {
        s.lemma_filter_pred(heard_since(seen_cutoff(now)), i);
    }
    assert forall|i: int| 0 <= i < listed(s, now).len() implies (#[trigger] listed(s, now)[i]).last_seen_ms
        >= seen_cutoff(now) by {
        let l = listed(s, now);
        let x = l[i];
        l.to_multiset_ensures();
        r.to_multiset_ensures();
        assert(l.contains(x));
        assert(r.to_multiset().count(x) > 0);
        let k = choose|k: int| 0 <= k < r.len() && r[k] == x;
        assert(r[k].last_seen_ms >= seen_cutoff(now));
    }
}

proof fn lemma_by_name(s: Seq<DiscoveredPeer>)
    ensures
        ordered_by_name(by_name(s)),
        by_name(s).to_multiset() == s.to_multiset(),
        by_name(s).len() == s.len(),
    decreases s.len(),
{
    if s.len() > 0 {
        let r = by_name(s.drop_last());
        lemma_by_name(s.drop_last());
        let x = s.last();
        let p = name_pos(r, x.name@, 0);
        lemma_name_pos(r, x.name@, 0);
        let t = r.insert(p, x);
        assert forall|i: int, j: int| 0 <= i < j < t.len() implies !lex_lt(t[j].name@, t[i].name@) by {
            if j < p {
            } else if j == p {
                assert(!lex_lt(x.name@, r[i].name@));
            } else if i < p {
                assert(t[j] == r[j - 1]);
            } else if i == p {
                assert(t[j] == r[j - 1]);
                assert(lex_lt(x.name@, r[j - 1].name@));
                lemma_lex_total(x.name@, r[j - 1].name@);
            } else {
                assert(t[i] == r[i - 1] && t[j] == r[j - 1]);
            }
        }
        vstd::seq_lib::to_multiset_insert(r, p, x);
        vstd::seq_lib::to_multiset_insert(s.drop_last(), s.len() - 1, x);
        assert(s =~= s.drop_last().insert(s.len() - 1, x));
    }
}

} // verus!
