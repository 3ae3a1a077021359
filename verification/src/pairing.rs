//! Trusted pairing: the one-time tokens an offer carries, the offer text
//! itself, short relay codes, and what a pairing reply must hold.

use vstd::prelude::*;
use crate::node::{url_encoded, urlencode};
use crate::relay_client::RelayState;
use crate::text::{chars_of, owned, push_str, str_eq, string_from_chars, trim, trim_chars};

verus! {

/// How long a pairing token stays valid, in nanoseconds of the daemon's
/// monotonic clock (five minutes).
pub const PAIRING_TOKEN_TTL_NS: u64 = 300_000_000_000;

/// A token issued at `issued` is still valid at `now`: less than the TTL
/// has passed (a clock that reads earlier counts as no time passed).
pub open spec fn fresh(issued: u64, now: u64) -> bool {
    (if now >= issued {
        now - issued
    } else {
        0
    }) < PAIRING_TOKEN_TTL_NS
}

/// The issue time recorded for a token, if any (the last record wins).
pub open spec fn lookup(s: Seq<(Seq<char>, u64)>, k: Seq<char>) -> Option<u64>
    decreases s.len(),
{
    if s.len() == 0 {
        None
    } else if s.last().0 == k {
        Some(s.last().1)
    } else {
        lookup(s.drop_last(), k)
    }
}

/// Every token is recorded once.
pub open spec fn distinct(s: Seq<(Seq<char>, u64)>) -> bool
    decreases s.len(),
{
    s.len() == 0 || (distinct(s.drop_last()) && lookup(s.drop_last(), s.last().0) is None)
}

/// The records still valid at `now`, in order.
pub open spec fn fresh_only(s: Seq<(Seq<char>, u64)>, now: u64) -> Seq<(Seq<char>, u64)>
    decreases s.len(),
{
    if s.len() == 0 {
        s
    } else {
        let r = fresh_only(s.drop_last(), now);
        if fresh(s.last().1, now) {
            r.push(s.last())
        } else {
            r
        }
    }
}

/// The records of every other token, in order.
pub open spec fn without_key(s: Seq<(Seq<char>, u64)>, k: Seq<char>) -> Seq<(Seq<char>, u64)>
    decreases s.len(),
{
    if s.len() == 0 {
        s
    } else {
        let r = without_key(s.drop_last(), k);
        if s.last().0 == k {
            r
        } else {
            r.push(s.last())
        }
    }
}

/// The records after issuing `tok` at `now`: expired tokens dropped, the
/// token recorded at `now`.
pub open spec fn issued(s: Seq<(Seq<char>, u64)>, tok: Seq<char>, now: u64) -> Seq<(Seq<char>, u64)> {
    without_key(fresh_only(s, now), tok).push((tok, now))
}

/// A presented token is accepted at `now`: it was issued and has not
/// expired.
pub open spec fn accepted(s: Seq<(Seq<char>, u64)>, tok: Seq<char>, now: u64) -> bool {
    lookup(fresh_only(s, now), tok) is Some
}

/// The records after `tok` is presented at `now`: expired tokens dropped,
/// the token spent.
pub open spec fn consumed(s: Seq<(Seq<char>, u64)>, tok: Seq<char>, now: u64) -> Seq<(Seq<char>, u64)> {
    without_key(fresh_only(s, now), tok)
}

proof fn lemma_fresh_only(s: Seq<(Seq<char>, u64)>, now: u64)
    requires
        distinct(s),
    ensures
        distinct(fresh_only(s, now)),
        forall|k: Seq<char>|
            #[trigger] lookup(fresh_only(s, now), k) == match lookup(s, k) {
                Some(t) => if fresh(t, now) {
                    Some(t)
                } else {
                    None
                },
                None => None,
            },
    decreases s.len(),
{
    if s.len() > 0 {
        lemma_fresh_only(s.drop_last(), now);
        let r = fresh_only(s.drop_last(), now);
        let x = s.last();
        assert(lookup(r, x.0) is None);
        assert(r.push(x).drop_last() =~= r);
        assert forall|k: Seq<char>|
            #[trigger] lookup(fresh_only(s, now), k) == match lookup(s, k) {
                Some(t) => if fresh(t, now) {
                    Some(t)
                } else {
                    None
                },
                None => None,
            } by {
            assert(lookup(r, k) == match lookup(s.drop_last(), k) {
                Some(t) => if fresh(t, now) {
                    Some(t)
                } else {
                    None
                },
                None => None,
            });
            if !fresh(x.1, now) && x.0 == k {
                assert(lookup(s.drop_last(), k) is None);
            }
        }
    }
}

proof fn lemma_without_key(s: Seq<(Seq<char>, u64)>, tok: Seq<char>)
    requires
        distinct(s),
    ensures
        distinct(without_key(s, tok)),
        forall|k: Seq<char>|
            #[trigger] lookup(without_key(s, tok), k) == if k == tok {
                None
            } else {
                lookup(s, k)
            },
    decreases s.len(),
{
    if s.len() > 0 {
        lemma_without_key(s.drop_last(), tok);
        let r = without_key(s.drop_last(), tok);
        let x = s.last();
        assert(r.push(x).drop_last() =~= r);
        if x.0 != tok {
            assert(lookup(r, x.0) is None);
        }
        assert forall|k: Seq<char>|
            #[trigger] lookup(without_key(s, tok), k) == if k == tok {
                None
            } else {
                lookup(s, k)
            } by {
            assert(lookup(r, k) == if k == tok {
                None
            } else {
                lookup(s.drop_last(), k)
            });
        }
    }
}

/// The view of the token records.
pub open spec fn records_view(v: Seq<(String, u64)>) -> Seq<(Seq<char>, u64)> {
    v.map_values(|e: (String, u64)| (e.0@, e.1))
}

/// The pairing tokens handed out and not yet spent.
#[derive(Debug)]
pub struct PairingTokens {
    entries: Vec<(String, u64)>,
}

impl View for PairingTokens {
    type V = Seq<(Seq<char>, u64)>;

    closed spec fn view(&self) -> Seq<(Seq<char>, u64)> {
        records_view(self.entries@)
    }
}

fn copy_entry(e: &(String, u64)) -> (r: (String, u64))
    ensures
        r.0@ == e.0@,
        r.1 == e.1,
{
    (owned(e.0.as_str()), e.1)
}

impl PairingTokens {
    #[verifier::type_invariant]
    spec fn records_distinct(self) -> bool {
        distinct(records_view(self.entries@))
    }

    /// No tokens.
    pub fn new() -> (t: Self)
        ensures
            t@ == Seq::<(Seq<char>, u64)>::empty(),
    {
        let t = PairingTokens { entries: Vec::new() };
        assert(t@ =~= Seq::<(Seq<char>, u64)>::empty());
        t
    }

    /// The records of the tokens valid at `now`, minus `skip` when given.
    fn kept(&self, now: u64, skip: Option<&str>) -> (r: Vec<(String, u64)>)
        ensures
            records_view(r@) == match skip {
                Some(k) => without_key(fresh_only(self@, now), k@),
                None => fresh_only(self@, now),
            },
    {
        let mut fresh_v: Vec<(String, u64)> = Vec::new();
        let mut i: usize = 0;
        while i < self.entries.len()
            invariant
                i <= self.entries@.len(),
                records_view(fresh_v@) == fresh_only(self@.take(i as int), now),
            decreases self.entries@.len() - i,
        {
            proof {
                assert(self@.take(i + 1).drop_last() =~= self@.take(i as int));
                assert(self@.take(i + 1).last() == (self.entries@[i as int].0@, self.entries@[i as int].1));
            }
            let e = &self.entries[i];
            let age = if now >= e.1 {
                now - e.1
            } else {
                0
            };
            if age < PAIRING_TOKEN_TTL_NS {
                let ghost before = fresh_v@;
                fresh_v.push(copy_entry(e));
                assert(records_view(fresh_v@) =~= records_view(before).push((e.0@, e.1)));
            }
            i += 1;
        }
        assert(self@.take(i as int) =~= self@);
        match skip {
            None => fresh_v,
            Some(k) => {
                let mut out: Vec<(String, u64)> = Vec::new();
                let mut j: usize = 0;
                let ghost f = records_view(fresh_v@);
                while j < fresh_v.len()
                    invariant
                        j <= fresh_v@.len(),
                        f == records_view(fresh_v@),
                        records_view(out@) == without_key(f.take(j as int), k@),
                    decreases fresh_v@.len() - j,
                {
                    proof {
                        assert(f.take(j + 1).drop_last() =~= f.take(j as int));
                        assert(f.take(j + 1).last() == (fresh_v@[j as int].0@, fresh_v@[j as int].1));
                    }
                    if !str_eq(fresh_v[j].0.as_str(), k) {
                        let ghost before = out@;
                        out.push(copy_entry(&fresh_v[j]));
                        assert(records_view(out@) =~= records_view(before).push(
                            (fresh_v@[j as int].0@, fresh_v@[j as int].1),
                        ));
                    }
                    j += 1;
                }
                assert(f.take(j as int) =~= f);
                out
            },
        }
    }

    /// Issues `token` at `now` (expired tokens are dropped first).
    pub fn issue(&mut self, token: String, now: u64)
        ensures
            final(self)@ == issued(old(self)@, token@, now),
    {
        proof {
            use_type_invariant(&*self);
            lemma_fresh_only(self@, now);
            lemma_without_key(fresh_only(self@, now), token@);
        }
        let mut v = self.kept(now, Some(token.as_str()));
        let ghost before = v@;
        v.push((token, now));
        assert(records_view(v@) =~= records_view(before).push((token@, now)));
        assert(records_view(v@).drop_last() =~= records_view(before));
        self.entries = v;
    }

    /// Presents `token` at `now`: expired tokens are dropped, and the
    /// token is accepted (and spent) when it was issued and is still
    /// valid.
    pub fn consume(&mut self, token: &str, now: u64) -> (ok: bool)
        ensures
            ok == accepted(old(self)@, token@, now),
            final(self)@ == consumed(old(self)@, token@, now),
    {
        proof {
            use_type_invariant(&*self);
            lemma_fresh_only(self@, now);
            lemma_without_key(fresh_only(self@, now), token@);
        }
        let fresh_v = self.kept(now, None);
        let mut ok = false;
        let mut i: usize = 0;
        let ghost f = records_view(fresh_v@);
        while i < fresh_v.len()
            invariant
                i <= fresh_v@.len(),
                f == records_view(fresh_v@),
                ok == (lookup(f.take(i as int), token@) is Some),
            decreases fresh_v@.len() - i,
        {
            proof {
                assert(f.take(i + 1).drop_last() =~= f.take(i as int));
                assert(f.take(i + 1).last() == (fresh_v@[i as int].0@, fresh_v@[i as int].1));
            }
            if str_eq(fresh_v[i].0.as_str(), token) {
                ok = true;
            }
            i += 1;
        }
        assert(f.take(i as int) =~= f);
        self.entries = self.kept(now, Some(token));
        ok
    }
}

/// A token is accepted once within its lifetime: presented before it
/// expires it is accepted, and presented again it is refused.
pub proof fn tokens_are_single_use(s: Seq<(Seq<char>, u64)>, tok: Seq<char>, t: u64, now: u64, later: u64)
    requires
        distinct(s),
        fresh(t, now),
    ensures
        accepted(issued(s, tok, t), tok, now),
        !accepted(consumed(issued(s, tok, t), tok, now), tok, later),
{
    lemma_fresh_only(s, t);
    let p = fresh_only(s, t);
    lemma_without_key(p, tok);
    let s1 = issued(s, tok, t);
    assert(s1.drop_last() =~= without_key(p, tok));
    lemma_fresh_only(s1, now);
    lemma_without_key(fresh_only(s1, now), tok);
    let s2 = consumed(s1, tok, now);
    lemma_fresh_only(s2, later);
}

/// A token presented after its lifetime is refused.
pub proof fn expired_tokens_are_refused(s: Seq<(Seq<char>, u64)>, tok: Seq<char>, t: u64, now: u64)
    requires
        distinct(s),
        !fresh(t, now),
    ensures
        !accepted(issued(s, tok, t), tok, now),
{
    lemma_fresh_only(s, t);
    lemma_without_key(fresh_only(s, t), tok);
    let s1 = issued(s, tok, t);
    assert(s1.drop_last() =~= without_key(fresh_only(s, t), tok));
    lemma_fresh_only(s1, now);
}

/// Spending one token leaves whether any other is accepted later
/// unchanged.
pub proof fn spending_leaves_other_tokens(s: Seq<(Seq<char>, u64)>, tok: Seq<char>, other: Seq<char>, now: u64, later: u64)
    requires
        distinct(s),
        other != tok,
        now <= later,
    ensures
        accepted(consumed(s, tok, now), other, later) == accepted(s, other, later),
{
    lemma_fresh_only(s, now);
    lemma_without_key(fresh_only(s, now), tok);
    lemma_fresh_only(consumed(s, tok, now), later);
    lemma_fresh_only(s, later);
}

// ---------------------------------------------------------------------
// Offers
// ---------------------------------------------------------------------

/// The offer text: the address, the URL-encoded public key, the
/// URL-encoded relay when there is one, and the token.
pub open spec fn offer_text(addr: Seq<char>, pubkey: Seq<char>, relay: Option<Seq<char>>, token: Seq<char>) -> Seq<char> {
    match relay {
        Some(r) => "unhosted://pair?addr="@ + addr + "&pk="@ + url_encoded(pubkey) + "&relay="@
            + url_encoded(r) + "&token="@ + token,
        None => "unhosted://pair?addr="@ + addr + "&pk="@ + url_encoded(pubkey) + "&token="@
            + token,
    }
}

/// Writes a pairing offer.
pub fn pair_offer(addr: &str, pubkey: &str, relay: Option<&str>, token: &str) -> (s: String)
    ensures
        s@ == offer_text(
            addr@,
            pubkey@,
            match relay {
                Some(r) => Some(r@),
                None => None,
            },
            token@,
        ),
{
    let mut s = owned("unhosted://pair?addr=");
    push_str(&mut s, addr);
    push_str(&mut s, "&pk=");
    let pk = urlencode(pubkey);
    push_str(&mut s, pk.as_str());
    if let Some(r) = relay {
        push_str(&mut s, "&relay=");
        let re = urlencode(r);
        push_str(&mut s, re.as_str());
    }
    push_str(&mut s, "&token=");
    push_str(&mut s, token);
    s
}

/// The relay an offer names: ours, only while we are registered with it.
pub fn offer_relay(state: &RelayState, relay_url: Option<String>) -> (r: Option<String>)
    ensures
        r == (if *state is Registered {
            relay_url
        } else {
            None
        }),
{
    match state {
        RelayState::Registered => relay_url,
        _ => None,
    }
}

/// How the other side will reach us: through the relay, on the LAN, or
/// only from this machine.
pub fn reachability(has_relay: bool, only_loopback: bool) -> (s: &'static str)
    ensures
        s@ == if has_relay {
            "relay"@
        } else if only_loopback {
            "loopback_only"@
        } else {
            "lan"@
        },
{
    if has_relay {
        "relay"
    } else if only_loopback {
        "loopback_only"
    } else {
        "lan"
    }
}

/// An ASCII letter in upper case; other characters unchanged.
pub open spec fn ascii_upper(c: char) -> char {
    if 'a' <= c && c <= 'z' {
        ((c as u32) - 32) as char
    } else {
        c
    }
}

/// A typed short code: trimmed and upper-cased; `None` when empty.
pub open spec fn normalized_code(s: Seq<char>) -> Option<Seq<char>> {
    let t = trim(s).map_values(|c: char| ascii_upper(c));
    if t.len() == 0 {
        None
    } else {
        Some(t)
    }
}

fn ascii_upper_char(c: char) -> (r: char)
    ensures
        r == ascii_upper(c),
{
    if 'a' <= c && c <= 'z' {
        let code: u8 = ((c as u32) - 32) as u8;
        code as char
    } else {
        c
    }
}

/// Reads a short pairing code as typed by the user.
pub fn normalize_code(code: &str) -> (r: Option<String>)
    ensures
        match normalized_code(code@) {
            Some(t) => r matches Some(s) && s@ == t,
            None => r is None,
        },
{
    let t = trim_chars(chars_of(code).as_slice());
    let mut u: Vec<char> = Vec::new();
    let mut i: usize = 0;
    while i < t.len()
        invariant
            i <= t@.len(),
            u@ == t@.take(i as int).map_values(|c: char| ascii_upper(c)),
        decreases t@.len() - i,
    {
        u.push(ascii_upper_char(t[i]));
        assert(u@ =~= t@.take(i + 1).map_values(|c: char| ascii_upper(c)));
        i += 1;
    }
    assert(t@.take(i as int) =~= t@);
    if u.len() == 0 {
        None
    } else {
        Some(string_from_chars(u.as_slice()))
    }
}

// ---------------------------------------------------------------------
// Replies
// ---------------------------------------------------------------------

/// The offerer's answer to a pairing, as the connecting side keeps it.
#[derive(Debug, Clone)]
pub struct PairConfirmation {
    pub name: String,
    pub pubkey: String,
    /// `host:port`; the runtime parses it as a socket address.
    pub addr: String,
}

/// What a pairing answer lacked.
#[derive(Debug, Clone, Copy, PartialEq, Eq, Structural)]
pub enum ConfirmationError {
    MissingPubkey,
    MissingAddr,
}

impl ConfirmationError {
    /// The daemon's message for the error.
    pub fn message(self) -> (s: &'static str)
        ensures
            s@ == match self {
                ConfirmationError::MissingPubkey => "offerer omitted pubkey"@,
                ConfirmationError::MissingAddr => "offerer omitted addr"@,
            },
    {
        match self {
            ConfirmationError::MissingPubkey => "offerer omitted pubkey",
            ConfirmationError::MissingAddr => "offerer omitted addr",
        }
    }
}

/// Reads the offerer's answer from its string fields (`None` when absent
/// or not a string): the name defaults to `(unknown)`, the key and the
/// address are required, the key first.
pub fn read_confirmation(name: Option<String>, pubkey: Option<String>, addr: Option<String>) -> (r:
    Result<PairConfirmation, ConfirmationError>)
    ensures
        pubkey is None ==> r == Err::<PairConfirmation, ConfirmationError>(
            ConfirmationError::MissingPubkey,
        ),
        pubkey is Some && addr is None ==> r == Err::<PairConfirmation, ConfirmationError>(
            ConfirmationError::MissingAddr,
        ),
        pubkey is Some && addr is Some ==> (r matches Ok(c) && c.pubkey == pubkey->0 && c.addr
            == addr->0 && c.name@ == match name {
            Some(n) => n@,
            None => "(unknown)"@,
        }),
{
    let pubkey = match pubkey {
        Some(p) => p,
        None => return Err(ConfirmationError::MissingPubkey),
    };
    let addr = match addr {
        Some(a) => a,
        None => return Err(ConfirmationError::MissingAddr),
    };
    let name = match name {
        Some(n) => n,
        None => owned("(unknown)"),
    };
    Ok(PairConfirmation { name, pubkey, addr })
}

/// When a direct pairing attempt fails, the key to pair with through the
/// relay: only when the offer names the peer's key and the very relay we
/// are registered with.
pub fn relay_pair_key(offer_pubkey: &Option<String>, offer_relay: &Option<String>, our_relay: &Option<String>, state: &RelayState) -> (r: Option<String>)
    ensures
        r matches Some(k) ==> (offer_pubkey matches Some(p) && k@ == p@),
        r is Some <==> (offer_pubkey is Some && offer_relay is Some && our_relay is Some
            && offer_relay->0@ == our_relay->0@ && *state is Registered),
{
    let same_relay = match (offer_relay, our_relay) {
        (Some(a), Some(b)) => str_eq(a.as_str(), b.as_str()),
        _ => false,
    };
    let ready = match state {
        RelayState::Registered => true,
        _ => false,
    };
    match offer_pubkey {
        Some(pk) => if same_relay && ready {
            Some(owned(pk.as_str()))
        } else {
            None
        },
        None => None,
    }
}

} // verus!
