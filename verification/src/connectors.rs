//! The connector consent ledger (local user only).
//!
//! Each known connector (google, notion, slack) has a consent record:
//! whether the user enabled it, whether it is connected, whether a token
//! is held for it in the vault, the granted scopes, the account and when
//! it last changed. Everything is deny-by-default: a connector is
//! disabled and disconnected until the local user opts in. The runtime
//! reads and writes the two JSON files and the token vault; this module
//! holds the ledger and its rules. The ledger is kept ordered by
//! connector name with no name twice, as the on-disk map is.

use vstd::prelude::*;
use crate::text::{chars_of, lex_lt, owned, str_eq, str_lt, string_views, trim, trim_chars,
    string_of_range, lemma_lex_irreflexive, lemma_lex_total, lemma_lex_transitive};

verus! {

/// The connectors this host knows.
pub open spec fn known_connectors() -> Seq<Seq<char>> {
    seq!["google"@, "notion"@, "slack"@]
}

/// The known connector names.
pub fn connectors() -> (v: Vec<&'static str>)
    ensures
        v@.len() == 3,
        forall|i: int| 0 <= i < 3 ==> #[trigger] v@[i]@ == known_connectors()[i],
{
    vec!["google", "notion", "slack"]
}

/// Whether the name is one of the known connectors.
pub fn is_known_connector(name: &str) -> (r: bool)
    ensures
        r == known_connectors().contains(name@),
{
    let r = str_eq(name, "google") || str_eq(name, "notion") || str_eq(name, "slack");
    proof {
        if known_connectors().contains(name@) {
            let i = choose|i: int| 0 <= i < 3 && known_connectors()[i] == name@;
            assert(i == 0 || i == 1 || i == 2);
        }
        if r {
            if name@ == "google"@ {
                assert(known_connectors()[0] == name@);
            } else if name@ == "notion"@ {
                assert(known_connectors()[1] == name@);
            } else {
                assert(known_connectors()[2] == name@);
            }
        }
    }
    r
}

/// One connector's consent record.
#[derive(Debug, Clone)]
pub struct ConnectorConsent {
    pub enabled: bool,
    pub connected: bool,
    pub has_token: bool,
    pub scopes: Vec<String>,
    pub account: Option<String>,
    pub updated_at: i64,
}

/// A consent record as plain values.
pub struct ConsentView {
    pub enabled: bool,
    pub connected: bool,
    pub has_token: bool,
    pub scopes: Seq<Seq<char>>,
    pub account: Option<Seq<char>>,
    pub updated_at: i64,
}

impl View for ConnectorConsent {
    type V = ConsentView;

    open spec fn view(&self) -> ConsentView {
        ConsentView {
            enabled: self.enabled,
            connected: self.connected,
            has_token: self.has_token,
            scopes: string_views(self.scopes@),
            account: match self.account {
                Some(a) => Some(a@),
                None => None,
            },
            updated_at: self.updated_at,
        }
    }
}

/// The record a connector starts with: disabled, disconnected, no token,
/// no scopes, no account.
pub open spec fn fresh(now: i64) -> ConsentView {
    ConsentView {
        enabled: false,
        connected: false,
        has_token: false,
        scopes: Seq::empty(),
        account: None,
        updated_at: now,
    }
}

fn fresh_consent(now: i64) -> (c: ConnectorConsent)
    ensures
        c@ == fresh(now),
{
    let c = ConnectorConsent {
        enabled: false,
        connected: false,
        has_token: false,
        scopes: Vec::new(),
        account: None,
        updated_at: now,
    };
    assert(string_views(c.scopes@) =~= Seq::<Seq<char>>::empty());
    c
}

/// The consent of every connector the user has touched (and of every
/// known one), ordered by name.
#[derive(Debug, Clone)]
pub struct ConnectorConsentLedger {
    pub connectors: Vec<(String, ConnectorConsent)>,
}

/// A ledger entry as plain values.
pub open spec fn entry_view(e: (String, ConnectorConsent)) -> (Seq<char>, ConsentView) {
    (e.0@, e.1@)
}

/// Names strictly ascending, so no name occurs twice.
pub open spec fn sorted_names(s: Seq<(Seq<char>, ConsentView)>) -> bool {
    forall|i: int, j: int| 0 <= i < j < s.len() ==> lex_lt(s[i].0, s[j].0)
}

/// The index of the entry named `name`, if any.
pub open spec fn find_from(s: Seq<(Seq<char>, ConsentView)>, name: Seq<char>, i: int) -> Option<int>
    decreases s.len() - i,
{
    if i < 0 || i >= s.len() {
        None
    } else if s[i].0 == name {
        Some(i)
    } else {
        find_from(s, name, i + 1)
    }
}

/// Where a new name goes: before the first entry whose name sorts after
/// it, scanning from `i`.
pub open spec fn insert_at(s: Seq<(Seq<char>, ConsentView)>, name: Seq<char>, i: int) -> int
    decreases s.len() - i,
{
    if i < 0 || i >= s.len() {
        s.len() as int
    } else if lex_lt(name, s[i].0) {
        i
    } else {
        insert_at(s, name, i + 1)
    }
}

/// The consent recorded for `name`, if any.
pub open spec fn lookup(s: Seq<(Seq<char>, ConsentView)>, name: Seq<char>) -> Option<ConsentView> {
    match find_from(s, name, 0) {
        Some(i) => Some(s[i].1),
        None => None,
    }
}

/// The ledger with `name`'s record set to `v`: replaced in place when
/// present, else inserted at its place in name order.
pub open spec fn upsert(s: Seq<(Seq<char>, ConsentView)>, name: Seq<char>, v: ConsentView) -> Seq<
    (Seq<char>, ConsentView),
> {
    match find_from(s, name, 0) {
        Some(i) => s.update(i, (name, v)),
        None => s.insert(insert_at(s, name, 0), (name, v)),
    }
}

/// `name`'s record, or a fresh one stamped `now`.
pub open spec fn current(s: Seq<(Seq<char>, ConsentView)>, name: Seq<char>, now: i64) -> ConsentView {
    match lookup(s, name) {
        Some(c) => c,
        None => fresh(now),
    }
}

proof fn lemma_find(s: Seq<(Seq<char>, ConsentView)>, name: Seq<char>, i: int)
    requires
        0 <= i,
    ensures
        find_from(s, name, i) matches Some(k) ==> i <= k < s.len() && s[k].0 == name,
        find_from(s, name, i) is None ==> forall|k: int| i <= k < s.len() ==> s[k].0 != name,
    decreases s.len() - i,
{
    if i < s.len() && s[i].0 != name {
        lemma_find(s, name, i + 1);
    }
}

proof fn lemma_insert_at(s: Seq<(Seq<char>, ConsentView)>, name: Seq<char>, i: int)
    requires
        0 <= i <= s.len(),
        sorted_names(s),
    ensures
        i <= insert_at(s, name, i) <= s.len(),
        forall|k: int| i <= k < insert_at(s, name, i) ==> !lex_lt(name, s[k].0),
        forall|k: int| insert_at(s, name, i) <= k < s.len() ==> lex_lt(name, s[k].0),
    decreases s.len() - i,
{
    if i < s.len() && !lex_lt(name, s[i].0) {
        lemma_insert_at(s, name, i + 1);
    } else if i < s.len() {
        assert forall|k: int| i <= k < s.len() implies lex_lt(name, s[k].0) by {
            if k > i {
                lemma_lex_transitive(name, s[i].0, s[k].0);
            }
        }
    }
}

/// Setting a record keeps the ledger ordered by name, with the record
/// found under its name afterwards.
pub proof fn upsert_keeps_order(s: Seq<(Seq<char>, ConsentView)>, name: Seq<char>, v: ConsentView)
    requires
        sorted_names(s),
    ensures
        sorted_names(upsert(s, name, v)),
        lookup(upsert(s, name, v), name) == Some(v),
        forall|n: Seq<char>| n != name ==> lookup(upsert(s, name, v), n) == lookup(s, n),
{
    lemma_find(s, name, 0);
    let t = upsert(s, name, v);
    match find_from(s, name, 0) {
        Some(i) => {
            assert forall|a: int, b: int| 0 <= a < b < t.len() implies lex_lt(t[a].0, t[b].0) by {}
            lemma_find(t, name, 0);
            assert(find_from(t, name, 0) == Some(i)) by {
                lemma_find_first(t, name, i);
            }
            assert forall|n: Seq<char>| n != name implies lookup(t, n) == lookup(s, n) by {
                lemma_find(s, n, 0);
                lemma_find(t, n, 0);
                match find_from(s, n, 0) {
                    Some(k) => {
                        lemma_find_first(s, n, k);
                        lemma_find_first(t, n, k);
                    },
                    None => {},
                }
            }
        },
        None => {
            let p = insert_at(s, name, 0);
            lemma_insert_at(s, name, 0);
            assert forall|a: int, b: int| 0 <= a < b < t.len() implies lex_lt(t[a].0, t[b].0) by {
                if b < p {
                } else if b == p {
                    assert(!lex_lt(name, s[a].0));
                    assert(s[a].0 != name);
                    lemma_lex_total(s[a].0, name);
                } else if a < p {
                    assert(t[b] == s[b - 1]);
                    if a + 1 <= b - 1 && a < b - 1 {
                    }
                } else if a == p {
                    assert(t[b] == s[b - 1]);
                } else {
                    assert(t[a] == s[a - 1] && t[b] == s[b - 1]);
                }
            }
            assert(t[p].0 == name);
            assert(find_from(t, name, 0) == Some(p)) by {
                lemma_find_first(t, name, p);
            }
            assert forall|n: Seq<char>| n != name implies lookup(t, n) == lookup(s, n) by {
                lemma_find(s, n, 0);
                lemma_find(t, n, 0);
                match find_from(s, n, 0) {
                    Some(k) => {
                        lemma_find_first(s, n, k);
                        if k < p {
                            lemma_find_first(t, n, k);
                        } else {
                            assert(t[k + 1] == s[k]);
                            lemma_find_first(t, n, k + 1);
                        }
                    },
                    None => {
                        assert forall|k: int| 0 <= k < t.len() implies t[k].0 != n by {
                            if k < p {
                            } else if k > p {
                                assert(t[k] == s[k - 1]);
                            }
                        }
                        lemma_find_none(t, n, 0);
                    },
                }
            }
        },
    }
}

proof fn lemma_find_first(s: Seq<(Seq<char>, ConsentView)>, name: Seq<char>, k: int)
    requires
        sorted_names(s),
        0 <= k < s.len(),
        s[k].0 == name,
    ensures
        find_from(s, name, 0) == Some(k),
{
    assert forall|j: int| 0 <= j < k implies s[j].0 != name by {
        lemma_lex_irreflexive(name);
    }
    lemma_find_prefix(s, name, 0, k);
}

proof fn lemma_find_prefix(s: Seq<(Seq<char>, ConsentView)>, name: Seq<char>, i: int, k: int)
    requires
        0 <= i <= k < s.len(),
        s[k].0 == name,
        forall|j: int| i <= j < k ==> s[j].0 != name,
    ensures
        find_from(s, name, i) == Some(k),
    decreases k - i,
{
    if i < k {
        lemma_find_prefix(s, name, i + 1, k);
    }
}

proof fn lemma_find_none(s: Seq<(Seq<char>, ConsentView)>, name: Seq<char>, i: int)
    requires
        0 <= i,
        forall|j: int| i <= j < s.len() ==> s[j].0 != name,
    ensures
        find_from(s, name, i) is None,
    decreases s.len() - i,
{
    if i < s.len() {
        lemma_find_none(s, name, i + 1);
    }
}

impl ConnectorConsentLedger {
    /// The ledger as plain values.
    pub open spec fn entries(&self) -> Seq<(Seq<char>, ConsentView)> {
        self.connectors@.map_values(|e: (String, ConnectorConsent)| entry_view(e))
    }

    /// The ledger is ordered by name with no name twice.
    pub open spec fn wf(&self) -> bool {
        sorted_names(self.entries())
    }

    /// The index of `name`'s entry, creating a fresh one (stamped `now`)
    /// at its place in name order when it has none.
    fn entry_index(&mut self, name: &str, now: i64) -> (i: usize)
        requires
            old(self).wf(),
        ensures
            final(self).wf(),
            final(self).entries() == upsert(
                old(self).entries(),
                name@,
                current(old(self).entries(), name@, now),
            ),
            i < final(self).connectors@.len(),
            final(self).entries()[i as int].0 == name@,
            find_from(final(self).entries(), name@, 0) == Some(i as int),
    {
        let ghost s = self.entries();
        proof {
            lemma_find(s, name@, 0);
        }
        let mut k: usize = 0;
        while k < self.connectors.len()
            invariant
                s == self.entries(),
                sorted_names(s),
                k <= self.connectors@.len(),
                find_from(s, name@, 0) == find_from(s, name@, k as int),
                insert_at(s, name@, 0) == insert_at(s, name@, k as int) || exists|j: int|
                    0 <= j < k && lex_lt(name@, s[j].0),
            decreases self.connectors@.len() - k,
        {
            assert(s[k as int].0 == self.connectors@[k as int].0@);
            if str_eq(self.connectors[k].0.as_str(), name) {
                proof {
                    upsert_keeps_order(s, name@, s[k as int].1);
                    lemma_find_first(s, name@, k as int);
                    assert(s.update(k as int, (name@, s[k as int].1)) =~= s);
                }
                return k;
            }
            k += 1;
        }
        proof {
            lemma_find_none(s, name@, 0);
            lemma_insert_at(s, name@, 0);
        }
        let mut p: usize = 0;
        while p < self.connectors.len() && !str_lt(name, self.connectors[p].0.as_str())
            invariant
                s == self.entries(),
                sorted_names(s),
                p <= self.connectors@.len(),
                insert_at(s, name@, 0) == insert_at(s, name@, p as int),
            decreases self.connectors@.len() - p,
        {
            assert(s[p as int].0 == self.connectors@[p as int].0@);
            p += 1;
        }
        proof {
            if p < self.connectors@.len() {
                assert(s[p as int].0 == self.connectors@[p as int].0@);
            }
        }
        let c = fresh_consent(now);
        self.connectors.insert(p, (owned(name), c));
        proof {
            upsert_keeps_order(s, name@, fresh(now));
            assert(self.entries() =~= s.insert(p as int, (name@, fresh(now))));
            lemma_find_first(self.entries(), name@, p as int);
        }
        p
    }
}

/// The ledger a host starts with: every known connector, fresh.
pub open spec fn default_entries(now: i64) -> Seq<(Seq<char>, ConsentView)> {
    seq![("google"@, fresh(now)), ("notion"@, fresh(now)), ("slack"@, fresh(now))]
}

/// Every known connector, disabled and disconnected, stamped `now`.
pub fn default_ledger(now: i64) -> (l: ConnectorConsentLedger)
    ensures
        l.wf(),
        l.entries() == default_entries(now),
{
    let l = ConnectorConsentLedger {
        connectors: vec![
            (owned("google"), fresh_consent(now)),
            (owned("notion"), fresh_consent(now)),
            (owned("slack"), fresh_consent(now)),
        ],
    };
    proof {
        reveal_strlit("google");
        reveal_strlit("notion");
        reveal_strlit("slack");
        assert(lex_lt("google"@, "notion"@));
        assert(lex_lt("notion"@, "slack"@));
        lemma_lex_transitive("google"@, "notion"@, "slack"@);
        assert(l.entries() =~= default_entries(now));
    }
    l
}

/// Adds a fresh record (stamped `now`) for every known connector the
/// ledger lacks; existing records, and records of other names, are kept
/// as they are.
pub fn normalize_ledger(ledger: &mut ConnectorConsentLedger, now: i64)
    requires
        old(ledger).wf(),
    ensures
        final(ledger).wf(),
        forall|n: Seq<char>|
            known_connectors().contains(n) ==> #[trigger] lookup(final(ledger).entries(), n)
                == Some(current(old(ledger).entries(), n, now)),
        forall|n: Seq<char>|
            !known_connectors().contains(n) ==> #[trigger] lookup(final(ledger).entries(), n)
                == lookup(old(ledger).entries(), n),
{
    let ghost s0 = ledger.entries();
    ledger.entry_index("google", now);
    let ghost s1 = ledger.entries();
    proof {
        upsert_keeps_order(s0, "google"@, current(s0, "google"@, now));
    }
    ledger.entry_index("notion", now);
    let ghost s2 = ledger.entries();
    proof {
        upsert_keeps_order(s1, "notion"@, current(s1, "notion"@, now));
    }
    ledger.entry_index("slack", now);
    proof {
        upsert_keeps_order(s2, "slack"@, current(s2, "slack"@, now));
        reveal_strlit("google");
        reveal_strlit("notion");
        reveal_strlit("slack");
        assert("google"@[0] != "notion"@[0]);
        assert("google"@[0] != "slack"@[0]);
        assert("notion"@[0] != "slack"@[0]);
        assert forall|n: Seq<char>| known_connectors().contains(n) implies #[trigger] lookup(
            ledger.entries(),
            n,
        ) == Some(current(s0, n, now)) by {
            let i = choose|i: int| 0 <= i < 3 && known_connectors()[i] == n;
            assert(i == 0 || i == 1 || i == 2);
        }
        assert forall|n: Seq<char>| !known_connectors().contains(n) implies #[trigger] lookup(
            ledger.entries(),
            n,
        ) == lookup(s0, n) by {
            assert(known_connectors()[0] == "google"@);
            assert(known_connectors()[1] == "notion"@);
            assert(known_connectors()[2] == "slack"@);
        }
    }
}

/// The record after enabling or disabling: disabling also disconnects,
/// drops the token, the scopes and the account.
pub open spec fn with_enabled(c: ConsentView, enabled: bool, now: i64) -> ConsentView {
    if enabled {
        ConsentView { enabled: true, updated_at: now, ..c }
    } else {
        ConsentView {
            enabled: false,
            connected: false,
            has_token: false,
            scopes: Seq::empty(),
            account: None,
            updated_at: now,
        }
    }
}

/// The record after a disconnect: still enabled or not as before, but
/// disconnected, with no token, scopes or account.
pub open spec fn disconnected(c: ConsentView, now: i64) -> ConsentView {
    ConsentView {
        enabled: c.enabled,
        connected: false,
        has_token: false,
        scopes: Seq::empty(),
        account: None,
        updated_at: now,
    }
}

/// What a connect request carries.
#[derive(Debug, Clone)]
pub struct ConnectInput {
    pub account: Option<String>,
    pub scopes: Vec<String>,
    pub access_token: Option<String>,
    pub refresh_token: Option<String>,
    pub expires_at: Option<i64>,
}

/// An OAuth token held in the vault.
#[derive(Debug, Clone)]
pub struct ConnectorToken {
    pub access_token: String,
    pub refresh_token: Option<String>,
    pub expires_at: Option<i64>,
    pub updated_at: i64,
}

/// The distinct trimmed, non-empty scopes of a request.
pub open spec fn scope_set(scopes: Seq<String>) -> Set<Seq<char>> {
    Set::new(|t: Seq<char>| t.len() > 0 && exists|i: int| 0 <= i < scopes.len() && trim(#[trigger] scopes[i]@) == t)
}

/// Strictly ascending, so each scope once.
pub open spec fn ascending(s: Seq<Seq<char>>) -> bool {
    forall|i: int, j: int| 0 <= i < j < s.len() ==> lex_lt(s[i], s[j])
}

/// The scopes a connect request grants: trimmed, empty ones dropped,
/// each once, in ascending order.
pub fn normalize_scopes(scopes: &Vec<String>) -> (r: Vec<String>)
    ensures
        ascending(string_views(r@)),
        string_views(r@).to_set() == scope_set(scopes@),
{
    let mut out: Vec<String> = Vec::new();
    let mut i: usize = 0;
    assert(scope_set(scopes@.take(0)) =~= Set::<Seq<char>>::empty());
    assert(string_views(out@).to_set() =~= Set::<Seq<char>>::empty());
    while i < scopes.len()
        invariant
            i <= scopes@.len(),
            ascending(string_views(out@)),
            string_views(out@).to_set() == scope_set(scopes@.take(i as int)),
        decreases scopes@.len() - i,
    {
        let t = trim_chars(chars_of(scopes[i].as_str()).as_slice());
        let ghost prev = string_views(out@);
        if t.len() > 0 {
            let ts = string_of_range(t.as_slice(), 0, t.len());
            assert(t@.subrange(0, t@.len() as int) =~= t@);
            let mut p: usize = 0;
            let mut dup = false;
            while p < out.len() && !dup && !str_lt(ts.as_str(), out[p].as_str())
                invariant
                    p <= out@.len(),
                    prev == string_views(out@),
                    ascending(prev),
                    ts@ == t@,
                    dup ==> prev.contains(ts@),
                    !dup ==> forall|k: int| 0 <= k < p ==> lex_lt(#[trigger] prev[k], ts@),
                decreases out@.len() - p + if dup { 0int } else { 1int },
            {
                if str_eq(out[p].as_str(), ts.as_str()) {
                    dup = true;
                    assert(prev[p as int] == ts@);
                } else {
                    proof {
                        lemma_lex_total(prev[p as int], ts@);
                    }
                    p += 1;
                }
            }
            if !dup {
                proof {
                    assert forall|k: int| p <= k < prev.len() implies lex_lt(ts@, #[trigger] prev[k]) by {
                        if k > p {
                            lemma_lex_transitive(ts@, prev[p as int], prev[k]);
                        }
                    }
                }
                out.insert(p, ts);
                proof {
                    assert(string_views(out@) =~= prev.insert(p as int, t@));
                    assert forall|a: int, b: int| 0 <= a < b < string_views(out@).len() implies lex_lt(
                        string_views(out@)[a],
                        string_views(out@)[b],
                    ) by {
                        let v = string_views(out@);
                        if b < p {
                        } else if b == p {
                        } else if a < p {
                            assert(v[b] == prev[b - 1]);
                            lemma_lex_transitive(v[a], t@, v[b]);
                        } else if a == p {
                            assert(v[b] == prev[b - 1]);
                        } else {
                            assert(v[a] == prev[a - 1] && v[b] == prev[b - 1]);
                        }
                    }
                }
            }
            proof {
                let v = string_views(out@);
                assert(scopes@.take(i + 1)[i as int] == scopes@[i as int]);
                assert forall|x: Seq<char>| v.to_set().contains(x) <==> scope_set(scopes@.take(i + 1)).contains(x) by {
                    if v.to_set().contains(x) {
                        if x == t@ {
                            assert(trim(scopes@.take(i + 1)[i as int]@) == x);
                        } else {
                            assert(prev.contains(x)) by {
                                if !dup {
                                    let k = choose|k: int| 0 <= k < v.len() && v[k] == x;
                                    if k < p {
                                        assert(prev[k] == x);
                                    } else if k > p {
                                        assert(prev[k - 1] == x);
                                    }
                                }
                            }
                            assert(scope_set(scopes@.take(i as int)).contains(x));
                            let j = choose|j: int| 0 <= j < i && trim(#[trigger] scopes@.take(i as int)[j]@) == x;
                            assert(scopes@.take(i + 1)[j] == scopes@.take(i as int)[j]);
                        }
                    }
                    if scope_set(scopes@.take(i + 1)).contains(x) {
                        let j = choose|j: int| 0 <= j < i + 1 && trim(#[trigger] scopes@.take(i + 1)[j]@) == x;
                        if j == i {
                            if dup {
                                assert(prev.contains(x));
                                let k = choose|k: int| 0 <= k < prev.len() && prev[k] == x;
                                assert(v[k] == x);
                            } else {
                                assert(v[p as int] == x);
                            }
                        } else {
                            assert(scopes@.take(i as int)[j] == scopes@.take(i + 1)[j]);
                            assert(scope_set(scopes@.take(i as int)).contains(x));
                            assert(prev.to_set().contains(x));
                            let k = choose|k: int| 0 <= k < prev.len() && prev[k] == x;
                            if dup || k < p {
                                assert(v[k] == x);
                            } else {
                                assert(v[k + 1] == x);
                            }
                        }
                    }
                }
                assert(v.to_set() =~= scope_set(scopes@.take(i + 1)));
            }
        } else {
            proof {
                assert forall|x: Seq<char>| scope_set(scopes@.take(i + 1)).contains(x) <==> scope_set(scopes@.take(i as int)).contains(x) by {
                    if scope_set(scopes@.take(i + 1)).contains(x) {
                        let j = choose|j: int| 0 <= j < i + 1 && trim(#[trigger] scopes@.take(i + 1)[j]@) == x;
                        assert(j != i);
                        assert(scopes@.take(i as int)[j] == scopes@.take(i + 1)[j]);
                    }
                    if scope_set(scopes@.take(i as int)).contains(x) {
                        let j = choose|j: int| 0 <= j < i && trim(#[trigger] scopes@.take(i as int)[j]@) == x;
                        assert(scopes@.take(i as int)[j] == scopes@.take(i + 1)[j]);
                    }
                }
                assert(scope_set(scopes@.take(i + 1)) =~= scope_set(scopes@.take(i as int)));
            }
        }
        i += 1;
    }
    proof {
        assert(scopes@.take(i as int) =~= scopes@);
    }
    out
}

proof fn lemma_upsert_twice(s: Seq<(Seq<char>, ConsentView)>, n: Seq<char>, v1: ConsentView, v2: ConsentView)
    requires
        sorted_names(s),
    ensures
        find_from(upsert(s, n, v1), n, 0) matches Some(i) && upsert(upsert(s, n, v1), n, v2)
            == upsert(s, n, v1).update(i, (n, v2)) && upsert(s, n, v1).update(i, (n, v2)) == upsert(
            s,
            n,
            v2,
        ),
{
    upsert_keeps_order(s, n, v1);
    upsert_keeps_order(s, n, v2);
    let t = upsert(s, n, v1);
    lemma_find(t, n, 0);
    lemma_find(s, n, 0);
    let i = find_from(t, n, 0)->0;
    match find_from(s, n, 0) {
        Some(k) => {
            assert(t[k].0 == n);
            lemma_find_first(t, n, k);
            assert(t.update(i, (n, v2)) =~= s.update(k, (n, v2)));
        },
        None => {
            let p = insert_at(s, n, 0);
            lemma_insert_at(s, n, 0);
            lemma_find_first(t, n, p);
            assert(t.update(i, (n, v2)) =~= s.insert(p, (n, v2)));
        },
    }
}

/// Enables or disables a connector (creating its record if needed).
/// Disabling also disconnects it and drops its token, scopes and
/// account; the result says whether the vault's token must be removed,
/// which is when it was disabled.
pub fn set_enabled(ledger: &mut ConnectorConsentLedger, connector: &str, enabled: bool, now: i64) -> (remove_token: bool)
    requires
        old(ledger).wf(),
    ensures
        final(ledger).wf(),
        final(ledger).entries() == upsert(
            old(ledger).entries(),
            connector@,
            with_enabled(current(old(ledger).entries(), connector@, now), enabled, now),
        ),
        remove_token == !enabled,
{
    let ghost s = ledger.entries();
    let i = ledger.entry_index(connector, now);
    let ghost t = ledger.entries();
    proof {
        upsert_keeps_order(s, connector@, current(s, connector@, now));
        lemma_upsert_twice(s, connector@, current(s, connector@, now), with_enabled(current(s, connector@, now), enabled, now));
    }
    let (n, mut c) = ledger.connectors.remove(i);
    c.enabled = enabled;
    c.updated_at = now;
    if !enabled {
        c.connected = false;
        c.has_token = false;
        c.scopes = Vec::new();
        c.account = None;
    }
    ledger.connectors.insert(i, (n, c));
    proof {
        assert(string_views(Seq::<String>::empty()) =~= Seq::<Seq<char>>::empty());
        assert(ledger.entries() =~= t.update(i as int, (connector@, with_enabled(current(s, connector@, now), enabled, now))));
    }
    !enabled
}

/// Disconnects a connector (creating its record if needed): no longer
/// connected, no token, scopes or account; the vault's token is removed.
pub fn disconnect(ledger: &mut ConnectorConsentLedger, connector: &str, now: i64)
    requires
        old(ledger).wf(),
    ensures
        final(ledger).wf(),
        final(ledger).entries() == upsert(
            old(ledger).entries(),
            connector@,
            disconnected(current(old(ledger).entries(), connector@, now), now),
        ),
{
    let ghost s = ledger.entries();
    let i = ledger.entry_index(connector, now);
    let ghost t = ledger.entries();
    proof {
        upsert_keeps_order(s, connector@, current(s, connector@, now));
        lemma_upsert_twice(s, connector@, current(s, connector@, now), disconnected(current(s, connector@, now), now));
    }
    let (n, mut c) = ledger.connectors.remove(i);
    c.connected = false;
    c.has_token = false;
    c.scopes = Vec::new();
    c.account = None;
    c.updated_at = now;
    ledger.connectors.insert(i, (n, c));
    proof {
        assert(string_views(Seq::<String>::empty()) =~= Seq::<Seq<char>>::empty());
        assert(ledger.entries() =~= t.update(i as int, (connector@, disconnected(current(s, connector@, now), now))));
    }
}

/// The record after a connect: enabled and connected, stamped `now`; the
/// request's scopes (normalised) replace the old ones when it names any,
/// its account replaces the old one when given, and a token is held when
/// the request carries one or the vault already had one.
pub open spec fn connected_with(
    c: ConsentView,
    scopes: Option<Seq<Seq<char>>>,
    account: Option<Seq<char>>,
    has_token: bool,
    now: i64,
) -> ConsentView {
    ConsentView {
        enabled: true,
        connected: true,
        has_token,
        scopes: match scopes {
            Some(s) => s,
            None => c.scopes,
        },
        account: match account {
            Some(a) => Some(a),
            None => c.account,
        },
        updated_at: now,
    }
}

/// The scopes a connect request grants: none when it names none, else
/// its normalised scopes (ascending, each once).
pub open spec fn scopes_granted(requested: Seq<String>, granted: Option<Seq<Seq<char>>>) -> bool {
    &&& (requested.len() == 0 <==> granted is None)
    &&& (granted matches Some(s) ==> ascending(s) && s.to_set() == scope_set(requested))
}

/// Connects a connector (creating its record if needed). When the
/// request carries an access token, the token to store in the vault is
/// returned; otherwise `vault_has_token` says whether the vault already
/// holds one.
pub fn connect(
    ledger: &mut ConnectorConsentLedger,
    connector: &str,
    input: ConnectInput,
    now: i64,
    vault_has_token: bool,
) -> (token: Option<ConnectorToken>)
    requires
        old(ledger).wf(),
    ensures
        final(ledger).wf(),
        exists|scopes: Option<Seq<Seq<char>>>|
            {
                &&& #[trigger] scopes_granted(input.scopes@, scopes)
                &&& final(ledger).entries() == upsert(
                    old(ledger).entries(),
                    connector@,
                    connected_with(
                        current(old(ledger).entries(), connector@, now),
                        scopes,
                        match input.account {
                            Some(a) => Some(a@),
                            None => None,
                        },
                        input.access_token is Some || vault_has_token,
                        now,
                    ),
                )
            },
        match input.access_token {
            Some(a) => token matches Some(t) && t.access_token == a && t.refresh_token
                == input.refresh_token && t.expires_at == input.expires_at && t.updated_at == now,
            None => token is None,
        },
{
    let ghost s = ledger.entries();
    let i = ledger.entry_index(connector, now);
    let ghost t = ledger.entries();
    proof {
        upsert_keeps_order(s, connector@, current(s, connector@, now));
    }
    let (n, mut c) = ledger.connectors.remove(i);
    c.enabled = true;
    c.connected = true;
    c.updated_at = now;
    let ghost mut scopes: Option<Seq<Seq<char>>> = None;
    if input.scopes.len() > 0 {
        let normalized = normalize_scopes(&input.scopes);
        proof {
            scopes = Some(string_views(normalized@));
        }
        c.scopes = normalized;
    }
    let ghost account = match &input.account {
        Some(a) => Some(a@),
        None => None::<Seq<char>>,
    };
    if input.account.is_some() {
        c.account = input.account;
    }
    let token = match input.access_token {
        Some(access) => {
            c.has_token = true;
            Some(ConnectorToken {
                access_token: access,
                refresh_token: input.refresh_token,
                expires_at: input.expires_at,
                updated_at: now,
            })
        },
        None => {
            c.has_token = vault_has_token;
            None
        },
    };
    let ghost v = connected_with(current(s, connector@, now), scopes, account, token is Some || vault_has_token, now);
    ledger.connectors.insert(i, (n, c));
    proof {
        lemma_upsert_twice(s, connector@, current(s, connector@, now), v);
        assert(ledger.entries() =~= t.update(i as int, (connector@, v)));
        assert(scopes_granted(input.scopes@, scopes));
    }
    token
}

/// Records, for every connector in the ledger, whether the vault holds a
/// token for it.
pub fn apply_vault(ledger: &mut ConnectorConsentLedger, token_names: &Vec<String>)
    requires
        old(ledger).wf(),
    ensures
        final(ledger).wf(),
        final(ledger).entries().len() == old(ledger).entries().len(),
        forall|k: int|
            0 <= k < final(ledger).entries().len() ==> #[trigger] final(ledger).entries()[k] == (
                old(ledger).entries()[k].0,
                ConsentView {
                    has_token: string_views(token_names@).contains(old(ledger).entries()[k].0),
                    ..old(ledger).entries()[k].1
                },
            ),
{
    let ghost s = ledger.entries();
    let mut k: usize = 0;
    while k < ledger.connectors.len()
        invariant
            k <= ledger.connectors@.len(),
            ledger.entries().len() == s.len(),
            forall|j: int|
                0 <= j < ledger.entries().len() ==> #[trigger] ledger.entries()[j] == if j < k {
                    (
                        s[j].0,
                        ConsentView {
                            has_token: string_views(token_names@).contains(s[j].0),
                            ..s[j].1
                        },
                    )
                } else {
                    s[j]
                },
        decreases ledger.connectors@.len() - k,
    {
        let ghost before = ledger.entries();
        let ghost old_vec = ledger.connectors@;
        let (n, mut c) = ledger.connectors.remove(k);
        assert(n@ == before[k as int].0 && c@ == before[k as int].1);
        let mut found = false;
        let mut j: usize = 0;
        while j < token_names.len() && !found
            invariant
                j <= token_names@.len(),
                found ==> string_views(token_names@).contains(n@),
                !found ==> forall|q: int| 0 <= q < j ==> token_names@[q]@ != n@,
            decreases token_names@.len() - j,
        {
            if str_eq(token_names[j].as_str(), n.as_str()) {
                found = true;
                assert(string_views(token_names@)[j as int] == n@);
            }
            j += 1;
        }
        proof {
            if !found {
                assert forall|q: int| 0 <= q < string_views(token_names@).len() implies string_views(token_names@)[q] != n@ by {
                    assert(token_names@[q]@ != n@);
                }
            }
        }
        c.has_token = found;
        ledger.connectors.insert(k, (n, c));
        proof {
            assert(ledger.connectors@ =~= old_vec.update(k as int, ledger.connectors@[k as int]));
            assert(ledger.entries() =~= before.update(
                k as int,
                (before[k as int].0, ConsentView { has_token: found, ..before[k as int].1 }),
            ));
            assert(found == string_views(token_names@).contains(s[k as int].0));
        }
        k += 1;
    }
    proof {
        let e = ledger.entries();
        assert forall|a: int, b: int| 0 <= a < b < e.len() implies lex_lt(e[a].0, e[b].0) by {
            assert(e[a].0 == s[a].0 && e[b].0 == s[b].0);
        }
    }
}

/// Disabling a connector leaves it disconnected, with no token, scopes or
/// account; every other connector's record is unchanged.
pub proof fn disabling_revokes_everything(s: Seq<(Seq<char>, ConsentView)>, c: Seq<char>, now: i64)
    requires
        sorted_names(s),
    ensures
        lookup(upsert(s, c, with_enabled(current(s, c, now), false, now)), c) matches Some(v) && !v.enabled
            && !v.connected && !v.has_token && v.scopes.len() == 0 && v.account is None,
        forall|n: Seq<char>|
            n != c ==> lookup(upsert(s, c, with_enabled(current(s, c, now), false, now)), n) == lookup(
                s,
                n,
            ),
{
    upsert_keeps_order(s, c, with_enabled(current(s, c, now), false, now));
}

/// A disconnect never holds a token and never changes whether the
/// connector is enabled.
pub proof fn disconnect_keeps_consent(s: Seq<(Seq<char>, ConsentView)>, c: Seq<char>, now: i64)
    requires
        sorted_names(s),
    ensures
        lookup(upsert(s, c, disconnected(current(s, c, now), now)), c) matches Some(v) && !v.connected
            && !v.has_token && v.enabled == current(s, c, now).enabled,
{
    upsert_keeps_order(s, c, disconnected(current(s, c, now), now));
}

} // verus!
