//! Public-mode payment policy: the block-list of payer countries, with
//! the sanctions defaults merged in before a policy is saved.

use vstd::prelude::*;
use crate::paths::{config_file, config_file_of, EnvVars, HomeError};
use crate::text::{lemma_lex_irreflexive, lemma_lex_total, lemma_lex_transitive, lex_lt, owned,
    str_eq, str_lt, string_views};

verus! {

/// The policy file, under the configuration directory.
pub const POLICY_FILE: &'static str = "public-mode-policy.json";

/// Texts in strictly ascending order (so none occurs twice).
pub open spec fn ascending(s: Seq<Seq<char>>) -> bool {
    forall|i: int, j: int| 0 <= i < j < s.len() ==> lex_lt(s[i], s[j])
}

/// A set of country codes, kept in ascending order.
#[derive(Debug)]
pub struct CountrySet {
    codes: Vec<String>,
}

impl View for CountrySet {
    type V = Seq<Seq<char>>;

    closed spec fn view(&self) -> Seq<Seq<char>> {
        string_views(self.codes@)
    }
}

impl CountrySet {
    #[verifier::type_invariant]
    spec fn ordered(self) -> bool {
        ascending(string_views(self.codes@))
    }

    /// The empty set.
    pub fn new() -> (s: Self)
        ensures
            s@ == Seq::<Seq<char>>::empty(),
    {
        let s = CountrySet { codes: Vec::new() };
        assert(s@ =~= Seq::<Seq<char>>::empty());
        s
    }

    /// Whether the code is in the set.
    pub fn contains(&self, code: &str) -> (r: bool)
        ensures
            r == self@.contains(code@),
    {
        let mut i: usize = 0;
        while i < self.codes.len()
            invariant
                i <= self.codes@.len(),
                forall|k: int| 0 <= k < i ==> self@[k] != code@,
            decreases self.codes@.len() - i,
        {
            if str_eq(self.codes[i].as_str(), code) {
                assert(self@[i as int] == code@);
                return true;
            }
            i += 1;
        }
        false
    }

    /// How many codes the set holds.
    pub fn len(&self) -> (n: usize)
        ensures
            n == self@.len(),
    {
        self.codes.len()
    }

    /// The codes in ascending order.
    pub fn codes(&self) -> (v: Vec<String>)
        ensures
            string_views(v@) == self@,
    {
        let mut v: Vec<String> = Vec::new();
        let mut i: usize = 0;
        while i < self.codes.len()
            invariant
                i <= self.codes@.len(),
                string_views(v@) == self@.take(i as int),
            decreases self.codes@.len() - i,
        {
            let ghost prev = v@;
            v.push(owned(self.codes[i].as_str()));
            assert(string_views(v@) =~= string_views(prev).push(self.codes@[i as int]@));
            assert(string_views(v@) =~= self@.take(i + 1));
            i += 1;
        }
        assert(self@.take(i as int) =~= self@);
        v
    }

    /// Adds a code; returns whether it was new. The codes stay ascending.
    pub fn insert(&mut self, code: &str) -> (added: bool)
        ensures
            added == !old(self)@.contains(code@),
            final(self)@.to_set() == old(self)@.to_set().insert(code@),
            final(self)@.len() == old(self)@.len() + if added {
                1int
            } else {
                0int
            },
    {
        proof {
            use_type_invariant(&*self);
        }
        let ghost before = self@;
        let mut i: usize = 0;
        while i < self.codes.len() && str_lt(self.codes[i].as_str(), code)
            invariant
                i <= self.codes@.len(),
                self@ == before,
                ascending(before),
                forall|k: int| 0 <= k < i ==> lex_lt(before[k], code@),
            decreases self.codes@.len() - i,
        {
            i += 1;
        }
        proof {
            assert forall|k: int| 0 <= k < i implies before[k] != code@ by {
                lemma_lex_irreflexive(code@);
            }
        }
        if i < self.codes.len() && str_eq(self.codes[i].as_str(), code) {
            assert(before[i as int] == code@);
            assert(before.to_set().insert(code@) =~= before.to_set());
            return false;
        }
        proof {
            if i < before.len() {
                lemma_lex_total(code@, before[i as int]);
                assert(lex_lt(code@, before[i as int]));
                assert forall|k: int| i <= k < before.len() implies before[k] != code@ by {
                    if k > i {
                        lemma_lex_transitive(code@, before[i as int], before[k]);
                        lemma_lex_irreflexive(code@);
                    }
                }
            }
            assert(!before.contains(code@));
        }
        let ghost after = before.insert(i as int, code@);
        proof {
            assert forall|a: int, b: int| 0 <= a < b < after.len() implies lex_lt(after[a], after[b]) by {
                if b < i {
                } else if a < i && b == i {
                } else if a < i {
                    if i < before.len() {
                        lemma_lex_total(code@, before[i as int]);
                        lemma_lex_transitive(after[a], code@, before[i as int]);
                        if b - 1 > i {
                            lemma_lex_transitive(after[a], before[i as int], before[b - 1]);
                        }
                    }
                } else if a == i {
                    lemma_lex_total(code@, before[i as int]);
                    if b - 1 > i {
                        lemma_lex_transitive(code@, before[i as int], before[b - 1]);
                    }
                }
            }
            assert forall|x: Seq<char>| #[trigger] after.contains(x) <==> before.contains(x) || x == code@ by {
                if after.contains(x) {
                    let k = choose|k: int| 0 <= k < after.len() && after[k] == x;
                    if k < i {
                        assert(before[k] == x);
                    } else if k > i {
                        assert(before[k - 1] == x);
                    }
                }
                if before.contains(x) {
                    let k = choose|k: int| 0 <= k < before.len() && before[k] == x;
                    if k < i {
                        assert(after[k] == x);
                    } else {
                        assert(after[k + 1] == x);
                    }
                }
                if x == code@ {
                    assert(after[i as int] == x);
                }
            }
            assert(after.to_set() =~= before.to_set().insert(code@));
        }
        let mut codes: Vec<String> = Vec::new();
        std::mem::swap(&mut codes, &mut self.codes);
        let ghost held = codes@;
        assert(string_views(held) == before);
        codes.insert(i, owned(code));
        assert(string_views(codes@) =~= after);
        self.codes = codes;
        true
    }

    /// The set of the given codes.
    pub fn from_codes(codes: &Vec<String>) -> (s: Self)
        ensures
            s@.to_set() == string_views(codes@).to_set(),
    {
        let mut s = CountrySet::new();
        let mut i: usize = 0;
        while i < codes.len()
            invariant
                i <= codes@.len(),
                s@.to_set() == string_views(codes@).take(i as int).to_set(),
            decreases codes@.len() - i,
        {
            s.insert(codes[i].as_str());
            assert(string_views(codes@).take(i + 1) =~= string_views(codes@).take(i as int).push(
                codes@[i as int]@,
            ));
            proof {
                string_views(codes@).take(i as int).lemma_push_to_set_commute(codes@[i as int]@);
            }
            i += 1;
        }
        assert(string_views(codes@).take(i as int) =~= string_views(codes@));
        s
    }
}

/// The part of a peer's payment policy that this daemon edits: the
/// countries it refuses payers from.
#[derive(Debug)]
pub struct PeerPaymentPolicy {
    pub blocked_countries: CountrySet,
}

impl PeerPaymentPolicy {
    /// The policy of a peer that has not opted in: nothing blocked yet.
    pub fn closed() -> (p: Self)
        ensures
            p.blocked_countries@.len() == 0,
    {
        PeerPaymentPolicy { blocked_countries: CountrySet::new() }
    }
}

/// The jurisdictions under comprehensive sanctions, always blocked.
pub open spec fn sanctions_codes() -> Set<Seq<char>> {
    set!["KP"@, "IR"@, "SY"@, "CU"@]
}

/// The sanctions block-list as a country set.
pub fn sanctions_defaults() -> (s: CountrySet)
    ensures
        s@.to_set() == sanctions_codes(),
{
    let mut s = CountrySet::new();
    s.insert("KP");
    s.insert("IR");
    s.insert("SY");
    s.insert("CU");
    assert(Seq::<Seq<char>>::empty().to_set() =~= Set::<Seq<char>>::empty());
    assert(s@.to_set() =~= sanctions_codes());
    s
}

/// A block-list with the sanctions defaults merged in.
pub open spec fn enforced(blocked: Set<Seq<char>>) -> Set<Seq<char>> {
    blocked.union(sanctions_codes())
}

/// Merging the defaults adds something: one of them was missing.
pub open spec fn enforce_adds(blocked: Set<Seq<char>>) -> bool {
    !sanctions_codes().subset_of(blocked)
}

/// Merges the sanctions defaults into the policy's block-list, keeping
/// the caller's own entries; returns whether any code was added.
pub fn enforce_sanctions_defaults(policy: &mut PeerPaymentPolicy) -> (added: bool)
    ensures
        final(policy).blocked_countries@.to_set() == enforced(old(policy).blocked_countries@.to_set()),
        added == enforce_adds(old(policy).blocked_countries@.to_set()),
{
    let ghost start = policy.blocked_countries@.to_set();
    let defaults = sanctions_defaults().codes();
    proof {
        assert(string_views(defaults@).to_set() == sanctions_codes());
    }
    let mut i: usize = 0;
    let mut grew = false;
    while i < defaults.len()
        invariant
            i <= defaults@.len(),
            string_views(defaults@).to_set() == sanctions_codes(),
            policy.blocked_countries@.to_set() == start.union(string_views(defaults@).take(i as int).to_set()),
            grew == !string_views(defaults@).take(i as int).to_set().subset_of(start),
        decreases defaults@.len() - i,
    {
        let ghost prior = policy.blocked_countries@.to_set();
        let added = policy.blocked_countries.insert(defaults[i].as_str());
        let ghost d = string_views(defaults@)[i as int];
        assert(string_views(defaults@).take(i + 1) =~= string_views(defaults@).take(i as int).push(d));
        proof {
            string_views(defaults@).take(i as int).lemma_push_to_set_commute(d);
        }
        if added {
            grew = true;
            assert(!prior.contains(d));
            assert(!start.contains(d));
        } else {
            assert(prior.contains(d));
        }
        i += 1;
    }
    assert(string_views(defaults@).take(i as int) =~= string_views(defaults@));
    grew
}

/// Merging the defaults keeps every code the caller blocked and blocks
/// every sanctioned jurisdiction.
pub proof fn enforcing_keeps_additions_and_defaults(blocked: Set<Seq<char>>)
    ensures
        blocked.subset_of(enforced(blocked)),
        sanctions_codes().subset_of(enforced(blocked)),
{
}

/// Merging the defaults twice is merging them once: the second pass
/// adds nothing and leaves the block-list as it was.
pub proof fn enforcing_is_idempotent(blocked: Set<Seq<char>>)
    ensures
        enforced(enforced(blocked)) == enforced(blocked),
        !enforce_adds(enforced(blocked)),
{
    assert(enforced(enforced(blocked)) =~= enforced(blocked));
}

/// The path of the policy file.
pub fn policy_path(env: &EnvVars) -> (r: Result<String, HomeError>)
    ensures
        match config_file_of(*env, POLICY_FILE@) {
            Some(p) => r matches Ok(s) && s@ == p,
            None => r == Err::<String, HomeError>(HomeError::NoHome),
        },
{
    config_file(env, POLICY_FILE)
}

} // verus!
