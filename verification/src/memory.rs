//! Private local memory: short summaries of the user's past chats, kept
//! on the user's machine and matched against new messages.
//!
//! The store holds at most [`MEMORY_CAP`] entries; adding beyond that
//! evicts the oldest first. A chat has at most one rolling summary
//! (updated in place). Retrieval here is keyword overlap: entries are
//! ranked by how many distinct lower-case word tokens (longer than two
//! bytes) they share with the query, ties broken by recency; a query
//! without tokens gets the most recent entries. Memory is opt-in: only
//! an enable flag reading `enabled` turns it on.
//!
//! Embedding vectors and cosine ranking use floating point and stay with
//! the runtime; entries here carry the text, time and chat they came
//! from.

use vstd::prelude::*;
use crate::text::{chars_of, hex_digit, owned, push_char, str_eq, string_of_range,
    to_lowercase, trim, unicode_lower, utf8_len, utf8_len_exceeds};

verus! {

/// The most entries the store keeps.
pub const MEMORY_CAP: usize = 50;

/// File name of the store under the configuration directory.
pub const MEMORIES_FILE: &'static str = "memories.json";

/// File name of the enable flag under the configuration directory.
pub const MEMORY_ENABLED_FILE: &'static str = "memory-enabled.txt";

/// One remembered summary.
#[derive(Debug, Clone)]
pub struct MemoryEntry {
    pub id: String,
    pub summary: String,
    /// Unix seconds.
    pub created_at: i64,
    /// The chat it summarises, when it came from one.
    pub chat_id: Option<String>,
}

/// The stored memories, oldest first.
#[derive(Debug, Clone)]
pub struct MemoryStore {
    pub entries: Vec<MemoryEntry>,
}

/// An entry as plain values: id, summary, time, chat.
pub open spec fn entry_view(e: MemoryEntry) -> (Seq<char>, Seq<char>, i64, Option<Seq<char>>) {
    (
        e.id@,
        e.summary@,
        e.created_at,
        match e.chat_id {
            Some(c) => Some(c@),
            None => None,
        },
    )
}

/// The entries as plain values.
pub open spec fn entries_view(s: Seq<MemoryEntry>) -> Seq<(Seq<char>, Seq<char>, i64, Option<Seq<char>>)> {
    s.map_values(|e: MemoryEntry| entry_view(e))
}

/// The newest `MEMORY_CAP` entries of a list, in order.
pub open spec fn capped(s: Seq<(Seq<char>, Seq<char>, i64, Option<Seq<char>>)>) -> Seq<(Seq<char>, Seq<char>, i64, Option<Seq<char>>)> {
    if s.len() > MEMORY_CAP {
        s.skip(s.len() - MEMORY_CAP)
    } else {
        s
    }
}

/// The index of the first entry for `chat`, scanning from `i`.
pub open spec fn chat_index_from(s: Seq<(Seq<char>, Seq<char>, i64, Option<Seq<char>>)>, chat: Seq<char>, i: int) -> Option<int>
    decreases s.len() - i,
{
    if i < 0 || i >= s.len() {
        None
    } else if s[i].3 == Some(chat) {
        Some(i)
    } else {
        chat_index_from(s, chat, i + 1)
    }
}

/// The enable flag's text for a choice.
pub fn enabled_body(enabled: bool) -> (s: &'static str)
    ensures
        s@ == if enabled {
            "enabled"@
        } else {
            "disabled"@
        },
{
    if enabled {
        "enabled"
    } else {
        "disabled"
    }
}

/// Reads the enable flag's text: on only when, trimmed, it says exactly
/// `enabled` (a missing or unreadable flag is off).
pub fn enabled_from_text(text: &str) -> (r: bool)
    ensures
        r == (trim(text@) == "enabled"@),
{
    crate::tunnel::autostart_enabled(text)
}

/// The hexadecimal digits of a natural number, lower case, no leading
/// zeros.
pub open spec fn hex_nat(n: nat) -> Seq<char>
    decreases n,
{
    if n < 16 {
        seq![hex_digit(n)]
    } else {
        hex_nat(n / 16).push(hex_digit(n % 16))
    }
}

/// A memory id from a timestamp in nanoseconds: `mem_<hex>`.
pub fn memory_id(nanos: u128) -> (s: String)
    ensures
        s@ == "mem_"@ + hex_nat(nanos as nat),
{
    let mut digits: Vec<char> = Vec::new();
    let mut n = nanos;
    loop
        invariant_except_break
            hex_nat(nanos as nat) == hex_nat(n as nat) + digits@,
        ensures
            hex_nat(nanos as nat) == digits@,
        decreases n,
    {
        let d = (n % 16) as u8;
        let c = crate::text::hex_char(d);
        let ghost old_digits = digits@;
        digits.insert(0, c);
        proof {
            if n >= 16 {
                assert(hex_nat(n as nat) == hex_nat((n / 16) as nat).push(hex_digit((n % 16) as nat)));
                assert(hex_nat((n / 16) as nat) + digits@ =~= hex_nat((n / 16) as nat).push(
                    hex_digit((n % 16) as nat),
                ) + old_digits);
            } else {
                assert(digits@ =~= hex_nat(n as nat) + old_digits);
            }
        }
        if n < 16 {
            assert(hex_nat(nanos as nat) =~= digits@) by {
                assert(hex_nat(nanos as nat) == hex_nat(n as nat) + old_digits);
            }
            break;
        }
        n = n / 16;
    }
    let mut s = owned("mem_");
    let mut i: usize = 0;
    while i < digits.len()
        invariant
            i <= digits@.len(),
            s@ == "mem_"@ + digits@.take(i as int),
        decreases digits@.len() - i,
    {
        push_char(&mut s, digits[i]);
        assert(digits@.take(i + 1) =~= digits@.take(i as int).push(digits@[i as int]));
        i += 1;
    }
    assert(digits@.take(i as int) =~= digits@);
    s
}

impl MemoryStore {
    /// An empty store.
    pub fn new() -> (s: Self)
        ensures
            s.entries@.len() == 0,
    {
        MemoryStore { entries: Vec::new() }
    }

    /// Appends an entry, then evicts the oldest entries beyond the cap.
    pub fn push_capped(&mut self, entry: MemoryEntry)
        ensures
            entries_view(final(self).entries@) == capped(entries_view(old(self).entries@.push(entry))),
    {
        self.entries.push(entry);
        let n = self.entries.len();
        if n > MEMORY_CAP {
            let ghost before = self.entries@;
            let tail = self.entries.split_off(n - MEMORY_CAP);
            self.entries = tail;
            assert(entries_view(self.entries@) =~= entries_view(before).skip(n - MEMORY_CAP));
        }
    }

    /// Records `summary` for a chat: the chat's existing entry (the first
    /// one for it) gets the new summary and time in place; otherwise a new
    /// entry with the given id is appended under the cap. Returns the
    /// index of the entry written.
    pub fn upsert_for_chat(&mut self, chat_id: &str, summary: String, now: i64, new_id: String) -> (i: usize)
        ensures
            match chat_index_from(entries_view(old(self).entries@), chat_id@, 0) {
                Some(k) => {
                    &&& i == k
                    &&& entries_view(final(self).entries@) == entries_view(old(self).entries@).update(
                        k,
                        (entries_view(old(self).entries@)[k].0, summary@, now, Some(chat_id@)),
                    )
                },
                None => {
                    &&& entries_view(final(self).entries@) == capped(
                        entries_view(old(self).entries@).push((new_id@, summary@, now, Some(chat_id@))),
                    )
                    &&& i + 1 == final(self).entries@.len()
                },
            },
    {
        let ghost s = entries_view(self.entries@);
        let mut k: usize = 0;
        while k < self.entries.len()
            invariant
                s == entries_view(self.entries@),
                s == entries_view(old(self).entries@),
                self.entries@ == old(self).entries@,
                k <= self.entries@.len(),
                chat_index_from(s, chat_id@, 0) == chat_index_from(s, chat_id@, k as int),
            decreases self.entries@.len() - k,
        {
            let same = match &self.entries[k].chat_id {
                Some(c) => str_eq(c.as_str(), chat_id),
                None => false,
            };
            if same {
                assert(s[k as int].3 == Some(chat_id@));
                let mut e = self.entries.remove(k);
                e.summary = summary;
                e.created_at = now;
                self.entries.insert(k, e);
                assert(entries_view(self.entries@) =~= s.update(k as int, (s[k as int].0, summary@, now, Some(chat_id@))));
                assert(chat_index_from(s, chat_id@, k as int) == Some(k as int));
                return k;
            }
            k += 1;
        }
        let entry = MemoryEntry {
            id: new_id,
            summary,
            created_at: now,
            chat_id: Some(owned(chat_id)),
        };
        self.push_capped(entry);
        proof {
            assert(entries_view(self.entries@).len() >= 1);
        }
        self.entries.len() - 1
    }

    /// Removes every entry with the id; whether any was there.
    pub fn remove(&mut self, id: &str) -> (removed: bool)
        ensures
            entries_view(final(self).entries@) == entries_view(old(self).entries@).filter(
                |e: (Seq<char>, Seq<char>, i64, Option<Seq<char>>)| e.0 != id@,
            ),
            removed == (final(self).entries@.len() < old(self).entries@.len()),
    {
        let ghost s = entries_view(self.entries@);
        let mut rest = Vec::new();
        std::mem::swap(&mut rest, &mut self.entries);
        let ghost orig = rest@;
        let total: usize = rest.len();
        let before = rest.len();
        let mut n: usize = 0;
        while rest.len() > 0
            invariant
                n + rest@.len() == orig.len(),
                orig.len() == total,
                rest@ == orig.subrange(n as int, orig.len() as int),
                s == entries_view(orig),
                entries_view(self.entries@) == s.take(n as int).filter(
                    |e: (Seq<char>, Seq<char>, i64, Option<Seq<char>>)| e.0 != id@,
                ),
            decreases rest@.len(),
        {
            let e = rest.remove(0);
            assert(s.take(n + 1).drop_last() =~= s.take(n as int));
            assert(s.take(n + 1).last() == entry_view(e));
            let keep = !str_eq(e.id.as_str(), id);
            let ghost prev = entries_view(self.entries@);
            if keep {
                self.entries.push(e);
                assert(entries_view(self.entries@) =~= prev.push(s[n as int]));
            }
            proof {
                let f = |e: (Seq<char>, Seq<char>, i64, Option<Seq<char>>)| e.0 != id@;
                assert(s.take(n + 1).filter(f) == if f(s[n as int]) {
                    s.take(n as int).filter(f).push(s[n as int])
                } else {
                    s.take(n as int).filter(f)
                }) by {
                    reveal(Seq::filter);
                    assert(s.take(n + 1).last() == s[n as int]);
                }
            }
            n += 1;
            assert(rest@ =~= orig.subrange(n as int, orig.len() as int));
        }
        assert(s.take(n as int) =~= s);
        self.entries.len() < before
    }

    /// Drops every entry.
    pub fn clear(&mut self)
        ensures
            final(self).entries@.len() == 0,
    {
        self.entries = Vec::new();
    }
}

/// The store never holds more than the cap after an append.
pub proof fn append_respects_cap(s: Seq<(Seq<char>, Seq<char>, i64, Option<Seq<char>>)>, e: (Seq<char>, Seq<char>, i64, Option<Seq<char>>))
    ensures
        capped(s.push(e)).len() <= MEMORY_CAP || capped(s.push(e)).len() == s.len() + 1,
        capped(s.push(e)).len() > 0 && capped(s.push(e)).last() == e,
        s.len() < MEMORY_CAP ==> capped(s.push(e)) == s.push(e),
{
}

// ---------------------------------------------------------------------
// Keyword retrieval
// ---------------------------------------------------------------------

/// Whether `char::is_alphanumeric` holds of a character (Unicode
/// alphabetic or numeric).
pub uninterp spec fn is_alnum(c: char) -> bool;

/// `char::is_alphanumeric`, named by `is_alnum`.
#[verifier::external_body]
pub(crate) fn char_is_alphanumeric(c: char) -> (r: bool)
    ensures
        r == is_alnum(c),
{
    c.is_alphanumeric()
}

/// The pieces of `s` between non-alphanumeric characters, empty pieces
/// included (`str::split` with `!char::is_alphanumeric`).
pub open spec fn word_pieces(s: Seq<char>) -> Seq<Seq<char>>
    decreases s.len(),
{
    if s.len() == 0 {
        seq![Seq::empty()]
    } else {
        let p = word_pieces(s.drop_last());
        if !is_alnum(s.last()) {
            p.push(Seq::empty())
        } else {
            p.update(p.len() - 1, p.last().push(s.last()))
        }
    }
}

proof fn lemma_word_pieces_nonempty(s: Seq<char>)
    ensures
        word_pieces(s).len() >= 1,
    decreases s.len(),
{
    if s.len() > 0 {
        lemma_word_pieces_nonempty(s.drop_last());
    }
}

/// The pieces longer than two bytes.
pub open spec fn long_words(p: Seq<Seq<char>>) -> Seq<Seq<char>>
    decreases p.len(),
{
    if p.len() == 0 {
        Seq::empty()
    } else if utf8_len(p.last()) > 2 {
        long_words(p.drop_last()).push(p.last())
    } else {
        long_words(p.drop_last())
    }
}

/// Each element once, at its first occurrence.
pub open spec fn dedup(s: Seq<Seq<char>>) -> Seq<Seq<char>>
    decreases s.len(),
{
    if s.len() == 0 {
        Seq::empty()
    } else if dedup(s.drop_last()).contains(s.last()) {
        dedup(s.drop_last())
    } else {
        dedup(s.drop_last()).push(s.last())
    }
}

/// The word tokens of a text: lower-cased, split at every character that
/// is not alphanumeric, pieces of at most two bytes dropped, each token
/// once.
pub open spec fn tokens_of(s: Seq<char>) -> Seq<Seq<char>> {
    dedup(long_words(word_pieces(unicode_lower(s))))
}

/// A text's distinct word tokens.
#[derive(Debug, Clone)]
pub struct TokenSet {
    pub tokens: Vec<String>,
}

impl TokenSet {
    /// Whether the text had this token.
    pub fn contains(&self, token: &str) -> (r: bool)
        ensures
            r == crate::text::string_views(self.tokens@).contains(token@),
    {
        let mut i: usize = 0;
        while i < self.tokens.len()
            invariant
                i <= self.tokens@.len(),
                forall|k: int| 0 <= k < i ==> self.tokens@[k]@ != token@,
            decreases self.tokens@.len() - i,
        {
            if str_eq(self.tokens[i].as_str(), token) {
                assert(crate::text::string_views(self.tokens@)[i as int] == token@);
                return true;
            }
            i += 1;
        }
        assert forall|k: int| 0 <= k < crate::text::string_views(self.tokens@).len() implies crate::text::string_views(self.tokens@)[k] != token@ by {
            assert(self.tokens@[k]@ != token@);
        }
        false
    }

    /// Whether the text had no token.
    pub fn is_empty(&self) -> (r: bool)
        ensures
            r == (self.tokens@.len() == 0),
    {
        self.tokens.len() == 0
    }
}

/// Lower-cases a text and splits it into its distinct word tokens
/// (longer than two bytes).
pub fn tokenize(s: &str) -> (t: TokenSet)
    ensures
        crate::text::string_views(t.tokens@) == tokens_of(s@),
{
    let lower = chars_of(to_lowercase(s).as_str());
    let ghost lv = lower@;
    let mut tokens: Vec<String> = Vec::new();
    let mut cur: Vec<char> = Vec::new();
    let mut i: usize = 0;
    proof {
        lemma_word_pieces_nonempty(lv);
    }
    while i < lower.len()
        invariant
            lv == lower@,
            i <= lv.len(),
            word_pieces(lv.take(i as int)).len() >= 1,
            word_pieces(lv.take(i as int)).last() == cur@,
            crate::text::string_views(tokens@) == dedup(long_words(word_pieces(lv.take(i as int)).drop_last())),
        decreases lv.len() - i,
    {
        let c = lower[i];
        assert(lv.take(i + 1).drop_last() =~= lv.take(i as int));
        let ghost p = word_pieces(lv.take(i as int));
        proof {
            lemma_word_pieces_nonempty(lv.take(i as int));
        }
        if !char_is_alphanumeric(c) {
            let word = string_of_range(cur.as_slice(), 0, cur.len());
            assert(cur@.subrange(0, cur@.len() as int) =~= cur@);
            let long = utf8_len_exceeds(cur.as_slice(), 2);
            let ghost before = crate::text::string_views(tokens@);
            assert(word_pieces(lv.take(i + 1)) == p.push(Seq::empty()));
            assert(p.push(Seq::<char>::empty()).drop_last() =~= p);
            assert(p.drop_last().push(p.last()) =~= p);
            assert(long_words(p) == if long {
                long_words(p.drop_last()).push(cur@)
            } else {
                long_words(p.drop_last())
            });
            let ghost lw0 = long_words(p.drop_last());
            assert(lw0.push(cur@).drop_last() =~= lw0);
            assert(lw0.push(cur@).last() == cur@);
            assert(before == dedup(lw0));
            if long {
                let mut dup = false;
                let mut j: usize = 0;
                while j < tokens.len() && !dup
                    invariant
                        j <= tokens@.len(),
                        dup ==> crate::text::string_views(tokens@).contains(word@),
                        !dup ==> forall|q: int| 0 <= q < j ==> tokens@[q]@ != word@,
                    decreases tokens@.len() - j,
                {
                    if str_eq(tokens[j].as_str(), word.as_str()) {
                        dup = true;
                        assert(crate::text::string_views(tokens@)[j as int] == word@);
                    }
                    j += 1;
                }
                proof {
                    if !dup {
                        assert forall|q: int| 0 <= q < before.len() implies before[q] != word@ by {
                            assert(tokens@[q]@ != word@);
                        }
                        assert(!before.contains(word@));
                    }
                }
                if !dup {
                    tokens.push(word);
                    assert(crate::text::string_views(tokens@) =~= before.push(cur@));
                }
            }
            cur = Vec::new();
        } else {
            cur.push(c);
            assert(word_pieces(lv.take(i + 1)) == p.update(p.len() - 1, p.last().push(c)));
            assert(p.update(p.len() - 1, p.last().push(c)).drop_last() =~= p.drop_last());
        }
        i += 1;
    }
    assert(lv.take(lv.len() as int) =~= lv);
    let ghost p = word_pieces(lv);
    let word = string_of_range(cur.as_slice(), 0, cur.len());
    assert(cur@.subrange(0, cur@.len() as int) =~= cur@);
    assert(p.drop_last().push(p.last()) =~= p);
    assert(lower@ == unicode_lower(s@));
    let long = utf8_len_exceeds(cur.as_slice(), 2);
    assert(long_words(p) == if long {
        long_words(p.drop_last()).push(cur@)
    } else {
        long_words(p.drop_last())
    });
    let ghost lw0 = long_words(p.drop_last());
    assert(lw0.push(cur@).drop_last() =~= lw0);
    assert(lw0.push(cur@).last() == cur@);
    if long {
        let ghost before = crate::text::string_views(tokens@);
        let mut dup = false;
        let mut j: usize = 0;
        while j < tokens.len() && !dup
            invariant
                j <= tokens@.len(),
                dup ==> crate::text::string_views(tokens@).contains(word@),
                !dup ==> forall|q: int| 0 <= q < j ==> tokens@[q]@ != word@,
            decreases tokens@.len() - j,
        {
            if str_eq(tokens[j].as_str(), word.as_str()) {
                dup = true;
                assert(crate::text::string_views(tokens@)[j as int] == word@);
            }
            j += 1;
        }
        proof {
            if !dup {
                assert forall|q: int| 0 <= q < before.len() implies before[q] != word@ by {
                    assert(tokens@[q]@ != word@);
                }
            }
        }
        if !dup {
            tokens.push(word);
            assert(crate::text::string_views(tokens@) =~= before.push(cur@));
        }
    }
    TokenSet { tokens }
}

/// How many of `a`'s tokens occur in `q`.
pub open spec fn overlap(a: Seq<Seq<char>>, q: Seq<Seq<char>>) -> nat
    decreases a.len(),
{
    if a.len() == 0 {
        0
    } else {
        overlap(a.drop_last(), q) + if q.contains(a.last()) {
            1nat
        } else {
            0nat
        }
    }
}

/// A ranking key: score, time, index into the store.
pub type Ranked = (nat, i64, int);

/// `x` ranks strictly before `y`: a higher score, or the same score and
/// newer.
pub open spec fn ranks_before(x: Ranked, y: Ranked) -> bool {
    x.0 > y.0 || (x.0 == y.0 && x.1 > y.1)
}

/// Where `x` goes into a ranked list: before the first entry it ranks
/// strictly before, scanning from `i` (so equal keys keep their order).
pub open spec fn rank_pos(s: Seq<Ranked>, x: Ranked, i: int) -> int
    decreases s.len() - i,
{
    if i < 0 || i >= s.len() {
        s.len() as int
    } else if ranks_before(x, s[i]) {
        i
    } else {
        rank_pos(s, x, i + 1)
    }
}

/// Stable ordering by rank.
pub open spec fn ranked(s: Seq<Ranked>) -> Seq<Ranked>
    decreases s.len(),
{
    if s.len() == 0 {
        s
    } else {
        let r = ranked(s.drop_last());
        r.insert(rank_pos(r, s.last(), 0), s.last())
    }
}

/// The entries with a positive overlap with the query's tokens, in store
/// order, keyed by overlap, time and index (the first `n` entries).
pub open spec fn scored(entries: Seq<MemoryEntry>, q: Seq<Seq<char>>, n: int) -> Seq<Ranked>
    decreases n,
{
    if n <= 0 || n > entries.len() {
        Seq::empty()
    } else {
        let rest = scored(entries, q, n - 1);
        let sc = overlap(tokens_of(entries[n - 1].summary@), q);
        if sc > 0 {
            rest.push((sc, entries[n - 1].created_at, n - 1))
        } else {
            rest
        }
    }
}

/// Every entry keyed by time alone (the first `n` entries).
pub open spec fn by_time(entries: Seq<MemoryEntry>, n: int) -> Seq<Ranked>
    decreases n,
{
    if n <= 0 || n > entries.len() {
        Seq::empty()
    } else {
        by_time(entries, n - 1).push((0nat, entries[n - 1].created_at, n - 1))
    }
}

/// The ranking a query gets: by overlap then recency when it has tokens,
/// by recency alone when it has none.
pub open spec fn retrieval_order(entries: Seq<MemoryEntry>, query: Seq<char>) -> Seq<Ranked> {
    if tokens_of(query).len() == 0 {
        ranked(by_time(entries, entries.len() as int))
    } else {
        ranked(scored(entries, tokens_of(query), entries.len() as int))
    }
}

/// Executable ranking keys as plain values.
pub open spec fn keys_view(s: Seq<(u64, i64, usize)>) -> Seq<Ranked> {
    s.map_values(|t: (u64, i64, usize)| (t.0 as nat, t.1, t.2 as int))
}

fn rank_sort(items: Vec<(u64, i64, usize)>) -> (r: Vec<(u64, i64, usize)>)
    ensures
        keys_view(r@) == ranked(keys_view(items@)),
{
    let mut rest = items;
    let ghost orig = rest@;
    let total: usize = rest.len();
    let mut out: Vec<(u64, i64, usize)> = Vec::new();
    let mut n: usize = 0;
    while rest.len() > 0
        invariant
            n + rest@.len() == orig.len(),
            orig.len() == total,
            rest@ == orig.subrange(n as int, orig.len() as int),
            keys_view(out@) == ranked(keys_view(orig.take(n as int))),
        decreases rest@.len(),
    {
        let x = rest.remove(0);
        let ghost fx: Ranked = (x.0 as nat, x.1, x.2 as int);
        assert(keys_view(orig.take(n + 1)).drop_last() =~= keys_view(orig.take(n as int)));
        assert(keys_view(orig.take(n + 1)).last() == fx);
        let ghost ov = keys_view(out@);
        let mut j: usize = 0;
        while j < out.len() && !(x.0 > out[j].0 || (x.0 == out[j].0 && x.1 > out[j].1))
            invariant
                j <= out@.len(),
                ov == keys_view(out@),
                fx == (x.0 as nat, x.1, x.2 as int),
                rank_pos(ov, fx, 0) == rank_pos(ov, fx, j as int),
            decreases out@.len() - j,
        {
            assert(ov[j as int] == (out@[j as int].0 as nat, out@[j as int].1, out@[j as int].2 as int));
            j += 1;
        }
        proof {
            if j < out@.len() {
                assert(ov[j as int] == (out@[j as int].0 as nat, out@[j as int].1, out@[j as int].2 as int));
            }
        }
        out.insert(j, x);
        assert(keys_view(out@) =~= ov.insert(j as int, fx));
        n += 1;
        assert(rest@ =~= orig.subrange(n as int, orig.len() as int));
    }
    assert(orig.take(n as int) =~= orig);
    out
}

/// Keyword retrieval: up to `k` entries in ranking order (see
/// [`retrieval_order`]); none when `k` is 0 or the store is empty.
pub fn keyword_retrieve<'a>(store: &'a MemoryStore, query: &str, k: usize) -> (r: Vec<&'a MemoryEntry>)
    ensures
        k == 0 || store.entries@.len() == 0 ==> r@.len() == 0,
        k > 0 && store.entries@.len() > 0 ==> {
            let order = retrieval_order(store.entries@, query@);
            &&& r@.len() == if order.len() < k {
                order.len()
            } else {
                k as nat
            }
            &&& forall|i: int|
                0 <= i < r@.len() ==> 0 <= #[trigger] order[i].2 < store.entries@.len() && *r@[i]
                    == store.entries@[order[i].2]
        },
{
    let mut out: Vec<&'a MemoryEntry> = Vec::new();
    if k == 0 || store.entries.len() == 0 {
        return out;
    }
    let qt = tokenize(query);
    let ghost q = tokens_of(query@);
    let mut keys: Vec<(u64, i64, usize)> = Vec::new();
    let mut i: usize = 0;
    let empty = qt.is_empty();
    while i < store.entries.len()
        invariant
            i <= store.entries@.len(),
            crate::text::string_views(qt.tokens@) == q,
            empty == (q.len() == 0),
            keys_view(keys@) == if empty {
                by_time(store.entries@, i as int)
            } else {
                scored(store.entries@, q, i as int)
            },
            forall|j: int| 0 <= j < keys_view(keys@).len() ==> 0 <= (#[trigger] keys_view(keys@)[j]).2 < i,
        decreases store.entries@.len() - i,
    {
        let ghost before = keys_view(keys@);
        if empty {
            keys.push((0, store.entries[i].created_at, i));
            assert(keys_view(keys@) =~= before.push((0nat, store.entries@[i as int].created_at, i as int)));
        } else {
            let st = tokenize(store.entries[i].summary.as_str());
            let ghost sv = crate::text::string_views(st.tokens@);
            let mut sc: u64 = 0;
            let mut j: usize = 0;
            while j < st.tokens.len()
                invariant
                    j <= st.tokens@.len(),
                    sv == crate::text::string_views(st.tokens@),
                    crate::text::string_views(qt.tokens@) == q,
                    sc == overlap(sv.take(j as int), q),
                    sc <= j,
                decreases st.tokens@.len() - j,
            {
                assert(sv.take(j + 1).drop_last() =~= sv.take(j as int));
                assert(sv.take(j + 1).last() == st.tokens@[j as int]@);
                if qt.contains(st.tokens[j].as_str()) {
                    sc = sc + 1;
                }
                j += 1;
            }
            assert(sv.take(sv.len() as int) =~= sv);
            if sc > 0 {
                keys.push((sc, store.entries[i].created_at, i));
                assert(keys_view(keys@) =~= before.push((sc as nat, store.entries@[i as int].created_at, i as int)));
            }
        }
        i += 1;
    }
    let sorted = rank_sort(keys);
    let ghost order = keys_view(sorted@);
    assert(order == retrieval_order(store.entries@, query@));
    proof {
        lemma_ranked_indices(keys_view(keys@), store.entries@.len() as int);
    }
    let mut n: usize = 0;
    while n < sorted.len() && n < k
        invariant
            n <= sorted@.len(),
            n <= k,
            order == keys_view(sorted@),
            out@.len() == n,
            forall|j: int| 0 <= j < order.len() ==> 0 <= #[trigger] order[j].2 < store.entries@.len(),
            forall|j: int| 0 <= j < n ==> *out@[j] == store.entries@[#[trigger] order[j].2],
        decreases sorted@.len() - n,
    {
        let idx = sorted[n].2;
        assert(order[n as int].2 == idx as int);
        out.push(&store.entries[idx]);
        n += 1;
    }
    out
}

proof fn lemma_ranked_indices(s: Seq<Ranked>, bound: int)
    requires
        forall|j: int| 0 <= j < s.len() ==> 0 <= (#[trigger] s[j]).2 < bound,
    ensures
        forall|j: int| 0 <= j < ranked(s).len() ==> 0 <= (#[trigger] ranked(s)[j]).2 < bound,
        ranked(s).len() == s.len(),
    decreases s.len(),
{
    if s.len() > 0 {
        lemma_ranked_indices(s.drop_last(), bound);
        let r = ranked(s.drop_last());
        lemma_rank_pos_bounds(r, s.last(), 0);
        let p = rank_pos(r, s.last(), 0);
        assert forall|j: int| 0 <= j < ranked(s).len() implies 0 <= (#[trigger] ranked(s)[j]).2 < bound by {
            if j < p {
                assert(ranked(s)[j] == r[j]);
            } else if j > p {
                assert(ranked(s)[j] == r[j - 1]);
            } else {
                assert(ranked(s)[j] == s.last());
            }
        }
    }
}

proof fn lemma_rank_pos_bounds(s: Seq<Ranked>, x: Ranked, i: int)
    requires
        0 <= i <= s.len(),
    ensures
        i <= rank_pos(s, x, i) <= s.len(),
    decreases s.len() - i,
{
    if i < s.len() && !ranks_before(x, s[i]) {
        lemma_rank_pos_bounds(s, x, i + 1);
    }
}


/// No later key ranks strictly before an earlier one.
pub open spec fn ordered_by_rank(s: Seq<Ranked>) -> bool {
    forall|i: int, j: int| 0 <= i < j < s.len() ==> !ranks_before(#[trigger] s[j], #[trigger] s[i])
}

proof fn lemma_rank_pos(s: Seq<Ranked>, x: Ranked, i: int)
    requires
        0 <= i <= s.len(),
        ordered_by_rank(s),
    ensures
        i <= rank_pos(s, x, i) <= s.len(),
        forall|j: int| i <= j < rank_pos(s, x, i) ==> !ranks_before(x, #[trigger] s[j]),
        forall|j: int| rank_pos(s, x, i) <= j < s.len() ==> ranks_before(x, #[trigger] s[j]),
    decreases s.len() - i,
{
    if i < s.len() && !ranks_before(x, s[i]) {
        lemma_rank_pos(s, x, i + 1);
    } else if i < s.len() {
        assert forall|j: int| i <= j < s.len() implies ranks_before(x, #[trigger] s[j]) by {
            if j > i {
                assert(!ranks_before(s[j], s[i]));
            }
        }
    }
}

proof fn lemma_ranked(s: Seq<Ranked>)
    ensures
        ordered_by_rank(ranked(s)),
        ranked(s).to_multiset() == s.to_multiset(),
    decreases s.len(),
{
    if s.len() > 0 {
        let r = ranked(s.drop_last());
        lemma_ranked(s.drop_last());
        let x = s.last();
        let p = rank_pos(r, x, 0);
        lemma_rank_pos(r, x, 0);
        let t = r.insert(p, x);
        assert forall|i: int, j: int| 0 <= i < j < t.len() implies !ranks_before(#[trigger] t[j], #[trigger] t[i]) by {
            if j < p {
                assert(t[i] == r[i] && t[j] == r[j]);
            } else if j == p {
                assert(t[i] == r[i]);
                assert(!ranks_before(x, r[i]));
            } else if i < p {
                assert(t[i] == r[i] && t[j] == r[j - 1]);
            } else if i == p {
                assert(t[j] == r[j - 1]);
                assert(ranks_before(x, r[j - 1]));
            } else {
                assert(t[i] == r[i - 1] && t[j] == r[j - 1]);
            }
        }
        vstd::seq_lib::to_multiset_insert(r, p, x);
        vstd::seq_lib::to_multiset_insert(s.drop_last(), s.len() - 1, x);
        assert(s =~= s.drop_last().insert(s.len() - 1, x));
    }
}

/// Retrieval ranks by overlap with the query, then by recency: in the
/// ranking a query gets, no entry ranks strictly before one listed ahead of
/// it, and the ranking holds each candidate entry exactly once (every entry
/// for a query without tokens, every entry sharing a token otherwise).
pub proof fn retrieval_is_ranked(entries: Seq<MemoryEntry>, query: Seq<char>)
    ensures
        ordered_by_rank(retrieval_order(entries, query)),
        retrieval_order(entries, query).to_multiset() == (if tokens_of(query).len() == 0 {
            by_time(entries, entries.len() as int)
        } else {
            scored(entries, tokens_of(query), entries.len() as int)
        }).to_multiset(),
{
    if tokens_of(query).len() == 0 {
        lemma_ranked(by_time(entries, entries.len() as int));
    } else {
        lemma_ranked(scored(entries, tokens_of(query), entries.len() as int));
    }
}

} // verus!
