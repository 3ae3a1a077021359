//! Server-side chat history: the list every client of the daemon shares.
//! The store's rules live here; reading and writing `chats.json` is the
//! caller's. A chat's messages are carried as they are (`M`): nothing
//! here reads them.

use vstd::prelude::*;
use crate::text::str_eq;

verus! {

/// The file the history is kept in, under the configuration directory.
pub const CHATS_FILE: &'static str = "chats.json";

/// One conversation.
#[derive(Debug)]
pub struct Chat<M> {
    pub id: String,
    pub title: String,
    /// Unix milliseconds; 0 when the client sent none.
    pub created_at: u64,
    pub updated_at: u64,
    pub messages: Vec<M>,
}

/// The whole history.
#[derive(Debug)]
pub struct ChatsFile<M> {
    pub chats: Vec<Chat<M>>,
}

/// When a chat was last active: the later of its two timestamps.
pub open spec fn activity<M>(c: Chat<M>) -> u64 {
    if c.updated_at >= c.created_at {
        c.updated_at
    } else {
        c.created_at
    }
}

/// The first chat with the given id, scanning from `i`.
pub open spec fn find_chat<M>(s: Seq<Chat<M>>, id: Seq<char>, i: int) -> Option<int>
    decreases s.len() - i,
{
    if i < 0 || i >= s.len() {
        None
    } else if s[i].id@ == id {
        Some(i)
    } else {
        find_chat(s, id, i + 1)
    }
}

/// A chat as stored at time `now`: its creation time filled in when it
/// had none, its update time set to `now`.
pub open spec fn normalized<M>(c: Chat<M>, now: u64) -> Chat<M> {
    Chat {
        created_at: if c.created_at == 0 {
            now
        } else {
            c.created_at
        },
        updated_at: now,
        ..c
    }
}

/// The history after storing `c`: it replaces the first chat with its id,
/// or is appended when there is none.
pub open spec fn upserted<M>(s: Seq<Chat<M>>, c: Chat<M>) -> Seq<Chat<M>> {
    match find_chat(s, c.id@, 0) {
        Some(i) => s.update(i, c),
        None => s.push(c),
    }
}

/// The chats whose id is not the given one.
pub open spec fn other_id<M>(id: Seq<char>) -> spec_fn(Chat<M>) -> bool {
    |c: Chat<M>| c.id@ != id
}

proof fn lemma_find_chat<M>(s: Seq<Chat<M>>, id: Seq<char>, i: int)
    requires
        0 <= i,
    ensures
        find_chat(s, id, i) matches Some(k) ==> i <= k < s.len() && s[k].id@ == id && forall|j: int|
            i <= j < k ==> s[j].id@ != id,
        find_chat(s, id, i) is None ==> forall|k: int| i <= k < s.len() ==> s[k].id@ != id,
    decreases s.len() - i,
{
    if i < s.len() && s[i].id@ != id {
        lemma_find_chat(s, id, i + 1);
    }
}

proof fn lemma_find_chat_at<M>(s: Seq<Chat<M>>, id: Seq<char>, i: int, k: int)
    requires
        0 <= i <= k < s.len(),
        s[k].id@ == id,
        forall|j: int| i <= j < k ==> s[j].id@ != id,
    ensures
        find_chat(s, id, i) == Some(k),
    decreases k - i,
{
    if i < k {
        lemma_find_chat_at(s, id, i + 1, k);
    }
}

proof fn lemma_find_chat_none<M>(s: Seq<Chat<M>>, id: Seq<char>, i: int)
    requires
        0 <= i,
        forall|k: int| i <= k < s.len() ==> s[k].id@ != id,
    ensures
        find_chat(s, id, i) is None,
    decreases s.len() - i,
{
    if i < s.len() {
        lemma_find_chat_none(s, id, i + 1);
    }
}

impl<M> ChatsFile<M> {
    /// An empty history.
    pub fn new() -> (f: Self)
        ensures
            f.chats@.len() == 0,
    {
        ChatsFile { chats: Vec::new() }
    }

    /// The index of the first chat with the given id.
    pub fn position(&self, id: &str) -> (r: Option<usize>)
        ensures
            match r {
                Some(i) => find_chat(self.chats@, id@, 0) == Some(i as int) && i < self.chats@.len(),
                None => find_chat(self.chats@, id@, 0) is None,
            },
    {
        let mut i: usize = 0;
        while i < self.chats.len()
            invariant
                i <= self.chats@.len(),
                forall|j: int| 0 <= j < i ==> self.chats@[j].id@ != id@,
            decreases self.chats@.len() - i,
        {
            if str_eq(self.chats[i].id.as_str(), id) {
                proof {
                    lemma_find_chat_at(self.chats@, id@, 0, i as int);
                }
                return Some(i);
            }
            i += 1;
        }
        proof {
            lemma_find_chat_none(self.chats@, id@, 0);
        }
        None
    }

    /// The chat with the given id, if any (the first one).
    pub fn get(&self, id: &str) -> (r: Option<&Chat<M>>)
        ensures
            match find_chat(self.chats@, id@, 0) {
                Some(k) => r == Some(&self.chats@[k]),
                None => r is None,
            },
    {
        match self.position(id) {
            Some(i) => Some(&self.chats[i]),
            None => None,
        }
    }

    /// Stores a chat at time `now`, replacing the chat with its id or
    /// appending it; returns where it now stands.
    pub fn upsert(&mut self, chat: Chat<M>, now: u64) -> (at: usize)
        ensures
            final(self).chats@ == upserted(old(self).chats@, normalized(chat, now)),
            at < final(self).chats@.len(),
            final(self).chats@[at as int] == normalized(chat, now),
    {
        let ghost stored = normalized(chat, now);
        let mut chat = chat;
        if chat.created_at == 0 {
            chat.created_at = now;
        }
        chat.updated_at = now;
        assert(chat == stored);
        match self.position(chat.id.as_str()) {
            Some(i) => {
                self.chats.set(i, chat);
                i
            },
            None => {
                self.chats.push(chat);
                self.chats.len() - 1
            },
        }
    }

    /// Deletes every chat with the given id; returns whether one was
    /// removed.
    pub fn delete(&mut self, id: &str) -> (removed: bool)
        ensures
            final(self).chats@ == old(self).chats@.filter(other_id(id@)),
            removed == (find_chat(old(self).chats@, id@, 0) is Some),
    {
        let ghost orig = self.chats@;
        let mut rest: Vec<Chat<M>> = Vec::new();
        std::mem::swap(&mut rest, &mut self.chats);
        let total: usize = rest.len();
        let mut kept: Vec<Chat<M>> = Vec::new();
        let mut n: usize = 0;
        let mut removed = false;
        while rest.len() > 0
            invariant
                n + rest@.len() == orig.len(),
                orig.len() == total,
                rest@ == orig.subrange(n as int, orig.len() as int),
                kept@ == orig.take(n as int).filter(other_id::<M>(id@)),
                removed == exists|k: int| 0 <= k < n && orig[k].id@ == id@,
            decreases rest@.len(),
        {
            let c = rest.remove(0);
            proof {
                reveal(Seq::filter);
                assert(orig.take(n + 1).drop_last() =~= orig.take(n as int));
                assert(orig.take(n + 1).last() == c);
            }
            if str_eq(c.id.as_str(), id) {
                removed = true;
            } else {
                kept.push(c);
            }
            n += 1;
            assert(rest@ =~= orig.subrange(n as int, orig.len() as int));
        }
        proof {
            assert(orig.take(n as int) =~= orig);
            lemma_find_chat(orig, id@, 0);
        }
        self.chats = kept;
        removed
    }

    /// Deletes every chat; returns how many there were.
    pub fn clear(&mut self) -> (n: usize)
        ensures
            final(self).chats@.len() == 0,
            n == old(self).chats@.len(),
    {
        let n = self.chats.len();
        self.chats = Vec::new();
        n
    }
}

/// Where a chat with activity `k` goes into a newest-first list: after
/// every chat at least as recent, scanning from `i`.
pub open spec fn activity_pos<M>(s: Seq<Chat<M>>, k: u64, i: int) -> int
    decreases s.len() - i,
{
    if i < 0 || i >= s.len() {
        s.len() as int
    } else if activity(s[i]) < k {
        i
    } else {
        activity_pos(s, k, i + 1)
    }
}

/// Stable newest-activity-first order: equal activity keeps its order.
pub open spec fn by_activity<M>(s: Seq<Chat<M>>) -> Seq<Chat<M>>
    decreases s.len(),
{
    if s.len() == 0 {
        s
    } else {
        let r = by_activity(s.drop_last());
        r.insert(activity_pos(r, activity(s.last()), 0), s.last())
    }
}

/// A list is ordered newest activity first.
pub open spec fn is_newest_activity_first<M>(s: Seq<Chat<M>>) -> bool {
    forall|i: int, j: int| 0 <= i < j < s.len() ==> activity(s[i]) >= activity(s[j])
}

/// When a chat was last active.
pub fn chat_activity<M>(c: &Chat<M>) -> (k: u64)
    ensures
        k == activity(*c),
{
    if c.updated_at >= c.created_at {
        c.updated_at
    } else {
        c.created_at
    }
}

/// The chats in newest-activity-first order (the listing order).
pub fn newest_activity_first<M>(chats: Vec<Chat<M>>) -> (r: Vec<Chat<M>>)
    ensures
        r@ == by_activity(chats@),
{
    let mut rest = chats;
    let ghost orig = rest@;
    let total: usize = rest.len();
    let mut out: Vec<Chat<M>> = Vec::new();
    let mut n: usize = 0;
    while rest.len() > 0
        invariant
            n + rest@.len() == orig.len(),
            orig.len() == total,
            rest@ == orig.subrange(n as int, orig.len() as int),
            out@ == by_activity(orig.take(n as int)),
        decreases rest@.len(),
    {
        let c = rest.remove(0);
        assert(orig.take(n + 1).drop_last() =~= orig.take(n as int));
        assert(orig.take(n + 1).last() == c);
        let k = chat_activity(&c);
        let mut j: usize = 0;
        while j < out.len() && chat_activity(&out[j]) >= k
            invariant
                j <= out@.len(),
                activity_pos(out@, k, 0) == activity_pos(out@, k, j as int),
            decreases out@.len() - j,
        {
            j += 1;
        }
        out.insert(j, c);
        n += 1;
        assert(rest@ =~= orig.subrange(n as int, orig.len() as int));
    }
    assert(orig.take(n as int) =~= orig);
    out
}

proof fn lemma_activity_pos<M>(s: Seq<Chat<M>>, k: u64, i: int)
    requires
        0 <= i <= s.len(),
        is_newest_activity_first(s),
    ensures
        i <= activity_pos(s, k, i) <= s.len(),
        forall|j: int| i <= j < activity_pos(s, k, i) ==> activity(s[j]) >= k,
        forall|j: int| activity_pos(s, k, i) <= j < s.len() ==> activity(s[j]) < k,
    decreases s.len() - i,
{
    if i < s.len() && activity(s[i]) >= k {
        lemma_activity_pos(s, k, i + 1);
    }
}

/// Listing returns every chat exactly once, newest activity first.
pub proof fn listing_is_newest_first_and_complete<M>(s: Seq<Chat<M>>)
    ensures
        is_newest_activity_first(by_activity(s)),
        by_activity(s).to_multiset() == s.to_multiset(),
        by_activity(s).len() == s.len(),
    decreases s.len(),
{
    if s.len() > 0 {
        let r = by_activity(s.drop_last());
        listing_is_newest_first_and_complete(s.drop_last());
        let x = s.last();
        let p = activity_pos(r, activity(x), 0);
        lemma_activity_pos(r, activity(x), 0);
        let t = r.insert(p, x);
        assert forall|i: int, j: int| 0 <= i < j < t.len() implies activity(t[i]) >= activity(t[j]) by {
            if j < p {
            } else if j == p {
            } else if i < p {
            } else if i == p {
                assert(t[j] == r[j - 1]);
            } else {
                assert(t[i] == r[i - 1] && t[j] == r[j - 1]);
            }
        }
        vstd::seq_lib::to_multiset_insert(r, p, x);
        vstd::seq_lib::to_multiset_insert(s.drop_last(), s.len() - 1, x);
        assert(s =~= s.drop_last().insert(s.len() - 1, x));
    }
}

/// A stored chat is what a read of its id gives back, and storing it
/// leaves every chat with another id where it was.
pub proof fn read_after_upsert<M>(s: Seq<Chat<M>>, c: Chat<M>)
    ensures
        find_chat(upserted(s, c), c.id@, 0) matches Some(k) && upserted(s, c)[k] == c,
        forall|j: int|
            0 <= j < s.len() && s[j].id@ != c.id@ ==> #[trigger] upserted(s, c)[j] == s[j],
{
    lemma_find_chat(s, c.id@, 0);
    let t = upserted(s, c);
    match find_chat(s, c.id@, 0) {
        Some(k) => {
            lemma_find_chat_at(t, c.id@, 0, k);
        },
        None => {
            lemma_find_chat_at(t, c.id@, 0, s.len() as int);
        },
    }
}

/// After a delete no chat has the id, and the others keep their order.
pub proof fn nothing_read_after_delete<M>(s: Seq<Chat<M>>, id: Seq<char>)
    ensures
        find_chat(s.filter(other_id::<M>(id)), id, 0) is None,
{
    let t = s.filter(other_id::<M>(id));
    assert forall|k: int| 0 <= k < t.len() implies t[k].id@ != id by {
        assert(other_id::<M>(id)(t[k]));
    }
    lemma_find_chat_none(t, id, 0);
}

} // verus!
