//! Relaying an OpenAI-style chat-completions event stream as plain text:
//! the bytes that arrive are cut into events at blank lines, each
//! event's `data:` lines are read, and the text deltas are passed on
//! until the stream says it is done. Decoding each payload's JSON is the
//! caller's.

use vstd::prelude::*;
use crate::agent_fs::{lines_of, text_lines};
use crate::text::{chars_of, starts_with, starts_with_str, str_eq, string_of_range, string_views};

verus! {

/// A blank line (`\n\n`) starts at `i`.
pub open spec fn blank_at(s: Seq<char>, i: int) -> bool {
    0 <= i && i + 1 < s.len() && s[i] == '\n' && s[i + 1] == '\n'
}

/// The first blank line at or after `i`.
pub open spec fn next_blank(s: Seq<char>, i: int) -> Option<int>
    decreases s.len() - i,
{
    if i < 0 || i + 1 >= s.len() {
        None
    } else if blank_at(s, i) {
        Some(i)
    } else {
        next_blank(s, i + 1)
    }
}

/// The complete events in a text, each through its closing blank line,
/// and what is left after the last one.
pub open spec fn split_events(s: Seq<char>) -> (Seq<Seq<char>>, Seq<char>)
    decreases s.len(),
{
    match next_blank(s, 0) {
        Some(i) => if 0 <= i && i + 2 <= s.len() {
            let r = split_events(s.skip(i + 2));
            (seq![s.take(i + 2)] + r.0, r.1)
        } else {
            (Seq::empty(), s)
        },
        None => (Seq::empty(), s),
    }
}

/// Some texts one after the other.
pub open spec fn joined(parts: Seq<Seq<char>>) -> Seq<char>
    decreases parts.len(),
{
    if parts.len() == 0 {
        Seq::empty()
    } else {
        joined(parts.drop_last()) + parts.last()
    }
}

proof fn lemma_next_blank(s: Seq<char>, i: int)
    requires
        0 <= i,
    ensures
        next_blank(s, i) matches Some(k) ==> i <= k && blank_at(s, k) && forall|j: int|
            i <= j < k ==> !blank_at(s, j),
        next_blank(s, i) is None ==> forall|j: int| i <= j ==> !blank_at(s, j),
    decreases s.len() - i,
{
    if i + 1 < s.len() && !blank_at(s, i) {
        lemma_next_blank(s, i + 1);
    }
}

proof fn lemma_joined_prepend(a: Seq<char>, parts: Seq<Seq<char>>)
    ensures
        joined(seq![a] + parts) == a + joined(parts),
    decreases parts.len(),
{
    if parts.len() == 0 {
        assert(seq![a] + parts =~= seq![a]);
        assert(seq![a].drop_last() =~= Seq::<Seq<char>>::empty());
        assert(joined(seq![a]) == joined(Seq::<Seq<char>>::empty()) + a);
        assert(Seq::<char>::empty() + a =~= a);
        assert(a + Seq::<char>::empty() =~= a);
    } else {
        lemma_joined_prepend(a, parts.drop_last());
        let whole = seq![a] + parts;
        assert(whole.drop_last() =~= seq![a] + parts.drop_last());
        assert(whole.last() == parts.last());
        assert(joined(whole) == joined(whole.drop_last()) + whole.last());
        assert(joined(parts) == joined(parts.drop_last()) + parts.last());
        assert(a + joined(parts.drop_last()) + parts.last() =~= a + (joined(parts.drop_last()) + parts.last()));
    }
}

/// Cutting a text into events loses and invents nothing: the events and
/// the rest, one after the other, are the text; every event ends with
/// its first blank line; the rest holds no blank line.
pub proof fn events_cover_the_text(s: Seq<char>)
    ensures
        joined(split_events(s).0) + split_events(s).1 == s,
        forall|k: int|
            0 <= k < split_events(s).0.len() ==> {
                let e = #[trigger] split_events(s).0[k];
                &&& e.len() >= 2
                &&& blank_at(e, e.len() - 2)
                &&& forall|j: int| 0 <= j < e.len() - 2 ==> !blank_at(e, j)
            },
        forall|j: int| !blank_at(split_events(s).1, j),
    decreases s.len(),
{
    lemma_next_blank(s, 0);
    match next_blank(s, 0) {
        Some(i) => {
            let t = s.skip(i + 2);
            events_cover_the_text(t);
            let r = split_events(t);
            lemma_joined_prepend(s.take(i + 2), r.0);
            assert(s.take(i + 2) + joined(r.0) + r.1 =~= s.take(i + 2) + (joined(r.0) + r.1));
            assert(s.take(i + 2) + t =~= s);
            let e = s.take(i + 2);
            assert(blank_at(e, e.len() - 2));
            assert forall|j: int| 0 <= j < e.len() - 2 implies !blank_at(e, j) by {
                assert(!blank_at(s, j));
            }
            assert forall|k: int| 0 <= k < split_events(s).0.len() implies {
                let x = #[trigger] split_events(s).0[k];
                &&& x.len() >= 2
                &&& blank_at(x, x.len() - 2)
                &&& forall|j: int| 0 <= j < x.len() - 2 ==> !blank_at(x, j)
            } by {
                if k > 0 {
                    assert(split_events(s).0[k] == r.0[k - 1]);
                }
            }
        },
        None => {
            assert(joined(Seq::<Seq<char>>::empty()) + s =~= s);
            assert forall|j: int| !blank_at(split_events(s).1, j) by {
                if 0 <= j {
                    assert(!blank_at(s, j));
                }
            }
        },
    }
}

fn find_blank(s: &Vec<char>) -> (r: Option<usize>)
    ensures
        match r {
            Some(b) => next_blank(s@, 0) == Some(b as int) && b + 2 <= s@.len(),
            None => next_blank(s@, 0) is None,
        },
{
    let mut i: usize = 0;
    while s.len() > 0 && i < s.len() - 1
        invariant
            next_blank(s@, 0) == next_blank(s@, i as int),
            i <= s@.len(),
        decreases s@.len() - i,
    {
        if s[i] == '\n' && s[i + 1] == '\n' {
            return Some(i);
        }
        i += 1;
    }
    None
}

/// The text received so far that does not yet make a complete event.
#[derive(Debug)]
pub struct EventBuffer {
    pending: Vec<char>,
}

impl View for EventBuffer {
    type V = Seq<char>;

    closed spec fn view(&self) -> Seq<char> {
        self.pending@
    }
}

impl EventBuffer {
    /// Nothing received yet.
    pub fn new() -> (b: Self)
        ensures
            b@ == Seq::<char>::empty(),
    {
        EventBuffer { pending: Vec::new() }
    }

    /// Takes text that arrived; returns the events it completes, in
    /// order, and keeps the rest for later.
    pub fn push_text(&mut self, text: &str) -> (events: Vec<String>)
        ensures
            string_views(events@) == split_events(old(self)@ + text@).0,
            final(self)@ == split_events(old(self)@ + text@).1,
    {
        let ghost all = self@ + text@;
        let add = chars_of(text);
        let mut i: usize = 0;
        while i < add.len()
            invariant
                i <= add@.len(),
                add@ == text@,
                self@ == old(self)@ + text@.take(i as int),
                all == old(self)@ + text@,
            decreases add@.len() - i,
        {
            self.pending.push(add[i]);
            assert(self@ =~= old(self)@ + text@.take(i + 1));
            i += 1;
        }
        assert(text@.take(i as int) =~= text@);
        let mut events: Vec<String> = Vec::new();
        loop
            invariant
                all == old(self)@ + text@,
                string_views(events@) + split_events(self@).0 == split_events(all).0,
                split_events(self@).1 == split_events(all).1,
            ensures
                string_views(events@) == split_events(all).0,
                self@ == split_events(all).1,
            decreases self@.len(),
        {
            match find_blank(&self.pending) {
                Some(b) => {
                    let n = self.pending.len();
                    let ghost before = self@;
                    let e = string_of_range(self.pending.as_slice(), 0, b + 2);
                    let rest = chars_of(string_of_range(self.pending.as_slice(), b + 2, n).as_str());
                    assert(before.subrange(0, b + 2) =~= before.take(b + 2));
                    assert(before.subrange(b + 2, n as int) =~= before.skip(b + 2));
                    let ghost ev = string_views(events@);
                    events.push(e);
                    assert(string_views(events@) =~= ev.push(before.take(b + 2)));
                    assert(split_events(before).0 =~= seq![before.take(b + 2)] + split_events(before.skip(b + 2)).0);
                    assert(ev.push(before.take(b + 2)) + split_events(before.skip(b + 2)).0 =~= ev
                        + (seq![before.take(b + 2)] + split_events(before.skip(b + 2)).0));
                    self.pending = rest;
                },
                None => {
                    assert(split_events(self@).0 =~= Seq::<Seq<char>>::empty());
                    assert(string_views(events@) + Seq::<Seq<char>>::empty() =~= string_views(events@));
                    break;
                },
            }
        }
        events
    }
}

impl EventBuffer {
    /// Takes a chunk of bytes as it arrived (decoded on its own, invalid
    /// sequences replaced); returns the events it completes.
    pub fn push_bytes(&mut self, chunk: Vec<u8>) -> (events: Vec<String>)
        ensures
            string_views(events@) == split_events(old(self)@ + crate::relay_client::lossy_text(chunk@)).0,
            final(self)@ == split_events(old(self)@ + crate::relay_client::lossy_text(chunk@)).1,
    {
        let text = crate::relay_client::utf8_lossy(chunk);
        self.push_text(text.as_str())
    }
}

/// The payloads of an event: its lines that start with `data: `, with
/// that prefix removed.
pub open spec fn data_payloads(lines: Seq<Seq<char>>) -> Seq<Seq<char>>
    decreases lines.len(),
{
    if lines.len() == 0 {
        Seq::empty()
    } else {
        let r = data_payloads(lines.drop_last());
        if starts_with(lines.last(), "data: "@) {
            r.push(lines.last().skip(6))
        } else {
            r
        }
    }
}

/// Reads the payloads of one event.
pub fn event_payloads(event: &str) -> (r: Vec<String>)
    ensures
        string_views(r@) == data_payloads(text_lines(event@)),
{
    proof {
        reveal_strlit("data: ");
    }
    let lines = lines_of(event);
    let ghost lv = string_views(lines@);
    let mut out: Vec<String> = Vec::new();
    let mut i: usize = 0;
    while i < lines.len()
        invariant
            i <= lines@.len(),
            lv == string_views(lines@),
            string_views(out@) == data_payloads(lv.take(i as int)),
            "data: "@.len() == 6,
        decreases lines@.len() - i,
    {
        let l = chars_of(lines[i].as_str());
        assert(lv.take(i + 1).drop_last() =~= lv.take(i as int));
        assert(lv.take(i + 1).last() == l@);
        if starts_with_str(l.as_slice(), "data: ") {
            let n = l.len();
            let p = string_of_range(l.as_slice(), 6, n);
            assert(l@.subrange(6, n as int) =~= l@.skip(6));
            let ghost before = string_views(out@);
            out.push(p);
            assert(string_views(out@) =~= before.push(l@.skip(6)));
        }
        i += 1;
    }
    assert(lv.take(i as int) =~= lv);
    out
}

/// What one decoded payload says: the text delta of its first choice, if
/// any, and whether that choice has a finish reason.
#[derive(Debug, Clone)]
pub struct Delta {
    pub content: Option<String>,
    pub finished: bool,
}

/// What to do with one payload: the text to pass on (if any) and whether
/// to keep reading the stream.
pub open spec fn payload_step(payload: Seq<char>, decoded: Option<Delta>) -> (Option<Seq<char>>, bool) {
    if payload == "[DONE]"@ {
        (None, false)
    } else {
        match decoded {
            None => (None, true),
            Some(d) => (
                match d.content {
                    Some(c) => if c@.len() > 0 {
                        Some(c@)
                    } else {
                        None
                    },
                    None => None,
                },
                !d.finished,
            ),
        }
    }
}

/// Decides what one payload does: `[DONE]` ends the stream; a payload
/// that did not decode is skipped; otherwise a non-empty delta is passed
/// on and a finish reason ends the stream.
pub fn handle_payload(payload: &str, decoded: Option<Delta>) -> (r: (Option<String>, bool))
    ensures
        r.1 == payload_step(payload@, decoded).1,
        match payload_step(payload@, decoded).0 {
            Some(t) => r.0 matches Some(s) && s@ == t,
            None => r.0 is None,
        },
{
    if str_eq(payload, "[DONE]") {
        return (None, false);
    }
    match decoded {
        None => (None, true),
        Some(d) => {
            let text = match d.content {
                Some(c) => if chars_of(c.as_str()).len() > 0 {
                    Some(c)
                } else {
                    None
                },
                None => None,
            };
            (text, !d.finished)
        },
    }
}

} // verus!
