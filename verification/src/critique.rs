//! Pre-output self-correction gate.
//!
//! Before the agent finalizes a prose answer it runs the answer through
//! a deterministic set of quality gates and records any findings. Each
//! gate is a pure function over the lowercased candidate text; findings
//! are advisory and ordered by gate.

use vstd::prelude::*;
use crate::memory::{char_is_alphanumeric, is_alnum};
use crate::text::{
    chars_of, contains_any, contains_any_exec, contains_seq, occurs_at, occurs_at_exec, owned, push_char,
    push_str, to_lowercase, unicode_lower, views,
};

verus! {

/// Which gate produced a finding.
#[derive(Debug, Clone, Copy, PartialEq, Eq, Structural)]
pub enum Gate {
    Tone,
    Architecture,
    Ux,
    Risk,
}

/// A single advisory finding from one gate.
#[derive(Debug, Clone, PartialEq, Eq)]
pub struct Finding {
    pub gate: Gate,
    pub message: String,
}

/// The outcome of running every gate over a candidate answer.
#[derive(Debug, Clone, PartialEq, Eq)]
pub struct CritiqueReport {
    pub findings: Vec<Finding>,
}

/// The position of a gate in the fixed gate order.
pub open spec fn gate_rank(g: Gate) -> int {
    match g {
        Gate::Tone => 0,
        Gate::Architecture => 1,
        Gate::Ux => 2,
        Gate::Risk => 3,
    }
}

impl Finding {
    /// A finding as its gate and message characters.
    pub open spec fn view(&self) -> (Gate, Seq<char>) {
        (self.gate, self.message@)
    }
}

impl CritiqueReport {
    /// The findings, each as its gate and message characters.
    pub open spec fn view(&self) -> Seq<(Gate, Seq<char>)> {
        self.findings@.map_values(|f: Finding| f.view())
    }

    /// True when no gate raised a finding.
    pub fn passed(&self) -> (r: bool)
        ensures
            r == (self.findings@.len() == 0),
    {
        self.findings.len() == 0
    }

    /// True when any finding came from the risk gate.
    pub fn has_risk_finding(&self) -> (r: bool)
        ensures
            r == exists|i: int| 0 <= i < self.findings@.len() && self.findings@[i].gate == Gate::Risk,
    {
        let mut i: usize = 0;
        while i < self.findings.len()
            invariant
                i <= self.findings@.len(),
                forall|j: int| 0 <= j < i ==> self.findings@[j].gate != Gate::Risk,
            decreases self.findings@.len() - i,
        {
            if self.findings[i].gate == Gate::Risk {
                return true;
            }
            i += 1;
        }
        false
    }
}

/// Inflated-language markers the tone gate flags, in lowercase; they
/// match on word boundaries.
pub open spec fn marketing_markers() -> Seq<Seq<char>> {
    seq![
        "world-class"@, "cutting-edge"@, "best-in-class"@, "revolutionary"@, "game-changer"@,
        "game changer"@, "synergy"@, "seamlessly"@, "unparalleled"@, "next-generation"@,
        "leverage our"@, "supercharge"@,
    ]
}

/// Markers that suggest a destructive or irreversible action.
pub open spec fn destructive_markers() -> Seq<Seq<char>> {
    seq![
        "rm -rf"@, "drop table"@, "delete from"@, "force push"@, "git push --force"@,
        "git reset --hard"@, "truncate"@, "format the disk"@, "wipe"@,
    ]
}

/// Words that signal reversibility, undo or safety were considered.
pub open spec fn reversibility_markers() -> Seq<Seq<char>> {
    seq![
        "revers"@, "undo"@, "backup"@, "restore"@, "rollback"@, "roll back"@, "recover"@,
        "dry run"@, "dry-run"@,
    ]
}

/// Words that signal a confirmation step was included.
pub open spec fn confirmation_markers() -> Seq<Seq<char>> {
    seq![
        "confirm"@, "are you sure"@, "before proceeding"@, "with your approval"@,
        "ask first"@, "double-check"@, "double check"@,
    ]
}

/// Markers that suggest cloud coupling.
pub open spec fn cloud_markers() -> Seq<Seq<char>> {
    seq![
        "aws "@, "amazon s3"@, "s3 bucket"@, "google cloud"@, "gcp "@, "azure "@,
        "in the cloud"@, "cloud-hosted"@, "managed cloud"@, "third-party api"@,
    ]
}

/// Markers that show a local-first alternative was acknowledged.
pub open spec fn local_first_markers() -> Seq<Seq<char>> {
    seq![
        "local-first"@, "local first"@, "locally"@, "on-device"@, "on device"@,
        "self-host"@, "self host"@, "offline"@, "no cloud"@,
    ]
}

/// The tone finding's message, quoting the marker that tripped it.
pub open spec fn tone_message(marker: Seq<char>) -> Seq<char> {
    "Inflated/marketing phrasing detected ("@ + seq!['"'] + marker + seq!['"']
        + "); prefer concise, technical language."@
}

/// The architecture finding's message.
pub open spec fn architecture_message() -> Seq<char> {
    "Cloud coupling proposed without evaluating a local-first alternative."@
}

/// The UX finding's message.
pub open spec fn ux_message() -> Seq<char> {
    "Describes a destructive/irreversible action without mentioning a reversibility or undo path."@
}

/// The risk finding's message.
pub open spec fn risk_message() -> Seq<char> {
    "Proposes a destructive command without a confirmation step."@
}

/// A character that belongs to a word: alphanumeric or `_`.
pub open spec fn is_word_char(c: char) -> bool {
    is_alnum(c) || c == '_'
}

/// `needle` occurs in `hay` at `i` as a whole word: no word character
/// right before it or right after it.
pub open spec fn word_at(hay: Seq<char>, needle: Seq<char>, i: int) -> bool {
    &&& occurs_at(hay, needle, i)
    &&& (i == 0 || !is_word_char(hay[i - 1]))
    &&& (i + needle.len() == hay.len() || !is_word_char(hay[i + needle.len()]))
}

/// `needle` occurs somewhere in `hay` on word boundaries.
pub open spec fn contains_word(hay: Seq<char>, needle: Seq<char>) -> bool {
    exists|i: int| word_at(hay, needle, i)
}

/// The first marker, at index `i` or later, that occurs in `hay` on word
/// boundaries.
pub open spec fn first_word_hit_from(hay: Seq<char>, markers: Seq<Seq<char>>, i: int) -> Option<int>
    decreases markers.len() - i,
{
    if i < 0 || i >= markers.len() {
        None
    } else if contains_word(hay, markers[i]) {
        Some(i)
    } else {
        first_word_hit_from(hay, markers, i + 1)
    }
}

fn is_word_char_exec(c: char) -> (r: bool)
    ensures
        r == is_word_char(c),
{
    c == '_' || char_is_alphanumeric(c)
}

/// Whether `needle` occurs in `hay` at `i` on word boundaries.
fn word_at_exec(hay: &[char], needle: &[char], i: usize) -> (r: bool)
    ensures
        r == word_at(hay@, needle@, i as int),
{
    let n = hay.len();
    if !occurs_at_exec(hay, needle, i) {
        return false;
    }
    let end = i + needle.len();
    let before_ok = i == 0 || !is_word_char_exec(hay[i - 1]);
    let after_ok = end == n || !is_word_char_exec(hay[end]);
    before_ok && after_ok
}

/// Whether `needle` occurs in `hay` on word boundaries.
fn contains_word_exec(hay: &[char], needle: &[char]) -> (r: bool)
    ensures
        r == contains_word(hay@, needle@),
{
    if needle.len() > hay.len() {
        assert forall|k: int| !word_at(hay@, needle@, k) by {}
        return false;
    }
    let last = hay.len() - needle.len();
    let mut i: usize = 0;
    while i < last
        invariant
            i <= last,
            last == hay@.len() - needle@.len(),
            forall|k: int| 0 <= k < i ==> !word_at(hay@, needle@, k),
        decreases last - i,
    {
        if word_at_exec(hay, needle, i) {
            return true;
        }
        i += 1;
    }
    if word_at_exec(hay, needle, last) {
        return true;
    }
    assert forall|k: int| !word_at(hay@, needle@, k) by {
        if 0 <= k && k < last {
        } else if k == last {
        } else {
        }
    }
    false
}

/// The index of the first marker of the list that occurs in `hay` on
/// word boundaries.
fn first_word_hit(hay: &[char], markers: &Vec<&str>) -> (r: Option<usize>)
    ensures
        match r {
            Some(k) => k < markers@.len() && first_word_hit_from(hay@, views(markers@), 0) == Some(
                k as int,
            ),
            None => first_word_hit_from(hay@, views(markers@), 0) is None,
        },
{
    let mut i: usize = markers.len();
    let mut found: Option<usize> = None;
    while i > 0
        invariant
            i <= markers@.len(),
            match found {
                Some(k) => k < markers@.len() && first_word_hit_from(hay@, views(markers@), i as int)
                    == Some(k as int),
                None => first_word_hit_from(hay@, views(markers@), i as int) is None,
            },
        decreases i,
    {
        i -= 1;
        let m = chars_of(markers[i]);
        if contains_word_exec(hay, m.as_slice()) {
            found = Some(i);
        }
    }
    found
}

/// The tone gate: one finding naming the first marketing marker present
/// as a whole word (or phrase).
pub open spec fn tone_findings(lower: Seq<char>) -> Seq<(Gate, Seq<char>)> {
    match first_word_hit_from(lower, marketing_markers(), 0) {
        Some(i) => seq![(Gate::Tone, tone_message(marketing_markers()[i]))],
        None => Seq::empty(),
    }
}

/// The architecture gate: cloud coupling with no local-first alternative.
pub open spec fn architecture_trips(lower: Seq<char>) -> bool {
    contains_any(lower, cloud_markers()) && !contains_any(lower, local_first_markers())
}

/// The UX gate: a destructive action with no reversibility path.
pub open spec fn ux_trips(lower: Seq<char>) -> bool {
    contains_any(lower, destructive_markers()) && !contains_any(lower, reversibility_markers())
}

/// The risk gate: a destructive action with no confirmation step.
pub open spec fn risk_trips(lower: Seq<char>) -> bool {
    contains_any(lower, destructive_markers()) && !contains_any(lower, confirmation_markers())
}

/// One finding of the given gate when `tripped`, none otherwise.
pub open spec fn finding_if(tripped: bool, gate: Gate, message: Seq<char>) -> Seq<(Gate, Seq<char>)> {
    if tripped {
        seq![(gate, message)]
    } else {
        Seq::empty()
    }
}

/// Every gate's findings over already-lowercased text, in gate order.
pub open spec fn critique_spec(lower: Seq<char>) -> Seq<(Gate, Seq<char>)> {
    tone_findings(lower) + finding_if(architecture_trips(lower), Gate::Architecture,
        architecture_message()) + finding_if(ux_trips(lower), Gate::Ux, ux_message())
        + finding_if(risk_trips(lower), Gate::Risk, risk_message())
}

fn marker_list_marketing() -> (v: Vec<&'static str>)
    ensures
        views(v@) == marketing_markers(),
{
    let v = vec![
        "world-class", "cutting-edge", "best-in-class", "revolutionary", "game-changer",
        "game changer", "synergy", "seamlessly", "unparalleled", "next-generation",
        "leverage our", "supercharge",
    ];
    assert(views(v@) =~= marketing_markers());
    v
}

fn marker_list_destructive() -> (v: Vec<&'static str>)
    ensures
        views(v@) == destructive_markers(),
{
    let v = vec![
        "rm -rf", "drop table", "delete from", "force push", "git push --force",
        "git reset --hard", "truncate", "format the disk", "wipe",
    ];
    assert(views(v@) =~= destructive_markers());
    v
}

fn marker_list_reversibility() -> (v: Vec<&'static str>)
    ensures
        views(v@) == reversibility_markers(),
{
    let v = vec![
        "revers", "undo", "backup", "restore", "rollback", "roll back", "recover", "dry run",
        "dry-run",
    ];
    assert(views(v@) =~= reversibility_markers());
    v
}

fn marker_list_confirmation() -> (v: Vec<&'static str>)
    ensures
        views(v@) == confirmation_markers(),
{
    let v = vec![
        "confirm", "are you sure", "before proceeding", "with your approval", "ask first",
        "double-check", "double check",
    ];
    assert(views(v@) =~= confirmation_markers());
    v
}

fn marker_list_cloud() -> (v: Vec<&'static str>)
    ensures
        views(v@) == cloud_markers(),
{
    let v = vec![
        "aws ", "amazon s3", "s3 bucket", "google cloud", "gcp ", "azure ", "in the cloud",
        "cloud-hosted", "managed cloud", "third-party api",
    ];
    assert(views(v@) =~= cloud_markers());
    v
}

fn marker_list_local_first() -> (v: Vec<&'static str>)
    ensures
        views(v@) == local_first_markers(),
{
    let v = vec![
        "local-first", "local first", "locally", "on-device", "on device", "self-host",
        "self host", "offline", "no cloud",
    ];
    assert(views(v@) =~= local_first_markers());
    v
}

fn finding(gate: Gate, message: &str) -> (f: Finding)
    ensures
        f.view() == (gate, message@),
{
    Finding { gate, message: owned(message) }
}

/// Runs every gate over text that is already lowercase.
pub fn critique_lowered(lower: &str) -> (r: CritiqueReport)
    ensures
        r.view() == critique_spec(lower@),
{
    let hay = chars_of(lower);
    let h = hay.as_slice();
    let mut findings: Vec<Finding> = Vec::new();

    let marketing = marker_list_marketing();
    match first_word_hit(h, &marketing) {
        Some(i) => {
            let mut msg = owned("Inflated/marketing phrasing detected (");
            push_char(&mut msg, '"');
            push_str(&mut msg, marketing[i]);
            push_char(&mut msg, '"');
            push_str(&mut msg, "); prefer concise, technical language.");
            assert(msg@ =~= tone_message(marketing_markers()[i as int]));
            findings.push(Finding { gate: Gate::Tone, message: msg });
        },
        None => {},
    }
    let ghost after_tone = findings@.map_values(|f: Finding| f.view());
    assert(after_tone =~= tone_findings(lower@));

    let cloud = contains_any_exec(h, &marker_list_cloud());
    let local = contains_any_exec(h, &marker_list_local_first());
    if cloud && !local {
        findings.push(
            finding(Gate::Architecture, "Cloud coupling proposed without evaluating a local-first alternative."),
        );
    }
    let ghost after_arch = findings@.map_values(|f: Finding| f.view());
    assert(after_arch =~= after_tone + finding_if(architecture_trips(lower@), Gate::Architecture,
        architecture_message()));

    let destructive = contains_any_exec(h, &marker_list_destructive());
    let reversible = contains_any_exec(h, &marker_list_reversibility());
    let confirmed = contains_any_exec(h, &marker_list_confirmation());
    if destructive && !reversible {
        findings.push(
            finding(Gate::Ux, "Describes a destructive/irreversible action without mentioning a reversibility or undo path."),
        );
    }
    let ghost after_ux = findings@.map_values(|f: Finding| f.view());
    assert(after_ux =~= after_arch + finding_if(ux_trips(lower@), Gate::Ux, ux_message()));
    if destructive && !confirmed {
        findings.push(
            finding(Gate::Risk, "Proposes a destructive command without a confirmation step."),
        );
    }
    let r = CritiqueReport { findings };
    assert(r.view() =~= after_ux + finding_if(risk_trips(lower@), Gate::Risk, risk_message()));
    r
}

/// Runs every gate over a candidate final answer and collects findings.
/// The text is lowercased once (`str::to_lowercase`) and then scanned.
pub fn critique(text: &str) -> (r: CritiqueReport)
    ensures
        r.view() == critique_spec(unicode_lower(text@)),
{
    let lower = to_lowercase(text);
    critique_lowered(lower.as_str())
}

/// Findings always come out in gate order (tone, architecture, UX,
/// risk), with at most one finding per gate.
pub proof fn critique_findings_in_gate_order(lower: Seq<char>)
    ensures
        forall|i: int, j: int|
            0 <= i < j < critique_spec(lower).len() ==> gate_rank(#[trigger] critique_spec(
                lower,
            )[i].0) < gate_rank(#[trigger] critique_spec(lower)[j].0),
{
    let t = tone_findings(lower);
    let a = finding_if(architecture_trips(lower), Gate::Architecture, architecture_message());
    let u = finding_if(ux_trips(lower), Gate::Ux, ux_message());
    let k = finding_if(risk_trips(lower), Gate::Risk, risk_message());
    let s = critique_spec(lower);
    assert(s =~= t + a + u + k);
    assert forall|i: int| 0 <= i < s.len() implies gate_rank(#[trigger] s[i].0) == if i < t.len() {
        0int
    } else if i < t.len() + a.len() {
        1int
    } else if i < t.len() + a.len() + u.len() {
        2int
    } else {
        3int
    } by {
        if i < t.len() {
            assert(s[i] == t[i]);
        } else if i < t.len() + a.len() {
            assert(s[i] == a[i - t.len()]);
        } else if i < t.len() + a.len() + u.len() {
            assert(s[i] == u[i - t.len() - a.len()]);
        } else {
            assert(s[i] == k[i - t.len() - a.len() - u.len()]);
        }
    }
}

/// A report has a risk finding exactly when the text names a destructive
/// action and no confirmation step; the UX gate fires exactly when it
/// names a destructive action and no reversibility path.
pub proof fn critique_risk_and_ux_gates(lower: Seq<char>)
    ensures
        (exists|i: int| 0 <= i < critique_spec(lower).len() && #[trigger] critique_spec(lower)[i].0
            == Gate::Risk) <==> risk_trips(lower),
        (exists|i: int| 0 <= i < critique_spec(lower).len() && #[trigger] critique_spec(lower)[i].0
            == Gate::Ux) <==> ux_trips(lower),
        (exists|i: int| 0 <= i < critique_spec(lower).len() && #[trigger] critique_spec(lower)[i].0
            == Gate::Architecture) <==> architecture_trips(lower),
{
    let t = tone_findings(lower);
    let a = finding_if(architecture_trips(lower), Gate::Architecture, architecture_message());
    let u = finding_if(ux_trips(lower), Gate::Ux, ux_message());
    let k = finding_if(risk_trips(lower), Gate::Risk, risk_message());
    let s = critique_spec(lower);
    assert(s =~= t + a + u + k);
    critique_findings_in_gate_order(lower);
    assert forall|i: int| 0 <= i < t.len() implies #[trigger] t[i].0 == Gate::Tone by {}
    if risk_trips(lower) {
        assert(s[s.len() - 1].0 == Gate::Risk);
    }
    if ux_trips(lower) {
        assert(s[(t.len() + a.len()) as int].0 == Gate::Ux);
    }
    if architecture_trips(lower) {
        assert(s[t.len() as int].0 == Gate::Architecture);
    }
    assert forall|i: int| 0 <= i < s.len() implies (#[trigger] s[i]).0 == if i < t.len() {
        t[i].0
    } else if i < t.len() + a.len() {
        a[i - t.len()].0
    } else if i < t.len() + a.len() + u.len() {
        u[i - t.len() - a.len()].0
    } else {
        k[i - t.len() - a.len() - u.len()].0
    } by {}
}

proof fn lemma_first_hit_from(hay: Seq<char>, ms: Seq<Seq<char>>, i: int)
    requires
        0 <= i,
    ensures
        first_hit_from_is_some(hay, ms, i) <==> exists|k: int| i <= k < ms.len() && contains_seq(hay, #[trigger] ms[k]),
    decreases ms.len() - i,
{
    if i < ms.len() {
        lemma_first_hit_from(hay, ms, i + 1);
        if exists|k: int| i <= k < ms.len() && contains_seq(hay, #[trigger] ms[k]) {
            let k = choose|k: int| i <= k < ms.len() && contains_seq(hay, #[trigger] ms[k]);
            if k > i && !contains_seq(hay, ms[i]) {
                assert(i + 1 <= k);
            }
        }
    }
}

spec fn first_hit_from_is_some(hay: Seq<char>, ms: Seq<Seq<char>>, i: int) -> bool {
    crate::text::first_hit_from(hay, ms, i) is Some
}

/// Some marker of the list occurs in the text.
pub open spec fn names_any(hay: Seq<char>, ms: Seq<Seq<char>>) -> bool {
    exists|k: int| 0 <= k < ms.len() && contains_seq(hay, #[trigger] ms[k])
}

/// Some marker of the list occurs in the text as a whole word or phrase.
pub open spec fn names_any_word(hay: Seq<char>, ms: Seq<Seq<char>>) -> bool {
    exists|k: int| 0 <= k < ms.len() && contains_word(hay, #[trigger] ms[k])
}

/// Some finding in the list comes from gate `g`.
pub open spec fn has_gate(findings: Seq<(Gate, Seq<char>)>, g: Gate) -> bool {
    exists|i: int| 0 <= i < findings.len() && (#[trigger] findings[i]).0 == g
}

/// What the UX and risk gates answer for a lowercased answer, in terms of
/// the marker lists themselves. The risk gate fires exactly when the text
/// names a destructive command (`rm -rf`, `drop table`, `delete from`,
/// `force push`, `git push --force`, `git reset --hard`, `truncate`,
/// `format the disk`, `wipe`) and no confirmation step (`confirm`, `are
/// you sure`, `before proceeding`, `with your approval`, `ask first`,
/// `double-check`, `double check`), whether or not it names a way back.
/// The UX gate fires exactly when it names a destructive command and no
/// way back (`revers`, `undo`, `backup`, `restore`, `rollback`, `roll
/// back`, `recover`, `dry run`, `dry-run`), whether or not it asks for
/// confirmation.
pub proof fn destructive_answers_need_confirmation_and_a_way_back(lower: Seq<char>)
    ensures
        has_gate(critique_spec(lower), Gate::Risk) <==> (names_any(
            lower,
            seq![
                "rm -rf"@, "drop table"@, "delete from"@, "force push"@, "git push --force"@,
                "git reset --hard"@, "truncate"@, "format the disk"@, "wipe"@,
            ],
        ) && !names_any(
            lower,
            seq![
                "confirm"@, "are you sure"@, "before proceeding"@, "with your approval"@,
                "ask first"@, "double-check"@, "double check"@,
            ],
        )),
        has_gate(critique_spec(lower), Gate::Ux) <==> (names_any(
            lower,
            seq![
                "rm -rf"@, "drop table"@, "delete from"@, "force push"@, "git push --force"@,
                "git reset --hard"@, "truncate"@, "format the disk"@, "wipe"@,
            ],
        ) && !names_any(
            lower,
            seq![
                "revers"@, "undo"@, "backup"@, "restore"@, "rollback"@, "roll back"@,
                "recover"@, "dry run"@, "dry-run"@,
            ],
        )),
{
    critique_risk_and_ux_gates(lower);
    lemma_first_hit_from(lower, destructive_markers(), 0);
    lemma_first_hit_from(lower, confirmation_markers(), 0);
    lemma_first_hit_from(lower, reversibility_markers(), 0);
}

proof fn lemma_first_word_hit_from(hay: Seq<char>, ms: Seq<Seq<char>>, i: int)
    requires
        0 <= i,
    ensures
        match first_word_hit_from(hay, ms, i) {
            Some(k) => i <= k < ms.len() && contains_word(hay, ms[k]) && forall|j: int|
                i <= j < k ==> !contains_word(hay, #[trigger] ms[j]),
            None => forall|j: int| i <= j < ms.len() ==> !contains_word(hay, #[trigger] ms[j]),
        },
    decreases ms.len() - i,
{
    if i < ms.len() {
        lemma_first_word_hit_from(hay, ms, i + 1);
    }
}

/// What the tone gate answers, in terms of its marker list: it fires
/// exactly when the text holds, as a whole word or phrase, one of
/// `world-class`, `cutting-edge`, `best-in-class`, `revolutionary`,
/// `game-changer`, `game changer`, `synergy`, `seamlessly`, `unparalleled`,
/// `next-generation`, `leverage our`, `supercharge`; its one finding then
/// quotes the first of them, in that order, that the text holds.
pub proof fn inflated_language_is_quoted_back(lower: Seq<char>)
    ensures
        has_gate(critique_spec(lower), Gate::Tone) <==> names_any_word(
            lower,
            seq![
                "world-class"@, "cutting-edge"@, "best-in-class"@, "revolutionary"@,
                "game-changer"@, "game changer"@, "synergy"@, "seamlessly"@, "unparalleled"@,
                "next-generation"@, "leverage our"@, "supercharge"@,
            ],
        ),
        forall|i: int|
            0 <= i < critique_spec(lower).len() && (#[trigger] critique_spec(lower)[i]).0
                == Gate::Tone ==> i == 0 && exists|k: int|
                0 <= k < 12 && critique_spec(lower)[i].1 == tone_message(marketing_markers()[k])
                    && contains_word(lower, marketing_markers()[k]) && forall|j: int|
                    0 <= j < k ==> !contains_word(lower, #[trigger] marketing_markers()[j]),
{
    let t = tone_findings(lower);
    let a = finding_if(architecture_trips(lower), Gate::Architecture, architecture_message());
    let u = finding_if(ux_trips(lower), Gate::Ux, ux_message());
    let r = finding_if(risk_trips(lower), Gate::Risk, risk_message());
    let s = critique_spec(lower);
    assert(s =~= t + a + u + r);
    lemma_first_word_hit_from(lower, marketing_markers(), 0);
    assert(marketing_markers().len() == 12);
    assert forall|i: int| 0 <= i < s.len() && (#[trigger] s[i]).0 == Gate::Tone implies i < t.len() by {
        if i >= t.len() {
            if i < t.len() + a.len() {
                assert(s[i] == a[i - t.len()]);
            } else if i < t.len() + a.len() + u.len() {
                assert(s[i] == u[i - t.len() - a.len()]);
            } else {
                assert(s[i] == r[i - t.len() - a.len() - u.len()]);
            }
        }
    }
    if t.len() > 0 {
        assert(s[0] == t[0]);
    }
}

/// What the architecture gate answers, in terms of the marker lists
/// themselves: it fires exactly when the text names cloud coupling (`aws `,
/// `amazon s3`, `s3 bucket`, `google cloud`, `gcp `, `azure `, `in the
/// cloud`, `cloud-hosted`, `managed cloud`, `third-party api`) and no
/// local-first alternative (`local-first`, `local first`, `locally`,
/// `on-device`, `on device`, `self-host`, `self host`, `offline`, `no
/// cloud`).
pub proof fn cloud_answers_need_a_local_first_alternative(lower: Seq<char>)
    ensures
        has_gate(critique_spec(lower), Gate::Architecture) <==> (names_any(
            lower,
            seq![
                "aws "@, "amazon s3"@, "s3 bucket"@, "google cloud"@, "gcp "@, "azure "@,
                "in the cloud"@, "cloud-hosted"@, "managed cloud"@, "third-party api"@,
            ],
        ) && !names_any(
            lower,
            seq![
                "local-first"@, "local first"@, "locally"@, "on-device"@, "on device"@,
                "self-host"@, "self host"@, "offline"@, "no cloud"@,
            ],
        )),
{
    critique_risk_and_ux_gates(lower);
    lemma_first_hit_from(lower, cloud_markers(), 0);
    lemma_first_hit_from(lower, local_first_markers(), 0);
}

} // verus!
