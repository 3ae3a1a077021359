//! Agent runtime: request guardrails, run records, run identifiers, the
//! system prompt, the wall-clock guardrail and the decisions of the
//! tool-call loop.
//!
//! Every run is bounded by four caps (default / hard limit): steps
//! (8 / 32), tokens (4096 / 32768), seconds (60 / 600) and tool calls
//! per step (4 / 8). Caller values above the hard limit are clamped.

use vstd::prelude::*;
use vstd::string::StringSliceAdditionalSpecFns;
use crate::clock::{elapsed_secs, instant_now, unix_now_secs_checked};
use crate::swarm::{sha256_bytes, sha256_of};
use crate::text::{decimal, digit, hex_chars, hex_of, lex_lt, push_char, push_str, push_u64,
    str_eq, string_from_chars};

verus! {

pub const DEFAULT_MAX_STEPS: u32 = 8;
pub const HARD_MAX_STEPS: u32 = 32;
pub const DEFAULT_MAX_TOKENS: u32 = 4096;
pub const HARD_MAX_TOKENS: u32 = 32768;
pub const DEFAULT_MAX_SECONDS: u32 = 60;
pub const HARD_MAX_SECONDS: u32 = 600;
pub const DEFAULT_MAX_TOOL_CALLS_PER_STEP: u32 = 4;
pub const HARD_MAX_TOOL_CALLS_PER_STEP: u32 = 8;

/// The body a caller posts to start an agent run.
#[derive(Debug, Clone)]
pub struct AgentRunRequest {
    pub goal: String,
    /// Allow-list of tool names the model may call.
    pub tools: Vec<String>,
    pub max_steps: u32,
    pub max_tokens: u32,
    pub max_seconds: u32,
    pub max_tool_calls_per_step: u32,
    /// Model id; `"auto"` means the upstream's preferred model.
    pub model: String,
}

/// Default step cap.
pub fn default_max_steps() -> (r: u32)
    ensures
        r == DEFAULT_MAX_STEPS,
{
    DEFAULT_MAX_STEPS
}

/// Default token cap.
pub fn default_max_tokens() -> (r: u32)
    ensures
        r == DEFAULT_MAX_TOKENS,
{
    DEFAULT_MAX_TOKENS
}

/// Default wall-clock cap, in seconds.
pub fn default_max_seconds() -> (r: u32)
    ensures
        r == DEFAULT_MAX_SECONDS,
{
    DEFAULT_MAX_SECONDS
}

/// Default per-step tool-call cap.
pub fn default_max_tool_calls_per_step() -> (r: u32)
    ensures
        r == DEFAULT_MAX_TOOL_CALLS_PER_STEP,
{
    DEFAULT_MAX_TOOL_CALLS_PER_STEP
}

/// Default model id.
pub fn default_model() -> (r: String)
    ensures
        r@ == "auto"@,
{
    crate::text::owned("auto")
}

/// `x` limited to the range `lo..=hi` (upper bound first, as `min` then `max`).
pub open spec fn clamp(x: u32, lo: u32, hi: u32) -> u32 {
    let capped = if x <= hi {
        x
    } else {
        hi
    };
    if capped >= lo {
        capped
    } else {
        lo
    }
}

fn clamp_exec(x: u32, lo: u32, hi: u32) -> (r: u32)
    ensures
        r == clamp(x, lo, hi),
{
    let capped = if x <= hi {
        x
    } else {
        hi
    };
    if capped >= lo {
        capped
    } else {
        lo
    }
}

impl AgentRunRequest {
    /// Clamps caller-supplied caps to the hard limits, with floors of one
    /// step, 64 tokens, one second and one tool call per step.
    pub fn clamped(self) -> (r: Self)
        ensures
            r.goal == self.goal,
            r.tools == self.tools,
            r.model == self.model,
            r.max_steps == clamp(self.max_steps, 1, HARD_MAX_STEPS),
            r.max_tokens == clamp(self.max_tokens, 64, HARD_MAX_TOKENS),
            r.max_seconds == clamp(self.max_seconds, 1, HARD_MAX_SECONDS),
            r.max_tool_calls_per_step == clamp(
                self.max_tool_calls_per_step,
                1,
                HARD_MAX_TOOL_CALLS_PER_STEP,
            ),
    {
        let mut s = self;
        s.max_steps = clamp_exec(s.max_steps, 1, HARD_MAX_STEPS);
        s.max_tokens = clamp_exec(s.max_tokens, 64, HARD_MAX_TOKENS);
        s.max_seconds = clamp_exec(s.max_seconds, 1, HARD_MAX_SECONDS);
        s.max_tool_calls_per_step = clamp_exec(
            s.max_tool_calls_per_step,
            1,
            HARD_MAX_TOOL_CALLS_PER_STEP,
        );
        s
    }
}

/// Clamping is idempotent, and a clamped cap always lies within its
/// floor and hard limit.
pub proof fn clamp_is_idempotent_and_bounded(x: u32, lo: u32, hi: u32)
    requires
        lo <= hi,
    ensures
        clamp(clamp(x, lo, hi), lo, hi) == clamp(x, lo, hi),
        lo <= clamp(x, lo, hi) <= hi,
        lo <= x <= hi ==> clamp(x, lo, hi) == x,
{
}

/// Why a run stopped.
#[derive(Debug, Clone, Copy, PartialEq, Eq, Structural)]
pub enum StoppedBecause {
    FinalAnswer,
    MaxSteps,
    MaxTokens,
    MaxSeconds,
    ToolError,
    DlpBlocked,
    ModelDoesNotSupportToolUse,
}

/// Per-step record returned to the caller.
#[derive(Debug, Clone)]
pub enum StepRecord {
    /// The model produced a turn: tool calls, or a final answer.
    ModelMessage { step: u32, content: String, tool_calls_made: u32 },
    /// A tool was invoked; `args_hash` is a SHA-256 prefix of its
    /// arguments, `result_chars` the length of its result.
    ToolCall {
        step: u32,
        tool: String,
        args_hash: String,
        result_chars: usize,
        error: Option<String>,
    },
}

/// What the daemon returns when a run completes.
#[derive(Debug, Clone)]
pub struct AgentRunResponse {
    pub final_answer: String,
    pub steps: Vec<StepRecord>,
    pub stopped_because: StoppedBecause,
    pub tokens_used: u32,
    pub run_id: String,
}

/// The first `chars` characters of the lowercase hex rendering of `bytes`.
pub open spec fn hex_prefix_spec(bytes: Seq<u8>, chars: nat) -> Seq<char> {
    if chars <= hex_of(bytes).len() {
        hex_of(bytes).take(chars as int)
    } else {
        hex_of(bytes)
    }
}

/// Lowercase hex of `bytes`, cut to at most `chars` characters.
pub fn hex_prefix(bytes: &[u8], chars: usize) -> (s: String)
    ensures
        s@ == hex_prefix_spec(bytes@, chars as nat),
{
    let hex = hex_chars(bytes);
    let n = if chars <= hex.len() {
        chars
    } else {
        hex.len()
    };
    let mut out: Vec<char> = Vec::new();
    let mut i: usize = 0;
    while i < n
        invariant
            n <= hex@.len(),
            i <= n,
            out@ == hex@.take(i as int),
        decreases n - i,
    {
        out.push(hex[i]);
        assert(hex@.take(i + 1) =~= hex@.take(i as int).push(hex@[i as int]));
        i += 1;
    }
    assert(hex@.take(hex@.len() as int) =~= hex@);
    string_from_chars(out.as_slice())
}

/// SHA-256 prefix (16 hex characters) of a value's canonical JSON text.
/// Used for goal and argument hashes so records don't leak content.
pub fn short_hash(canonical_json: &str) -> (s: String)
    ensures
        s@ == hex_prefix_spec(sha256_of(canonical_json.spec_bytes()), 16),
        s@.len() == 16,
{
    let digest = sha256_bytes(canonical_json.as_bytes());
    proof {
        crate::text::lemma_hex_of_len(digest@);
    }
    hex_prefix(&digest, 16)
}

/// Eight bytes of cryptographic randomness (`rand::thread_rng`). Nothing
/// is stated about the bytes.
#[verifier::external_body]
fn random_id_bytes() -> [u8; 8] {
    let mut buf = [0u8; 8];
    rand::RngCore::fill_bytes(&mut rand::thread_rng(), &mut buf);
    buf
}

/// A per-run identifier: 16 hex characters of cryptographic randomness.
pub fn new_run_id() -> (s: String)
    ensures
        exists|b: Seq<u8>| b.len() == 8 && s@ == hex_of(b),
        s@.len() == 16,
{
    let buf = random_id_bytes();
    let s = hex_prefix(&buf, 16);
    assert(hex_of(buf@).len() == 16) by {
        crate::text::lemma_hex_of_len(buf@);
    }
    s
}

/// The set of tool names the runtime recognises.
pub struct ToolSet {
    pub names: Vec<&'static str>,
}

impl ToolSet {
    /// The names as character sequences.
    pub open spec fn view(&self) -> Seq<Seq<char>> {
        self.names@.map_values(|s: &str| s@)
    }

    /// Whether `name` is one of the recognised tools.
    pub fn contains(&self, name: &str) -> (r: bool)
        ensures
            r == self.view().contains(name@),
    {
        let mut i: usize = 0;
        while i < self.names.len()
            invariant
                i <= self.names@.len(),
                forall|j: int| 0 <= j < i ==> self.names@[j]@ != name@,
            decreases self.names@.len() - i,
        {
            if str_eq(self.names[i], name) {
                assert(self.view()[i as int] == name@);
                return true;
            }
            i += 1;
        }
        assert forall|j: int| 0 <= j < self.view().len() implies self.view()[j] != name@ by {
            assert(self.view()[j] == self.names@[j]@);
        }
        false
    }
}

/// The tools the runtime recognises.
pub open spec fn known_tool_names() -> Seq<Seq<char>> {
    seq!["web_fetch"@, "search_memory"@, "list_models"@, "read_file"@, "list_dir"@]
}

/// Returns the set of tool names recognised by the runtime.
pub fn known_tools() -> (t: ToolSet)
    ensures
        t.view() == known_tool_names(),
{
    let t = ToolSet {
        names: vec!["web_fetch", "search_memory", "list_models", "read_file", "list_dir"],
    };
    assert(t.view() =~= known_tool_names());
    t
}

/// Whether a list of names holds `name`.
pub fn names_contain(names: &Vec<String>, name: &str) -> (r: bool)
    ensures
        r == crate::text::string_views(names@).contains(name@),
{
    let mut i: usize = 0;
    while i < names.len()
        invariant
            i <= names@.len(),
            forall|j: int| 0 <= j < i ==> names@[j]@ != name@,
        decreases names@.len() - i,
    {
        if str_eq(names[i].as_str(), name) {
            assert(crate::text::string_views(names@)[i as int] == name@);
            return true;
        }
        i += 1;
    }
    assert forall|j: int| 0 <= j < crate::text::string_views(names@).len() implies crate::text::string_views(
        names@,
    )[j] != name@ by {
        assert(crate::text::string_views(names@)[j] == names@[j]@);
    }
    false
}

/// What the model is told about one tool: its name, a description and
/// the JSON schema of its arguments (as JSON text).
#[derive(Debug, Clone, Copy)]
pub struct ToolSpec {
    pub name: &'static str,
    pub description: &'static str,
    pub parameters: &'static str,
}

/// `n` when it is allowed, else nothing.
pub open spec fn keep_if_allowed(n: Seq<char>, allowed: Seq<Seq<char>>) -> Seq<Seq<char>> {
    if allowed.contains(n) {
        seq![n]
    } else {
        Seq::empty()
    }
}

/// The tools advertised to the model: the allowed ones among the
/// recognised tools, in the registry's order.
pub open spec fn advertised(allowed: Seq<Seq<char>>) -> Seq<Seq<char>> {
    keep_if_allowed("web_fetch"@, allowed) + keep_if_allowed("search_memory"@, allowed)
        + keep_if_allowed("list_models"@, allowed) + keep_if_allowed("read_file"@, allowed)
        + keep_if_allowed("list_dir"@, allowed)
}

/// A tool's place in the registry (`web_fetch`, `search_memory`,
/// `list_models`, `read_file`, `list_dir`); 5 for any other name.
pub open spec fn registry_rank(t: Seq<char>) -> int {
    if t == "web_fetch"@ {
        0
    } else if t == "search_memory"@ {
        1
    } else if t == "list_models"@ {
        2
    } else if t == "read_file"@ {
        3
    } else if t == "list_dir"@ {
        4
    } else {
        5
    }
}

proof fn lemma_tool_names_distinct()
    ensures
        "web_fetch"@ != "search_memory"@,
        "web_fetch"@ != "list_models"@,
        "web_fetch"@ != "read_file"@,
        "web_fetch"@ != "list_dir"@,
        "search_memory"@ != "list_models"@,
        "search_memory"@ != "read_file"@,
        "search_memory"@ != "list_dir"@,
        "list_models"@ != "read_file"@,
        "list_models"@ != "list_dir"@,
        "read_file"@ != "list_dir"@,
{
    reveal_strlit("web_fetch");
    reveal_strlit("search_memory");
    reveal_strlit("list_models");
    reveal_strlit("read_file");
    reveal_strlit("list_dir");
    assert("web_fetch"@.len() != "search_memory"@.len());
    assert("web_fetch"@.len() != "list_models"@.len());
    assert("web_fetch"@[0] != "read_file"@[0]);
    assert("web_fetch"@.len() != "list_dir"@.len());
    assert("search_memory"@.len() != "list_models"@.len());
    assert("search_memory"@.len() != "read_file"@.len());
    assert("search_memory"@.len() != "list_dir"@.len());
    assert("list_models"@.len() != "read_file"@.len());
    assert("list_models"@.len() != "list_dir"@.len());
    assert("read_file"@.len() != "list_dir"@.len());
}

/// The model is offered exactly the allowed tools the runtime knows: each
/// registry tool is advertised precisely when the allow-list names it,
/// whatever else the list holds; nothing outside the registry is ever
/// advertised; and each advertised tool appears once, in registry order.
pub proof fn advertised_tools_follow_the_allow_list(allowed: Seq<Seq<char>>)
    ensures
        forall|t: Seq<char>|
            known_tool_names().contains(t) ==> (advertised(allowed).contains(t) <==> allowed.contains(t)),
        forall|t: Seq<char>| advertised(allowed).contains(t) ==> known_tool_names().contains(t),
        forall|i: int, j: int|
            0 <= i < j < advertised(allowed).len() ==> registry_rank(advertised(allowed)[i])
                < registry_rank(advertised(allowed)[j]),
{
    lemma_tool_names_distinct();
    let k = known_tool_names();
    assert(k[0] == "web_fetch"@ && k[1] == "search_memory"@ && k[2] == "list_models"@ && k[3]
        == "read_file"@ && k[4] == "list_dir"@);
    let a = advertised(allowed);
    let p0 = keep_if_allowed("web_fetch"@, allowed);
    let p1 = keep_if_allowed("search_memory"@, allowed);
    let p2 = keep_if_allowed("list_models"@, allowed);
    let p3 = keep_if_allowed("read_file"@, allowed);
    let p4 = keep_if_allowed("list_dir"@, allowed);
    assert(a == p0 + p1 + p2 + p3 + p4);
    assert forall|i: int| 0 <= i < a.len() implies registry_rank(#[trigger] a[i]) == if i < p0.len() {
        0int
    } else if i < p0.len() + p1.len() {
        1int
    } else if i < p0.len() + p1.len() + p2.len() {
        2int
    } else if i < p0.len() + p1.len() + p2.len() + p3.len() {
        3int
    } else {
        4int
    } by {
        if i < p0.len() {
            assert(a[i] == p0[i]);
        } else if i < p0.len() + p1.len() {
            assert(a[i] == p1[i - p0.len()]);
        } else if i < p0.len() + p1.len() + p2.len() {
            assert(a[i] == p2[i - p0.len() - p1.len()]);
        } else if i < p0.len() + p1.len() + p2.len() + p3.len() {
            assert(a[i] == p3[i - p0.len() - p1.len() - p2.len()]);
        } else {
            assert(a[i] == p4[i - p0.len() - p1.len() - p2.len() - p3.len()]);
        }
    }
    assert forall|t: Seq<char>| a.contains(t) implies k.contains(t) by {
        let i = choose|i: int| 0 <= i < a.len() && a[i] == t;
        assert(registry_rank(a[i]) < 5);
        if registry_rank(t) == 0 {
            assert(k[0] == t);
        } else if registry_rank(t) == 1 {
            assert(k[1] == t);
        } else if registry_rank(t) == 2 {
            assert(k[2] == t);
        } else if registry_rank(t) == 3 {
            assert(k[3] == t);
        } else {
            assert(k[4] == t);
        }
    }
    assert forall|t: Seq<char>| k.contains(t) implies (a.contains(t) <==> allowed.contains(t)) by {
        let j = choose|j: int| 0 <= j < k.len() && k[j] == t;
        if allowed.contains(t) {
            if j == 0 {
                assert(a[0] == t);
            } else if j == 1 {
                assert(a[p0.len() as int] == t);
            } else if j == 2 {
                assert(a[(p0.len() + p1.len()) as int] == t);
            } else if j == 3 {
                assert(a[(p0.len() + p1.len() + p2.len()) as int] == t);
            } else {
                assert(a[(p0.len() + p1.len() + p2.len() + p3.len()) as int] == t);
            }
        } else {
            if a.contains(t) {
                let i = choose|i: int| 0 <= i < a.len() && a[i] == t;
                assert(registry_rank(t) == j);
            }
        }
    }
}

/// The names of some tool specs.
pub open spec fn spec_names(s: Seq<ToolSpec>) -> Seq<Seq<char>> {
    s.map_values(|t: ToolSpec| t.name@)
}

fn web_fetch_spec() -> (t: ToolSpec)
    ensures
        t.name@ == "web_fetch"@,
{
    ToolSpec {
        name: "web_fetch",
        description: "Fetch a URL and return its plain-text body. Private IPs are blocked.",
        parameters: "{\"type\":\"object\",\"properties\":{\"url\":{\"type\":\"string\",\"description\":\"Absolute HTTP/HTTPS URL.\"}},\"required\":[\"url\"]}",
    }
}

fn search_memory_spec() -> (t: ToolSpec)
    ensures
        t.name@ == "search_memory"@,
{
    ToolSpec {
        name: "search_memory",
        description: "Search private memory for relevant past-chat summaries.",
        parameters: "{\"type\":\"object\",\"properties\":{\"query\":{\"type\":\"string\",\"description\":\"Free-text query.\"},\"limit\":{\"type\":\"integer\",\"default\":5}},\"required\":[\"query\"]}",
    }
}

fn list_models_spec() -> (t: ToolSpec)
    ensures
        t.name@ == "list_models"@,
{
    ToolSpec {
        name: "list_models",
        description: "List models the daemon's configured upstreams claim to serve.",
        parameters: "{\"type\":\"object\",\"properties\":{}}",
    }
}

fn read_file_spec() -> (t: ToolSpec)
    ensures
        t.name@ == "read_file"@,
{
    ToolSpec {
        name: "read_file",
        description: "Read a UTF-8 text file from the operator's allow-listed roots. The path must be absolute and inside one of the operator's configured roots; paths outside the sandbox or matching deny patterns (.env, id_rsa, credentials, etc.) are refused.",
        parameters: "{\"type\":\"object\",\"properties\":{\"path\":{\"type\":\"string\",\"description\":\"Absolute path inside one of the operator's allow-listed roots.\"}},\"required\":[\"path\"]}",
    }
}

fn list_dir_spec() -> (t: ToolSpec)
    ensures
        t.name@ == "list_dir"@,
{
    ToolSpec {
        name: "list_dir",
        description: "List the entries of a directory within the operator's allow-listed roots. Returns sorted entries with kind (file/dir/symlink) and size for files. Capped at 500 entries; larger directories return the first 500 with a truncated flag.",
        parameters: "{\"type\":\"object\",\"properties\":{\"path\":{\"type\":\"string\",\"description\":\"Absolute directory path inside an allow-listed root.\"}},\"required\":[\"path\"]}",
    }
}

fn push_if_allowed(out: &mut Vec<ToolSpec>, allowed: &Vec<String>, t: ToolSpec)
    ensures
        spec_names(final(out)@) == spec_names(old(out)@) + keep_if_allowed(
            t.name@,
            crate::text::string_views(allowed@),
        ),
{
    let ghost before = out@;
    if names_contain(allowed, t.name) {
        out.push(t);
        assert(spec_names(out@) =~= spec_names(before) + seq![t.name@]);
    } else {
        assert(spec_names(out@) =~= spec_names(before) + Seq::<Seq<char>>::empty());
    }
}

/// The tool descriptions sent to the model for an allow-list: each
/// allowed recognised tool once, in registry order.
pub fn tool_definitions(allowed: &Vec<String>) -> (r: Vec<ToolSpec>)
    ensures
        spec_names(r@) == advertised(crate::text::string_views(allowed@)),
{
    let mut out: Vec<ToolSpec> = Vec::new();
    assert(spec_names(out@) =~= Seq::<Seq<char>>::empty());
    push_if_allowed(&mut out, allowed, web_fetch_spec());
    push_if_allowed(&mut out, allowed, search_memory_spec());
    push_if_allowed(&mut out, allowed, list_models_spec());
    push_if_allowed(&mut out, allowed, read_file_spec());
    push_if_allowed(&mut out, allowed, list_dir_spec());
    assert(spec_names(out@) =~= advertised(crate::text::string_views(allowed@)));
    out
}

/// A tool call the runtime will carry out, with its argument.
#[derive(Debug, Clone, PartialEq, Eq)]
pub enum ToolRequest {
    WebFetch(String),
    SearchMemory,
    ListModels,
    ReadFile(String),
    ListDir(String),
}

/// The message for a tool name outside the registry.
pub open spec fn unknown_tool_message(name: Seq<char>) -> Seq<char> {
    "unknown tool: "@ + name + " (registry guard should have caught this)"@
}

/// What a tool call asks for, from its name and its `url` / `path` string
/// arguments (`None` when missing or not a string); the error text when
/// the argument it needs is missing or the tool is unknown.
pub fn tool_request(name: &str, url: Option<String>, path: Option<String>) -> (r: Result<
    ToolRequest,
    String,
>)
    ensures
        name@ == "web_fetch"@ ==> match url {
            Some(u) => r == Ok::<ToolRequest, String>(ToolRequest::WebFetch(u)),
            None => (r matches Err(e) && e@ == "web_fetch: missing `url` argument"@),
        },
        name@ == "search_memory"@ ==> r == Ok::<ToolRequest, String>(ToolRequest::SearchMemory),
        name@ == "list_models"@ ==> r == Ok::<ToolRequest, String>(ToolRequest::ListModels),
        name@ == "read_file"@ ==> match path {
            Some(p) => r == Ok::<ToolRequest, String>(ToolRequest::ReadFile(p)),
            None => (r matches Err(e) && e@ == "read_file: missing `path` argument"@),
        },
        name@ == "list_dir"@ ==> match path {
            Some(p) => r == Ok::<ToolRequest, String>(ToolRequest::ListDir(p)),
            None => (r matches Err(e) && e@ == "list_dir: missing `path` argument"@),
        },
        !known_tool_names().contains(name@) ==> (r matches Err(e) && e@ == unknown_tool_message(
            name@,
        )),
{
    proof {
        reveal_strlit("web_fetch");
        reveal_strlit("search_memory");
        reveal_strlit("list_models");
        reveal_strlit("read_file");
        reveal_strlit("list_dir");
        assert("web_fetch"@.len() == 9 && "search_memory"@.len() == 13 && "list_models"@.len()
            == 11 && "read_file"@.len() == 9 && "list_dir"@.len() == 8);
        assert("web_fetch"@[0] != "read_file"@[0]);
    }
    if str_eq(name, "web_fetch") {
        match url {
            Some(u) => Ok(ToolRequest::WebFetch(u)),
            None => Err(crate::text::owned("web_fetch: missing `url` argument")),
        }
    } else if str_eq(name, "search_memory") {
        Ok(ToolRequest::SearchMemory)
    } else if str_eq(name, "list_models") {
        Ok(ToolRequest::ListModels)
    } else if str_eq(name, "read_file") {
        match path {
            Some(p) => Ok(ToolRequest::ReadFile(p)),
            None => Err(crate::text::owned("read_file: missing `path` argument")),
        }
    } else if str_eq(name, "list_dir") {
        match path {
            Some(p) => Ok(ToolRequest::ListDir(p)),
            None => Err(crate::text::owned("list_dir: missing `path` argument")),
        }
    } else {
        assert(!known_tool_names().contains(name@)) by {
            assert(known_tool_names()[0] == "web_fetch"@);
            assert(known_tool_names()[1] == "search_memory"@);
            assert(known_tool_names()[2] == "list_models"@);
            assert(known_tool_names()[3] == "read_file"@);
            assert(known_tool_names()[4] == "list_dir"@);
        }
        let mut s = crate::text::owned("unknown tool: ");
        push_str(&mut s, name);
        push_str(&mut s, " (registry guard should have caught this)");
        Err(s)
    }
}

/// What `search_memory` answers until the memory store reaches the run.
pub fn search_memory_placeholder() -> (s: &'static str)
    ensures
        s@ == "(search_memory not yet wired into RunContext; results will appear in a follow-up slice)"@,
{
    "(search_memory not yet wired into RunContext; results will appear in a follow-up slice)"
}

/// The text a `read_file` result gives the model: the content, after a
/// note when it was cut at the cap; the error label prefixed with the
/// tool's name otherwise.
pub open spec fn read_file_reply(o: crate::agent_fs::ReadFileOutcome) -> (Seq<char>, Option<Seq<char>>) {
    match o {
        crate::agent_fs::ReadFileOutcome::Success { content, bytes_read, truncated } => (
            if truncated {
                "(truncated to "@ + decimal(bytes_read as nat)
                    + " bytes; file is larger than the configured cap)\n"@ + content@
            } else {
                content@
            },
            None,
        ),
        crate::agent_fs::ReadFileOutcome::Failure(e) => (
            Seq::empty(),
            Some("read_file: "@ + crate::agent_fs::error_label(e)),
        ),
    }
}

/// Renders a `read_file` outcome as the tool's output and error.
pub fn read_file_result(o: crate::agent_fs::ReadFileOutcome) -> (r: (String, Option<String>))
    ensures
        r.0@ == read_file_reply(o).0,
        match read_file_reply(o).1 {
            Some(e) => r.1 matches Some(x) && x@ == e,
            None => r.1 is None,
        },
{
    match o {
        crate::agent_fs::ReadFileOutcome::Success { content, bytes_read, truncated } => {
            if truncated {
                let mut s = crate::text::owned("(truncated to ");
                push_u64(&mut s, bytes_read as u64);
                push_str(&mut s, " bytes; file is larger than the configured cap)\n");
                push_str(&mut s, content.as_str());
                (s, None)
            } else {
                (content, None)
            }
        },
        crate::agent_fs::ReadFileOutcome::Failure(e) => {
            let mut s = crate::text::owned("read_file: ");
            let l = e.label();
            push_str(&mut s, l.as_str());
            (String::new(), Some(s))
        },
    }
}

/// The error a sandboxed tool reports for a refusal: the tool's name and
/// the refusal's label.
pub fn tool_refusal(tool: &str, e: &crate::agent_fs::ReadFileError) -> (r: String)
    ensures
        r@ == tool@ + ": "@ + crate::agent_fs::error_label(*e),
{
    let mut s = crate::text::owned(tool);
    push_str(&mut s, ": ");
    let l = e.label();
    push_str(&mut s, l.as_str());
    s
}

/// The text a `web_fetch` result gives the model: the body, or a note on
/// a body that is not text.
pub open spec fn web_fetch_reply(content: Seq<char>, bytes: nat, content_type: Seq<char>, status: nat) -> Seq<
    char,
> {
    if content.len() == 0 {
        "(non-text content: "@ + decimal(bytes) + " bytes, content-type: "@ + content_type
            + ", status: "@ + decimal(status) + ")"@
    } else {
        content
    }
}

/// Renders a fetched page as the tool's output.
pub fn web_fetch_result(content: String, bytes: u64, content_type: &str, status: u16) -> (r: String)
    ensures
        r@ == web_fetch_reply(content@, bytes as nat, content_type@, status as nat),
{
    if crate::text::chars_of(content.as_str()).len() == 0 {
        let mut s = crate::text::owned("(non-text content: ");
        push_u64(&mut s, bytes);
        push_str(&mut s, " bytes, content-type: ");
        push_str(&mut s, content_type);
        push_str(&mut s, ", status: ");
        push_u64(&mut s, status as u64);
        push_str(&mut s, ")");
        s
    } else {
        content
    }
}

/// The upstream's model list URL for `list_models`.
pub fn list_models_url(upstream: &str) -> (r: String)
    ensures
        r@ == crate::upstream::trim_trailing(upstream@, '/') + "/v1/models"@,
{
    let mut s = crate::upstream::trim_trailing_slashes(upstream);
    push_str(&mut s, "/v1/models");
    s
}

// ── Calendar ────────────────────────────────────────────────────────

/// A Gregorian leap year.
pub open spec fn is_leap(y: int) -> bool {
    y % 4 == 0 && (y % 100 != 0 || y % 400 == 0)
}

/// Days in year `y`.
pub open spec fn year_len(y: int) -> int {
    if is_leap(y) {
        366
    } else {
        365
    }
}

/// Days in month `m` (1-based) of year `y`.
pub open spec fn month_len(y: int, m: int) -> int {
    if m == 2 {
        if is_leap(y) {
            29
        } else {
            28
        }
    } else if m == 4 || m == 6 || m == 9 || m == 11 {
        30
    } else {
        31
    }
}

/// Leap years in the years `1..y`.
pub open spec fn leaps_before(y: int) -> int {
    (y - 1) / 4 - (y - 1) / 100 + (y - 1) / 400
}

/// Days from 1970-01-01 to January 1 of year `y`.
pub open spec fn days_before_year(y: int) -> int {
    365 * (y - 1970) + leaps_before(y) - leaps_before(1970)
}

/// Days from January 1 to the first of month `m` in year `y`.
pub open spec fn days_before_month(y: int, m: int) -> int
    decreases m,
{
    if m <= 1 {
        0
    } else {
        days_before_month(y, m - 1) + month_len(y, m - 1)
    }
}

/// A real calendar date in 1970 or later.
pub open spec fn valid_date(y: int, m: int, d: int) -> bool {
    1970 <= y && 1 <= m <= 12 && 1 <= d <= month_len(y, m)
}

/// Days from 1970-01-01 to the given date.
pub open spec fn epoch_day(y: int, m: int, d: int) -> int {
    days_before_year(y) + days_before_month(y, m) + d - 1
}

/// Two decimal digits of `n < 100`.
pub open spec fn pad2(n: nat) -> Seq<char> {
    seq![crate::text::digit_char(n / 10), crate::text::digit_char(n % 10)]
}

/// `YYYY-MM-DDTHH:MM:SSZ` for the given fields.
pub open spec fn iso_text(y: nat, m: nat, d: nat, hh: nat, mm: nat, ss: nat) -> Seq<char> {
    decimal(y) + seq!['-'] + pad2(m) + seq!['-'] + pad2(d) + seq!['T'] + pad2(hh) + seq![':']
        + pad2(mm) + seq![':'] + pad2(ss) + seq!['Z']
}

/// The ISO-8601 text of a Unix timestamp: the calendar date whose day
/// number is `secs / 86400`, and the time of day from the remainder.
pub open spec fn iso8601_of(secs: nat, text: Seq<char>) -> bool {
    exists|y: int, m: int, d: int|
        #![trigger epoch_day(y, m, d)]
        valid_date(y, m, d) && epoch_day(y, m, d) == secs / 86400 && text == iso_text(
            y as nat,
            m as nat,
            d as nat,
            (secs % 86400) / 3600,
            (secs % 3600) / 60,
            secs % 60,
        )
}

proof fn lemma_year_step(y: int)
    ensures
        days_before_year(y + 1) == days_before_year(y) + year_len(y),
{
    assert(y / 4 - (y - 1) / 4 == if y % 4 == 0 {
        1int
    } else {
        0int
    }) by (nonlinear_arith);
    assert(y / 100 - (y - 1) / 100 == if y % 100 == 0 {
        1int
    } else {
        0int
    }) by (nonlinear_arith);
    assert(y / 400 - (y - 1) / 400 == if y % 400 == 0 {
        1int
    } else {
        0int
    }) by (nonlinear_arith);
    assert(y % 400 == 0 ==> y % 100 == 0 && y % 4 == 0) by (nonlinear_arith);
    assert(y % 100 == 0 ==> y % 4 == 0) by (nonlinear_arith);
}

proof fn lemma_cycle(y: int)
    ensures
        days_before_year(y + 400) == days_before_year(y) + 146097,
{
    assert((y - 1 + 400) / 4 == (y - 1) / 4 + 100) by (nonlinear_arith);
    assert((y - 1 + 400) / 100 == (y - 1) / 100 + 4) by (nonlinear_arith);
    assert((y - 1 + 400) / 400 == (y - 1) / 400 + 1) by (nonlinear_arith);
}

proof fn lemma_cycles(k: nat)
    ensures
        days_before_year(1970 + 400 * (k as int)) == 146097 * k,
    decreases k,
{
    if k > 0 {
        lemma_cycles((k - 1) as nat);
        lemma_cycle(1970 + 400 * (k - 1) as int);
    }
}

proof fn lemma_year_of_month_lengths(y: int)
    ensures
        days_before_month(y, 13) == year_len(y),
{
    reveal_with_fuel(days_before_month, 13);
}

proof fn lemma_month_prefix(y: int, m: int)
    requires
        1 <= m <= 12,
    ensures
        days_before_month(y, m) + month_len(y, m) <= year_len(y),
        days_before_month(y, m) >= 0,
    decreases 13 - m,
{
    lemma_year_of_month_lengths(y);
    if m < 12 {
        lemma_month_prefix(y, m + 1);
        assert(days_before_month(y, m + 1) == days_before_month(y, m) + month_len(y, m));
    } else {
        assert(days_before_month(y, 13) == days_before_month(y, 12) + month_len(y, 12));
    }
    if m > 1 {
        lemma_month_nonneg(y, m);
    }
}

proof fn lemma_month_nonneg(y: int, m: int)
    ensures
        days_before_month(y, m) >= 0,
    decreases m,
{
    if m > 1 {
        lemma_month_nonneg(y, m - 1);
    }
}

proof fn lemma_month_increasing(y: int, m1: int, m2: int)
    requires
        1 <= m1 < m2 <= 13,
    ensures
        days_before_month(y, m1) + month_len(y, m1) <= days_before_month(y, m2),
    decreases m2 - m1,
{
    if m2 > m1 + 1 {
        lemma_month_increasing(y, m1, m2 - 1);
    }
}

proof fn lemma_year_increasing(y1: int, y2: int)
    requires
        y1 < y2,
    ensures
        days_before_year(y1) + year_len(y1) <= days_before_year(y2),
    decreases y2 - y1,
{
    lemma_year_step(y1);
    if y2 > y1 + 1 {
        lemma_year_increasing(y1 + 1, y2);
        lemma_year_step(y1 + 1);
    }
}

/// `(y1, m1, d1)` comes strictly before `(y2, m2, d2)` on the calendar.
pub open spec fn date_before(y1: int, m1: int, d1: int, y2: int, m2: int, d2: int) -> bool {
    y1 < y2 || (y1 == y2 && (m1 < m2 || (m1 == m2 && d1 < d2)))
}

/// Day numbers follow the calendar: an earlier valid date has a smaller
/// day number, so each day number names at most one date.
pub proof fn epoch_day_follows_the_calendar(y1: int, m1: int, d1: int, y2: int, m2: int, d2: int)
    requires
        valid_date(y1, m1, d1),
        valid_date(y2, m2, d2),
    ensures
        date_before(y1, m1, d1, y2, m2, d2) ==> epoch_day(y1, m1, d1) < epoch_day(y2, m2, d2),
        epoch_day(y1, m1, d1) == epoch_day(y2, m2, d2) ==> (y1 == y2 && m1 == m2 && d1 == d2),
{
    lemma_month_prefix(y1, m1);
    lemma_month_prefix(y2, m2);
    if y1 < y2 {
        lemma_year_increasing(y1, y2);
    }
    if y2 < y1 {
        lemma_year_increasing(y2, y1);
    }
    if y1 == y2 && m1 < m2 {
        lemma_month_increasing(y1, m1, m2);
    }
    if y1 == y2 && m2 < m1 {
        lemma_month_increasing(y1, m2, m1);
    }
}

/// The time of day splits a timestamp exactly: the day number times
/// 86400, plus hours, minutes and seconds within their ranges, give the
/// timestamp back.
pub proof fn time_of_day_round_trips(secs: nat)
    ensures
        (secs / 86400) * 86400 + ((secs % 86400) / 3600) * 3600 + ((secs % 3600) / 60) * 60 + secs
            % 60 == secs,
        (secs % 86400) / 3600 < 24,
        (secs % 3600) / 60 < 60,
        secs % 60 < 60,
{
    assert((secs % 86400) % 3600 == secs % 3600) by (nonlinear_arith);
    assert((secs / 86400) * 86400 + secs % 86400 == secs) by (nonlinear_arith);
    assert(((secs % 86400) / 3600) * 3600 + (secs % 86400) % 3600 == secs % 86400) by (nonlinear_arith);
    assert(((secs % 3600) / 60) * 60 + (secs % 3600) % 60 == secs % 3600) by (nonlinear_arith);
    assert((secs % 3600) % 60 == secs % 60) by (nonlinear_arith);
    assert((secs % 86400) / 3600 < 24) by (nonlinear_arith);
    assert((secs % 3600) / 60 < 60) by (nonlinear_arith);
}

proof fn lemma_lex_common_prefix(p: Seq<char>, a: Seq<char>, b: Seq<char>)
    ensures
        lex_lt(p + a, p + b) == lex_lt(a, b),
    decreases p.len(),
{
    if p.len() == 0 {
        assert(p + a =~= a);
        assert(p + b =~= b);
    } else {
        assert((p + a)[0] == p[0] && (p + b)[0] == p[0]);
        assert((p + a).drop_first() =~= p.drop_first() + a);
        assert((p + b).drop_first() =~= p.drop_first() + b);
        lemma_lex_common_prefix(p.drop_first(), a, b);
    }
}

proof fn lemma_lex_extend(a: Seq<char>, b: Seq<char>, x: Seq<char>, y: Seq<char>)
    requires
        a.len() == b.len(),
        lex_lt(a, b),
    ensures
        lex_lt(a + x, b + y),
    decreases a.len(),
{
    assert((a + x)[0] == a[0] && (b + y)[0] == b[0]);
    if a[0] == b[0] {
        assert((a + x).drop_first() =~= a.drop_first() + x);
        assert((b + y).drop_first() =~= b.drop_first() + y);
        lemma_lex_extend(a.drop_first(), b.drop_first(), x, y);
    }
}

proof fn lemma_digit_order(k1: nat, k2: nat)
    requires
        k1 < k2 < 10,
    ensures
        crate::text::digit_char(k1) < crate::text::digit_char(k2),
{
}

proof fn lemma_pad2_order(n1: nat, n2: nat)
    requires
        n1 < n2 < 100,
    ensures
        lex_lt(pad2(n1), pad2(n2)),
{
    let a = pad2(n1);
    let b = pad2(n2);
    if n1 / 10 < n2 / 10 {
        lemma_digit_order(n1 / 10, n2 / 10);
        assert(a[0] < b[0]);
    } else {
        assert(n1 / 10 == n2 / 10);
        assert(n1 % 10 < n2 % 10);
        lemma_digit_order(n1 % 10, n2 % 10);
        assert(a[0] == b[0]);
        let a1 = a.drop_first();
        let b1 = b.drop_first();
        assert(a1 =~= seq![crate::text::digit_char(n1 % 10)]);
        assert(b1 =~= seq![crate::text::digit_char(n2 % 10)]);
        assert(a1[0] < b1[0]);
        assert(lex_lt(a1, b1));
    }
}

proof fn lemma_four_digits(y: nat)
    requires
        1000 <= y <= 9999,
    ensures
        decimal(y) =~= pad2(y / 100) + pad2(y % 100),
{
    assert((y % 100) / 10 == (y / 10) % 10) by (nonlinear_arith)
        requires
            y >= 0,
    ;
    assert((y % 100) % 10 == y % 10) by (nonlinear_arith)
        requires
            y >= 0,
    ;
    assert((y / 100) / 10 == y / 1000) by (nonlinear_arith)
        requires
            y >= 0,
    ;
    assert((y / 10) / 10 == y / 100) by (nonlinear_arith)
        requires
            y >= 0,
    ;
    assert((y / 100) % 10 == ((y / 10) / 10) % 10);
    assert(decimal(y / 1000) == seq![crate::text::digit_char(y / 1000)]);
    assert(decimal(y / 100) == decimal(y / 1000).push(crate::text::digit_char((y / 100) % 10)));
    assert(decimal(y / 10) == decimal(y / 100).push(crate::text::digit_char((y / 10) % 10)));
    assert(decimal(y) == decimal(y / 10).push(crate::text::digit_char(y % 10)));
}

proof fn lemma_year_order(y1: nat, y2: nat)
    requires
        1000 <= y1 < y2 <= 9999,
    ensures
        lex_lt(decimal(y1), decimal(y2)),
        decimal(y1).len() == 4 && decimal(y2).len() == 4,
{
    lemma_four_digits(y1);
    lemma_four_digits(y2);
    if y1 / 100 < y2 / 100 {
        lemma_pad2_order(y1 / 100, y2 / 100);
        lemma_lex_extend(pad2(y1 / 100), pad2(y2 / 100), pad2(y1 % 100), pad2(y2 % 100));
    } else {
        assert(y1 / 100 == y2 / 100);
        assert(y1 % 100 < y2 % 100);
        lemma_pad2_order(y1 % 100, y2 % 100);
        lemma_lex_common_prefix(pad2(y1 / 100), pad2(y1 % 100), pad2(y2 % 100));
    }
}

/// One `<sep><2 digits>` field followed by the rest of the text.
pub open spec fn iso_field(sep: char, n: nat, rest: Seq<char>) -> Seq<char> {
    seq![sep] + (pad2(n) + rest)
}

proof fn lemma_field_order(sep: char, n1: nat, n2: nat, r1: Seq<char>, r2: Seq<char>)
    requires
        n1 < 100,
        n2 < 100,
        n1 < n2 || (n1 == n2 && lex_lt(r1, r2)),
    ensures
        lex_lt(iso_field(sep, n1, r1), iso_field(sep, n2, r2)),
{
    lemma_lex_common_prefix(seq![sep], pad2(n1) + r1, pad2(n2) + r2);
    if n1 < n2 {
        lemma_pad2_order(n1, n2);
        lemma_lex_extend(pad2(n1), pad2(n2), r1, r2);
    } else {
        lemma_lex_common_prefix(pad2(n1), r1, r2);
    }
}

/// The text after the year, as nested fields.
pub open spec fn iso_tail(m: nat, d: nat, hh: nat, mm: nat, ss: nat) -> Seq<char> {
    iso_field('-', m, iso_field('-', d, iso_field('T', hh, iso_field(':', mm, iso_field(':', ss, seq!['Z'])))))
}

proof fn lemma_iso_text_shape(y: nat, m: nat, d: nat, hh: nat, mm: nat, ss: nat)
    ensures
        iso_text(y, m, d, hh, mm, ss) =~= decimal(y) + iso_tail(m, d, hh, mm, ss),
{
}

/// Lexicographic order of date-time fields.
pub open spec fn fields_before(a: (nat, nat, nat, nat, nat, nat), b: (nat, nat, nat, nat, nat, nat)) -> bool {
    a.0 < b.0 || (a.0 == b.0 && (a.1 < b.1 || (a.1 == b.1 && (a.2 < b.2 || (a.2 == b.2 && (a.3
        < b.3 || (a.3 == b.3 && (a.4 < b.4 || (a.4 == b.4 && a.5 < b.5)))))))))
}

proof fn lemma_iso_text_order(a: (nat, nat, nat, nat, nat, nat), b: (nat, nat, nat, nat, nat, nat))
    requires
        1000 <= a.0 <= 9999,
        1000 <= b.0 <= 9999,
        a.1 < 100 && a.2 < 100 && a.3 < 100 && a.4 < 100 && a.5 < 100,
        b.1 < 100 && b.2 < 100 && b.3 < 100 && b.4 < 100 && b.5 < 100,
        fields_before(a, b),
    ensures
        lex_lt(iso_text(a.0, a.1, a.2, a.3, a.4, a.5), iso_text(b.0, b.1, b.2, b.3, b.4, b.5)),
{
    lemma_iso_text_shape(a.0, a.1, a.2, a.3, a.4, a.5);
    lemma_iso_text_shape(b.0, b.1, b.2, b.3, b.4, b.5);
    let z = seq!['Z'];
    let ts = |x: (nat, nat, nat, nat, nat, nat)| iso_field(':', x.5, z);
    let tm = |x: (nat, nat, nat, nat, nat, nat)| iso_field(':', x.4, ts(x));
    let th = |x: (nat, nat, nat, nat, nat, nat)| iso_field('T', x.3, tm(x));
    let td = |x: (nat, nat, nat, nat, nat, nat)| iso_field('-', x.2, th(x));
    let tmo = |x: (nat, nat, nat, nat, nat, nat)| iso_field('-', x.1, td(x));
    if a.0 < b.0 {
        lemma_year_order(a.0, b.0);
        lemma_lex_extend(decimal(a.0), decimal(b.0), tmo(a), tmo(b));
    } else {
        if a.1 == b.1 && a.2 == b.2 && a.3 == b.3 && a.4 == b.4 {
            lemma_field_order(':', a.5, b.5, z, z);
        }
        if a.1 == b.1 && a.2 == b.2 && a.3 == b.3 {
            lemma_field_order(':', a.4, b.4, ts(a), ts(b));
        }
        if a.1 == b.1 && a.2 == b.2 {
            lemma_field_order('T', a.3, b.3, tm(a), tm(b));
        }
        if a.1 == b.1 {
            lemma_field_order('-', a.2, b.2, th(a), th(b));
        }
        lemma_field_order('-', a.1, b.1, td(a), td(b));
        lemma_lex_common_prefix(decimal(a.0), tmo(a), tmo(b));
    }
}

proof fn lemma_same_day_order(a: nat, b: nat)
    requires
        a < b,
        a / 86400 == b / 86400,
    ensures
        fields_before(
            (0, 0, 0, (a % 86400) / 3600, (a % 3600) / 60, a % 60),
            (0, 0, 0, (b % 86400) / 3600, (b % 3600) / 60, b % 60),
        ),
{
    assert(a % 86400 < b % 86400) by (nonlinear_arith)
        requires
            a < b,
            a / 86400 == b / 86400,
    ;
    let ta = a % 86400;
    let tb = b % 86400;
    assert((a % 86400) % 3600 == a % 3600) by (nonlinear_arith);
    assert((b % 86400) % 3600 == b % 3600) by (nonlinear_arith);
    assert((a % 3600) % 60 == a % 60) by (nonlinear_arith);
    assert((b % 3600) % 60 == b % 60) by (nonlinear_arith);
    assert(fields_before(
        (0, 0, 0, ta / 3600, (ta % 3600) / 60, (ta % 3600) % 60),
        (0, 0, 0, tb / 3600, (tb % 3600) / 60, (tb % 3600) % 60),
    )) by (nonlinear_arith)
        requires
            ta < tb,
    {
        assert(ta == (ta / 3600) * 3600 + ((ta % 3600) / 60) * 60 + (ta % 3600) % 60);
        assert(tb == (tb / 3600) * 3600 + ((tb % 3600) / 60) * 60 + (tb % 3600) % 60);
    }
}

proof fn lemma_days_before_10000()
    ensures
        days_before_year(10000) == 2932897,
{
}

/// ISO-8601 texts sort like the instants they name: for timestamps before
/// year 10000, an earlier instant's text sorts before a later one's, and
/// one instant has one text.
#[verifier::spinoff_prover]
#[verifier::rlimit(60)]
pub proof fn iso8601_sorts_like_time(a: nat, b: nat, ta: Seq<char>, tb: Seq<char>)
    requires
        a <= b < 253_402_300_800,
        iso8601_of(a, ta),
        iso8601_of(b, tb),
    ensures
        ta.len() == 20,
        a == b ==> ta == tb,
        a < b ==> lex_lt(ta, tb),
{
    let (ya, ma, da) = choose|y: int, m: int, d: int|
        #![trigger epoch_day(y, m, d)]
        valid_date(y, m, d) && epoch_day(y, m, d) == a / 86400 && ta == iso_text(
            y as nat,
            m as nat,
            d as nat,
            (a % 86400) / 3600,
            (a % 3600) / 60,
            a % 60,
        );
    let (yb, mb, db) = choose|y: int, m: int, d: int|
        #![trigger epoch_day(y, m, d)]
        valid_date(y, m, d) && epoch_day(y, m, d) == b / 86400 && tb == iso_text(
            y as nat,
            m as nat,
            d as nat,
            (b % 86400) / 3600,
            (b % 3600) / 60,
            b % 60,
        );
    lemma_days_before_10000();
    lemma_month_prefix(ya, ma);
    lemma_month_prefix(yb, mb);
    if ya >= 10000 {
        if ya > 10000 {
            lemma_year_increasing(10000, ya);
        }
        assert(false);
    }
    if yb >= 10000 {
        if yb > 10000 {
            lemma_year_increasing(10000, yb);
        }
        assert(false);
    }
    time_of_day_round_trips(a);
    time_of_day_round_trips(b);
    let fa = (ya as nat, ma as nat, da as nat, (a % 86400) / 3600, (a % 3600) / 60, a % 60);
    let fb = (yb as nat, mb as nat, db as nat, (b % 86400) / 3600, (b % 3600) / 60, b % 60);
    lemma_four_digits(ya as nat);
    assert(ta.len() == 20);
    epoch_day_follows_the_calendar(ya, ma, da, yb, mb, db);
    epoch_day_follows_the_calendar(yb, mb, db, ya, ma, da);
    assert(a / 86400 <= b / 86400) by (nonlinear_arith)
        requires
            a <= b,
    ;
    if a / 86400 == b / 86400 {
        assert(ya == yb && ma == mb && da == db);
        if a < b {
            lemma_same_day_order(a, b);
            lemma_iso_text_order(fa, fb);
        }
    } else {
        assert(fields_before(fa, fb));
        lemma_iso_text_order(fa, fb);
    }
}

fn year_len_exec(y: u64) -> (r: u64)
    ensures
        r == year_len(y as int),
{
    if y % 4 == 0 && (y % 100 != 0 || y % 400 == 0) {
        366
    } else {
        365
    }
}

fn month_len_exec(y: u64, m: u64) -> (r: u64)
    ensures
        r == month_len(y as int, m as int),
{
    if m == 2 {
        if y % 4 == 0 && (y % 100 != 0 || y % 400 == 0) {
            29
        } else {
            28
        }
    } else if m == 4 || m == 6 || m == 9 || m == 11 {
        30
    } else {
        31
    }
}

/// The calendar date of a day number counted from 1970-01-01.
fn civil_from_days(days: u64) -> (r: (u64, u64, u64))
    ensures
        valid_date(r.0 as int, r.1 as int, r.2 as int),
        epoch_day(r.0 as int, r.1 as int, r.2 as int) == days,
{
    let cycles = days / 146097;
    let mut rem = days % 146097;
    assert(cycles <= 126263674638832);
    let mut y: u64 = 1970 + 400 * cycles;
    proof {
        lemma_cycles(cycles as nat);
    }
    while rem >= year_len_exec(y)
        invariant
            1970 <= y <= 1970 + 400 * cycles + 400,
            cycles <= 126263674638832,
            days < days_before_year(1970 + 400 * cycles) + 146097,
            days_before_year(y as int) + rem == days,
            rem < 146097,
            y - (1970 + 400 * cycles) <= 400,
            days_before_year(y as int) >= days_before_year(1970 + 400 * cycles),
        decreases rem,
    {
        let len = year_len_exec(y);
        proof {
            lemma_year_step(y as int);
            lemma_cycle(1970 + 400 * cycles);
            if y == 1970 + 400 * cycles + 400 {
                assert(false);
            }
        }
        rem = rem - len;
        y = y + 1;
    }
    proof {
        lemma_year_of_month_lengths(y as int);
    }
    let mut m: u64 = 1;
    while rem >= month_len_exec(y, m)
        invariant
            1 <= m <= 12,
            1970 <= y,
            rem < year_len(y as int) - days_before_month(y as int, m as int),
            days_before_year(y as int) + days_before_month(y as int, m as int) + rem == days,
            days_before_month(y as int, 13) == year_len(y as int),
        decreases 12 - m,
    {
        let len = month_len_exec(y, m);
        proof {
            if m == 12 {
                assert(days_before_month(y as int, 13) == days_before_month(y as int, 12)
                    + month_len(y as int, 12));
                assert(false);
            }
        }
        rem = rem - len;
        m = m + 1;
    }
    (y, m, rem + 1)
}

fn push_pad2(s: &mut String, n: u64)
    requires
        n < 100,
    ensures
        final(s)@ == old(s)@ + pad2(n as nat),
{
    push_char(s, digit(n / 10));
    push_char(s, digit(n % 10));
    assert(s@ =~= old(s)@ + pad2(n as nat));
}

fn iso_string(y: u64, m: u64, d: u64, hh: u64, mm: u64, ss: u64) -> (s: String)
    requires
        m < 100,
        d < 100,
        hh < 100,
        mm < 100,
        ss < 100,
    ensures
        s@ == iso_text(y as nat, m as nat, d as nat, hh as nat, mm as nat, ss as nat),
{
    let mut s = String::new();
    push_u64(&mut s, y);
    push_char(&mut s, '-');
    push_pad2(&mut s, m);
    push_char(&mut s, '-');
    push_pad2(&mut s, d);
    push_char(&mut s, 'T');
    push_pad2(&mut s, hh);
    push_char(&mut s, ':');
    push_pad2(&mut s, mm);
    push_char(&mut s, ':');
    push_pad2(&mut s, ss);
    push_char(&mut s, 'Z');
    assert(s@ =~= iso_text(y as nat, m as nat, d as nat, hh as nat, mm as nat, ss as nat));
    s
}

/// Converts a Unix timestamp (seconds since 1970-01-01 UTC) to an
/// ISO-8601 string, `YYYY-MM-DDTHH:MM:SSZ`.
pub fn seconds_to_iso8601(unix_secs: u64) -> (s: String)
    ensures
        iso8601_of(unix_secs as nat, s@),
{
    let total_days = unix_secs / 86400;
    let secs_of_day = unix_secs % 86400;
    let hour = secs_of_day / 3600;
    let minute = (secs_of_day % 3600) / 60;
    let second = secs_of_day % 60;
    assert((unix_secs % 86400) % 3600 == unix_secs % 3600) by (nonlinear_arith);
    assert((unix_secs % 86400) % 60 == unix_secs % 60) by (nonlinear_arith);
    let (y, m, d) = civil_from_days(total_days);
    let s = iso_string(y, m, d, hour, minute, second);
    assert(epoch_day(y as int, m as int, d as int) == (unix_secs as nat) / 86400);
    s
}

proof fn lemma_epoch_text(t: Seq<char>)
    requires
        iso8601_of(0, t),
    ensures
        t == "1970-01-01T00:00:00Z"@,
{
    let (y, m, d) = choose|y: int, m: int, d: int|
        #![trigger epoch_day(y, m, d)]
        valid_date(y, m, d) && epoch_day(y, m, d) == 0nat / 86400 && t == iso_text(
            y as nat,
            m as nat,
            d as nat,
            (0nat % 86400) / 3600,
            (0nat % 3600) / 60,
            0nat % 60,
        );
    assert(epoch_day(1970, 1, 1) == 0);
    epoch_day_follows_the_calendar(y, m, d, 1970, 1, 1);
    lemma_four_digits(1970);
    reveal_strlit("1970-01-01T00:00:00Z");
    assert(t =~= "1970-01-01T00:00:00Z"@);
}

/// The seconds a clock reading stands for: the reading, or 0 when the
/// clock could not be read.
pub open spec fn reading_secs(reading: Option<u64>) -> nat {
    match reading {
        Some(secs) => secs as nat,
        None => 0nat,
    }
}

/// The ISO-8601 text for a clock reading in whole seconds since the Unix
/// epoch; a clock that could not be read (earlier than the epoch) gives
/// the epoch itself, `1970-01-01T00:00:00Z`.
pub fn iso8601_from_reading(reading: Option<u64>) -> (s: String)
    ensures
        iso8601_of(reading_secs(reading), s@),
        reading is None ==> s@ == "1970-01-01T00:00:00Z"@,
{
    let secs = match reading {
        Some(secs) => secs,
        None => 0,
    };
    let s = seconds_to_iso8601(secs);
    proof {
        if reading is None {
            lemma_epoch_text(s@);
        }
    }
    s
}

/// Wall-clock time as an ISO-8601 UTC string: the system clock's reading,
/// or the epoch when the clock reads earlier than it.
pub fn now_iso8601() -> (s: String)
    ensures
        exists|reading: Option<u64>|
            iso8601_of(#[trigger] reading_secs(reading), s@) && (reading is None ==> s@
                == "1970-01-01T00:00:00Z"@),
{
    let reading = unix_now_secs_checked();
    iso8601_from_reading(reading)
}

/// The agent's system prompt for a step budget and the current time.
pub open spec fn system_prompt(max_steps: u32, now: Seq<char>) -> Seq<char> {
    "You are an agent. Use the provided tools when useful. When you have a final answer, reply with prose only and no tool calls. You have at most "@
        + decimal(max_steps as nat)
        + " steps to complete the task.\n\nThe current date and time is "@ + now
        + " (UTC). Treat this as authoritative when reasoning about anything time-sensitive \u{2014} quarters, recency of news, relative ages, deadlines."@
}

/// Composes the agent's system prompt, giving the model the current time
/// as its reference point.
pub fn build_system_prompt(max_steps: u32, now: &str) -> (s: String)
    ensures
        s@ == system_prompt(max_steps, now@),
{
    let mut s = String::new();
    push_str(&mut s, "You are an agent. Use the provided tools when useful. When you have a final answer, reply with prose only and no tool calls. You have at most ");
    push_u64(&mut s, max_steps as u64);
    push_str(&mut s, " steps to complete the task.\n\nThe current date and time is ");
    push_str(&mut s, now);
    push_str(&mut s, " (UTC). Treat this as authoritative when reasoning about anything time-sensitive \u{2014} quarters, recency of news, relative ages, deadlines.");
    assert(s@ =~= system_prompt(max_steps, now@));
    s
}

/// Wall-clock guardrail timer, set at run start.
pub struct RunClock {
    pub started: std::time::Instant,
}

impl RunClock {
    /// Starts the timer now.
    pub fn start() -> (c: Self) {
        RunClock { started: instant_now() }
    }

    /// Whole seconds since the timer started, cut to 32 bits.
    pub fn elapsed_seconds(&self) -> (r: u32) {
        let s = elapsed_secs(&self.started);
        s as u32
    }
}


// ── The tool-call loop ─────────────────────────────────────────────

/// The number of model turns among the records.
pub open spec fn model_turns(records: Seq<StepRecord>) -> nat
    decreases records.len(),
{
    if records.len() == 0 {
        0
    } else {
        model_turns(records.drop_last()) + if records.last() is ModelMessage {
            1nat
        } else {
            0nat
        }
    }
}

/// The label a stop reason carries in audit events.
pub open spec fn stop_label(s: StoppedBecause) -> Seq<char> {
    match s {
        StoppedBecause::FinalAnswer => "final_answer"@,
        StoppedBecause::MaxSteps => "max_steps"@,
        StoppedBecause::MaxTokens => "max_tokens"@,
        StoppedBecause::MaxSeconds => "max_seconds"@,
        StoppedBecause::ToolError => "tool_error"@,
        StoppedBecause::DlpBlocked => "dlp_blocked"@,
        StoppedBecause::ModelDoesNotSupportToolUse => "model_no_tool_use"@,
    }
}

/// The metrics counter a stop reason is counted under.
pub open spec fn stop_metric(s: StoppedBecause) -> crate::metrics::AgentStopReason {
    match s {
        StoppedBecause::FinalAnswer => crate::metrics::AgentStopReason::FinalAnswer,
        StoppedBecause::MaxSteps => crate::metrics::AgentStopReason::MaxSteps,
        StoppedBecause::MaxTokens => crate::metrics::AgentStopReason::MaxTokens,
        StoppedBecause::MaxSeconds => crate::metrics::AgentStopReason::MaxSeconds,
        StoppedBecause::ToolError => crate::metrics::AgentStopReason::ToolError,
        StoppedBecause::ModelDoesNotSupportToolUse => crate::metrics::AgentStopReason::ToolError,
        StoppedBecause::DlpBlocked => crate::metrics::AgentStopReason::DlpBlocked,
    }
}

/// The answer a run gives when a guardrail stops it.
pub open spec fn guardrail_text(s: StoppedBecause) -> Seq<char> {
    match s {
        StoppedBecause::MaxSeconds => "stopped: max_seconds exceeded"@,
        StoppedBecause::MaxTokens => "stopped: max_tokens exceeded"@,
        _ => "stopped: max_steps reached without a final answer"@,
    }
}

/// The answer for a run stopped by its step, time or token cap.
pub fn guardrail_answer(s: StoppedBecause) -> (a: String)
    requires
        s == StoppedBecause::MaxSteps || s == StoppedBecause::MaxSeconds || s
            == StoppedBecause::MaxTokens,
    ensures
        a@ == guardrail_text(s),
{
    match s {
        StoppedBecause::MaxSeconds => crate::text::owned("stopped: max_seconds exceeded"),
        StoppedBecause::MaxTokens => crate::text::owned("stopped: max_tokens exceeded"),
        _ => crate::text::owned("stopped: max_steps reached without a final answer"),
    }
}

/// The answer for a run whose upstream chat call failed (a tool error).
pub fn upstream_error_answer(err: &str) -> (a: String)
    ensures
        a@ == "upstream chat error: "@ + err@,
{
    let mut a = crate::text::owned("upstream chat error: ");
    push_str(&mut a, err);
    a
}

/// The answer for a run whose upstream replied with no choices.
pub fn no_choices_answer() -> (a: String)
    ensures
        a@ == "upstream returned no choices"@,
{
    crate::text::owned("upstream returned no choices")
}

/// The answer for a run that DLP blocked: the goal, or a tool's result
/// before it reached the model.
pub fn dlp_block_answer(reason: &str, on_tool_result: bool) -> (a: String)
    ensures
        a@ == (if on_tool_result {
            "tool result blocked by dlp: "@
        } else {
            "blocked by dlp: "@
        }) + reason@,
{
    let mut a = if on_tool_result {
        crate::text::owned("tool result blocked by dlp: ")
    } else {
        crate::text::owned("blocked by dlp: ")
    };
    push_str(&mut a, reason);
    a
}

/// The audit label of a stop reason.
pub fn stop_reason_label(s: StoppedBecause) -> (l: &'static str)
    ensures
        l@ == stop_label(s),
{
    match s {
        StoppedBecause::FinalAnswer => "final_answer",
        StoppedBecause::MaxSteps => "max_steps",
        StoppedBecause::MaxTokens => "max_tokens",
        StoppedBecause::MaxSeconds => "max_seconds",
        StoppedBecause::ToolError => "tool_error",
        StoppedBecause::DlpBlocked => "dlp_blocked",
        StoppedBecause::ModelDoesNotSupportToolUse => "model_no_tool_use",
    }
}

/// The number of model turns among the records, cut to 32 bits.
pub fn step_count_models(steps: &Vec<StepRecord>) -> (n: u32)
    ensures
        n == model_turns(steps@) as u32,
{
    let mut n: u64 = 0;
    let mut i: usize = 0;
    while i < steps.len()
        invariant
            i <= steps@.len(),
            n == model_turns(steps@.take(i as int)),
            n <= i,
        decreases steps@.len() - i,
    {
        assert(steps@.take(i + 1).drop_last() =~= steps@.take(i as int));
        match &steps[i] {
            StepRecord::ModelMessage { .. } => {
                n = n + 1;
            },
            _ => {},
        }
        i += 1;
    }
    assert(steps@.take(steps@.len() as int) =~= steps@);
    n as u32
}

/// What to do after the model's reply to a step.
#[derive(Debug, Clone, Copy, PartialEq, Eq, Structural)]
pub enum ReplyDecision {
    /// No tool calls: the reply is the final answer.
    FinalAnswer,
    /// Run this many of the requested tool calls (the overflow beyond the
    /// per-step cap is dropped).
    RunTools(usize),
}

/// The state of one agent run between the runtime's outside calls: the
/// clamped request, the run id, the step reached, the tokens used so far
/// and the records made.
pub struct AgentRun {
    pub req: AgentRunRequest,
    pub run_id: String,
    pub step: u32,
    pub tokens_used: u32,
    pub steps: Vec<StepRecord>,
    /// The model's reply for the current step has been taken in.
    pub replied: bool,
    /// How many more tool calls the current step may record.
    pub calls_left: u32,
}

/// The step a record belongs to.
pub open spec fn record_step(r: StepRecord) -> u32 {
    match r {
        StepRecord::ModelMessage { step, .. } => step,
        StepRecord::ToolCall { step, .. } => step,
    }
}

/// The number of tool calls recorded for step `s`.
pub open spec fn tool_calls_at(records: Seq<StepRecord>, s: u32) -> nat
    decreases records.len(),
{
    if records.len() == 0 {
        0
    } else {
        tool_calls_at(records.drop_last(), s) + if records.last() is ToolCall && record_step(
            records.last(),
        ) == s {
            1nat
        } else {
            0nat
        }
    }
}

proof fn lemma_tool_calls_past(records: Seq<StepRecord>, s: u32)
    requires
        forall|i: int| 0 <= i < records.len() ==> record_step(#[trigger] records[i]) < s,
    ensures
        tool_calls_at(records, s) == 0,
    decreases records.len(),
{
    if records.len() > 0 {
        assert forall|i: int| 0 <= i < records.drop_last().len() implies record_step(
            #[trigger] records.drop_last()[i],
        ) < s by {
            assert(records.drop_last()[i] == records[i]);
        }
        lemma_tool_calls_past(records.drop_last(), s);
    }
}

/// The caller's tools that the runtime recognises, in order.
pub open spec fn known_only(tools: Seq<String>) -> Seq<Seq<char>>
    decreases tools.len(),
{
    if tools.len() == 0 {
        Seq::empty()
    } else if known_tool_names().contains(tools.last()@) {
        known_only(tools.drop_last()).push(tools.last()@)
    } else {
        known_only(tools.drop_last())
    }
}

/// The caller's tools that the runtime does not recognise, in order.
pub open spec fn unknown_only(tools: Seq<String>) -> Seq<Seq<char>>
    decreases tools.len(),
{
    if tools.len() == 0 {
        Seq::empty()
    } else if known_tool_names().contains(tools.last()@) {
        unknown_only(tools.drop_last())
    } else {
        unknown_only(tools.drop_last()).push(tools.last()@)
    }
}

/// Splits the requested tools into recognised and unrecognised names.
pub fn split_tools(tools: &Vec<String>) -> (r: (Vec<String>, Vec<String>))
    ensures
        crate::text::string_views(r.0@) == known_only(tools@),
        crate::text::string_views(r.1@) == unknown_only(tools@),
{
    let known = known_tools();
    let mut valid: Vec<String> = Vec::new();
    let mut unknown: Vec<String> = Vec::new();
    let mut i: usize = 0;
    while i < tools.len()
        invariant
            known.view() == known_tool_names(),
            i <= tools@.len(),
            crate::text::string_views(valid@) == known_only(tools@.take(i as int)),
            crate::text::string_views(unknown@) == unknown_only(tools@.take(i as int)),
        decreases tools@.len() - i,
    {
        assert(tools@.take(i + 1).drop_last() =~= tools@.take(i as int));
        let t = crate::text::owned(tools[i].as_str());
        if known.contains(tools[i].as_str()) {
            let ghost before = crate::text::string_views(valid@);
            valid.push(t);
            assert(crate::text::string_views(valid@) =~= before.push(tools@[i as int]@));
        } else {
            let ghost before = crate::text::string_views(unknown@);
            unknown.push(t);
            assert(crate::text::string_views(unknown@) =~= before.push(tools@[i as int]@));
        }
        i += 1;
    }
    assert(tools@.take(tools@.len() as int) =~= tools@);
    (valid, unknown)
}

/// The tokens the upstream may spend on one step: what is left of the
/// budget, at most 1024 and at least 64.
pub open spec fn step_budget(max_tokens: u32, used: u32) -> u32 {
    let left = if max_tokens >= used {
        (max_tokens - used) as u32
    } else {
        0u32
    };
    let capped = if left <= 1024 {
        left
    } else {
        1024u32
    };
    if capped >= 64 {
        capped
    } else {
        64u32
    }
}

/// Tokens after adding a step's usage, saturating at the top.
pub open spec fn add_usage(used: u32, total: u32, completion: u32) -> u32 {
    let step = if total >= completion {
        total
    } else {
        completion
    };
    if used + step <= u32::MAX {
        (used + step) as u32
    } else {
        u32::MAX
    }
}

impl AgentRun {
    /// The run's bookkeeping is consistent: between steps the number of
    /// model turns equals the step reached, which never exceeds the cap.
    pub open spec fn wf(&self) -> bool {
        &&& self.step <= self.req.max_steps
        &&& model_turns(self.steps@) == self.step + if self.replied {
            1nat
        } else {
            0nat
        }
        &&& self.replied ==> self.step < self.req.max_steps
        &&& forall|i: int| 0 <= i < self.steps@.len() ==> record_step(#[trigger] self.steps@[i]) <= self.step
        &&& !self.replied ==> forall|i: int|
            0 <= i < self.steps@.len() ==> record_step(#[trigger] self.steps@[i]) < self.step
        &&& !self.replied ==> self.calls_left == 0
        &&& forall|s: u32| #[trigger] tool_calls_at(self.steps@, s) + (if s == self.step {
            self.calls_left as nat
        } else {
            0nat
        }) <= self.req.max_tool_calls_per_step
    }

    /// Starts a run: clamps the request, counts the run, and either
    /// returns the loop state or, when the caller asked for tools the
    /// runtime does not know, the finished response (a tool error naming
    /// them, with no steps and no tokens).
    pub fn begin(req: AgentRunRequest, run_id: String, metrics: &mut crate::metrics::Metrics) -> (r:
        Result<AgentRun, AgentRunResponse>)
        ensures
            match r {
                Ok(run) => {
                    &&& run.wf()
                    &&& run.step == 0
                    &&& run.tokens_used == 0
                    &&& run.steps@.len() == 0
                    &&& !run.replied
                    &&& run.run_id == run_id
                    &&& run.req.max_steps == clamp(req.max_steps, 1, HARD_MAX_STEPS)
                    &&& run.req.max_tokens == clamp(req.max_tokens, 64, HARD_MAX_TOKENS)
                    &&& run.req.max_seconds == clamp(req.max_seconds, 1, HARD_MAX_SECONDS)
                    &&& run.req.max_tool_calls_per_step == clamp(
                        req.max_tool_calls_per_step,
                        1,
                        HARD_MAX_TOOL_CALLS_PER_STEP,
                    )
                    &&& run.req.goal == req.goal
                    &&& run.req.model == req.model
                    &&& crate::text::string_views(run.req.tools@) == known_only(req.tools@)
                    &&& unknown_only(req.tools@).len() == 0
                    &&& *final(metrics) == (crate::metrics::Metrics {
                        agent_runs_total: crate::metrics::wrap_inc(old(metrics).agent_runs_total),
                        ..*old(metrics)
                    })
                },
                Err(resp) => {
                    &&& unknown_only(req.tools@).len() > 0
                    &&& resp.final_answer@ == "unknown tools requested: "@ + crate::text::joined(
                        unknown_only(req.tools@),
                        ", "@,
                    )
                    &&& resp.steps@.len() == 0
                    &&& resp.stopped_because == StoppedBecause::ToolError
                    &&& resp.tokens_used == 0
                    &&& resp.run_id == run_id
                    &&& *final(metrics) == (crate::metrics::Metrics {
                        agent_runs_total: crate::metrics::wrap_inc(old(metrics).agent_runs_total),
                        agent_runs_stopped_tool_error: crate::metrics::wrap_inc(
                            old(metrics).agent_runs_stopped_tool_error,
                        ),
                        ..*old(metrics)
                    })
                },
            },
    {
        let req = req.clamped();
        let (valid, unknown) = split_tools(&req.tools);
        metrics.inc_agent_runs();
        if unknown.len() > 0 {
            metrics.inc_agent_stop(crate::metrics::AgentStopReason::ToolError);
            let mut answer = crate::text::owned("unknown tools requested: ");
            crate::text::push_joined(&mut answer, &unknown, ", ");
            return Err(
                AgentRunResponse {
                    final_answer: answer,
                    steps: Vec::new(),
                    stopped_because: StoppedBecause::ToolError,
                    tokens_used: 0,
                    run_id,
                },
            );
        }
        let req = AgentRunRequest {
            goal: req.goal,
            tools: valid,
            max_steps: req.max_steps,
            max_tokens: req.max_tokens,
            max_seconds: req.max_seconds,
            max_tool_calls_per_step: req.max_tool_calls_per_step,
            model: req.model,
        };
        Ok(AgentRun { req, run_id, step: 0, tokens_used: 0, steps: Vec::new(), replied: false, calls_left: 0 })
    }

    /// The guardrail check at the top of a step, given the run's age in
    /// seconds: a stop reason when steps, time or tokens are exhausted
    /// (checked in that order), `None` when the step may run. A step that
    /// may run is counted before its upstream call.
    pub fn check_guardrails(&self, elapsed_seconds: u32, metrics: &mut crate::metrics::Metrics) -> (r:
        Option<StoppedBecause>)
        requires
            self.wf(),
            !self.replied,
        ensures
            r == if self.step >= self.req.max_steps {
                Some(StoppedBecause::MaxSteps)
            } else if elapsed_seconds > self.req.max_seconds {
                Some(StoppedBecause::MaxSeconds)
            } else if self.tokens_used >= self.req.max_tokens {
                Some(StoppedBecause::MaxTokens)
            } else {
                None
            },
            r is None ==> *final(metrics) == (crate::metrics::Metrics {
                agent_steps_total: crate::metrics::wrap_inc(old(metrics).agent_steps_total),
                ..*old(metrics)
            }),
            r is Some ==> *final(metrics) == *old(metrics),
    {
        if self.step >= self.req.max_steps {
            Some(StoppedBecause::MaxSteps)
        } else if elapsed_seconds > self.req.max_seconds {
            Some(StoppedBecause::MaxSeconds)
        } else if self.tokens_used >= self.req.max_tokens {
            Some(StoppedBecause::MaxTokens)
        } else {
            metrics.inc_agent_steps();
            None
        }
    }

    /// Takes in an upstream reply to the current step that carries no
    /// choices: its token usage still counts, and nothing is recorded (the
    /// run then ends with a tool error).
    pub fn on_empty_reply(&mut self, usage: Option<(u32, u32)>)
        requires
            old(self).wf(),
            !old(self).replied,
        ensures
            final(self).wf(),
            !final(self).replied,
            final(self).tokens_used == match usage {
                Some((total, completion)) => add_usage(old(self).tokens_used, total, completion),
                None => old(self).tokens_used,
            },
            final(self).step == old(self).step,
            final(self).steps == old(self).steps,
            final(self).req == old(self).req,
            final(self).run_id == old(self).run_id,
            final(self).calls_left == old(self).calls_left,
    {
        match usage {
            Some((total, completion)) => {
                let step_tokens = if total >= completion {
                    total
                } else {
                    completion
                };
                self.tokens_used = self.tokens_used.saturating_add(step_tokens);
            },
            None => {},
        }
    }

    /// The token cap to send with this step's upstream request.
    pub fn step_token_budget(&self) -> (n: u32)
        ensures
            n == step_budget(self.req.max_tokens, self.tokens_used),
            64 <= n <= 1024,
    {
        let left = self.req.max_tokens.saturating_sub(self.tokens_used);
        let capped = if left <= 1024 {
            left
        } else {
            1024
        };
        if capped >= 64 {
            capped
        } else {
            64
        }
    }

    /// Takes in the model's reply to the current step: adds its token
    /// usage (the larger of total and completion tokens, saturating),
    /// records the turn, and decides whether it is the final answer or
    /// which of the requested tool calls to run.
    pub fn on_model_reply(
        &mut self,
        usage: Option<(u32, u32)>,
        content: &str,
        tool_calls_requested: usize,
    ) -> (d: ReplyDecision)
        requires
            old(self).wf(),
            !old(self).replied,
            old(self).step < old(self).req.max_steps,
        ensures
            final(self).wf(),
            final(self).replied,
            final(self).step == old(self).step,
            final(self).req == old(self).req,
            final(self).run_id == old(self).run_id,
            final(self).tokens_used == match usage {
                Some((total, completion)) => add_usage(old(self).tokens_used, total, completion),
                None => old(self).tokens_used,
            },
            final(self).steps@.len() == old(self).steps@.len() + 1,
            final(self).steps@.drop_last() == old(self).steps@,
            final(self).steps@.last() matches StepRecord::ModelMessage {
                step,
                content: c,
                tool_calls_made,
            } && step == old(self).step && c@ == content@ && tool_calls_made
                == tool_calls_requested as u32,
            d == if tool_calls_requested == 0 {
                ReplyDecision::FinalAnswer
            } else if tool_calls_requested > old(self).req.max_tool_calls_per_step as usize {
                ReplyDecision::RunTools(old(self).req.max_tool_calls_per_step as usize)
            } else {
                ReplyDecision::RunTools(tool_calls_requested)
            },
            final(self).calls_left == match d {
                ReplyDecision::FinalAnswer => 0,
                ReplyDecision::RunTools(n) => n,
            },
    {
        match usage {
            Some((total, completion)) => {
                let step_tokens = if total >= completion {
                    total
                } else {
                    completion
                };
                self.tokens_used = self.tokens_used.saturating_add(step_tokens);
            },
            None => {},
        }
        let ghost before = self.steps@;
        proof {
            lemma_tool_calls_past(before, self.step);
        }
        self.steps.push(
            StepRecord::ModelMessage {
                step: self.step,
                content: crate::text::owned(content),
                tool_calls_made: tool_calls_requested as u32,
            },
        );
        assert(self.steps@.drop_last() =~= before);
        assert forall|s: u32| tool_calls_at(self.steps@, s) == tool_calls_at(before, s) by {}
        self.replied = true;
        let d = if tool_calls_requested == 0 {
            ReplyDecision::FinalAnswer
        } else if tool_calls_requested > self.req.max_tool_calls_per_step as usize {
            ReplyDecision::RunTools(self.req.max_tool_calls_per_step as usize)
        } else {
            ReplyDecision::RunTools(tool_calls_requested)
        };
        self.calls_left = match d {
            ReplyDecision::FinalAnswer => 0,
            ReplyDecision::RunTools(n) => n as u32,
        };
        assert forall|i: int| 0 <= i < self.steps@.len() implies record_step(
            #[trigger] self.steps@[i],
        ) <= self.step by {
            if i < before.len() {
                assert(self.steps@[i] == before[i]);
            }
        }
        assert forall|s: u32| #[trigger] tool_calls_at(self.steps@, s) + (if s == self.step {
            self.calls_left as nat
        } else {
            0nat
        }) <= self.req.max_tool_calls_per_step by {
            assert(tool_calls_at(self.steps@, s) == tool_calls_at(before, s));
            assert(tool_calls_at(old(self).steps@, s) + 0nat <= self.req.max_tool_calls_per_step);
        }
        d
    }

    /// Records one executed tool call of the current step.
    pub fn on_tool_call(
        &mut self,
        tool: &str,
        args_hash: String,
        result_chars: usize,
        error: Option<String>,
        metrics: &mut crate::metrics::Metrics,
    )
        requires
            old(self).wf(),
            old(self).replied,
            old(self).calls_left > 0,
        ensures
            final(self).wf(),
            final(self).replied,
            final(self).calls_left == old(self).calls_left - 1,
            final(self).step == old(self).step,
            final(self).req == old(self).req,
            final(self).run_id == old(self).run_id,
            final(self).tokens_used == old(self).tokens_used,
            final(self).steps@.drop_last() == old(self).steps@,
            final(self).steps@.last() matches StepRecord::ToolCall {
                step,
                tool: t,
                args_hash: h,
                result_chars: n,
                error: e,
            } && step == old(self).step && t@ == tool@ && h == args_hash && n == result_chars && e
                == error,
            *final(metrics) == (crate::metrics::Metrics {
                agent_tool_calls_total: crate::metrics::wrap_inc(
                    old(metrics).agent_tool_calls_total,
                ),
                ..*old(metrics)
            }),
    {
        metrics.inc_agent_tool_calls();
        let ghost before = self.steps@;
        self.steps.push(
            StepRecord::ToolCall {
                step: self.step,
                tool: crate::text::owned(tool),
                args_hash,
                result_chars,
                error,
            },
        );
        assert(self.steps@.drop_last() =~= before);
        self.calls_left = self.calls_left - 1;
        assert forall|s: u32| #[trigger] tool_calls_at(self.steps@, s) == tool_calls_at(before, s) + if s
            == self.step {
            1nat
        } else {
            0nat
        } by {}
    }

    /// Closes the current step after its tool calls.
    pub fn end_step(&mut self)
        requires
            old(self).wf(),
            old(self).replied,
        ensures
            final(self).wf(),
            !final(self).replied,
            final(self).step == old(self).step + 1,
            final(self).req == old(self).req,
            final(self).run_id == old(self).run_id,
            final(self).tokens_used == old(self).tokens_used,
            final(self).steps == old(self).steps,
            final(self).calls_left == 0,
    {
        proof {
            lemma_tool_calls_past(self.steps@, (self.step + 1) as u32);
        }
        self.step = self.step + 1;
        self.replied = false;
        self.calls_left = 0;
    }

    /// Ends the run: counts the stop reason and assembles the response.
    /// A run stops at its step cap only once every step has run, and with a
    /// final answer only right after the model replied without tool calls,
    /// that reply being the answer.
    pub fn finish(self, stopped: StoppedBecause, final_answer: String, metrics: &mut crate::metrics::Metrics) -> (r:
        AgentRunResponse)
        requires
            self.wf(),
            stopped == StoppedBecause::MaxSteps ==> !self.replied && self.step
                == self.req.max_steps,
            stopped == StoppedBecause::FinalAnswer ==> self.replied && ends_on_answer(
                self.steps@,
                final_answer@,
            ),
        ensures
            run_ends_consistently(r, self.req),
            r.final_answer == final_answer,
            r.steps == self.steps,
            r.stopped_because == stopped,
            r.tokens_used == self.tokens_used,
            r.run_id == self.run_id,
            *final(metrics) == match stop_metric(stopped) {
                crate::metrics::AgentStopReason::FinalAnswer => crate::metrics::Metrics {
                    agent_runs_stopped_final_answer: crate::metrics::wrap_inc(
                        old(metrics).agent_runs_stopped_final_answer,
                    ),
                    ..*old(metrics)
                },
                crate::metrics::AgentStopReason::MaxSteps => crate::metrics::Metrics {
                    agent_runs_stopped_max_steps: crate::metrics::wrap_inc(
                        old(metrics).agent_runs_stopped_max_steps,
                    ),
                    ..*old(metrics)
                },
                crate::metrics::AgentStopReason::MaxTokens => crate::metrics::Metrics {
                    agent_runs_stopped_max_tokens: crate::metrics::wrap_inc(
                        old(metrics).agent_runs_stopped_max_tokens,
                    ),
                    ..*old(metrics)
                },
                crate::metrics::AgentStopReason::MaxSeconds => crate::metrics::Metrics {
                    agent_runs_stopped_max_seconds: crate::metrics::wrap_inc(
                        old(metrics).agent_runs_stopped_max_seconds,
                    ),
                    ..*old(metrics)
                },
                crate::metrics::AgentStopReason::ToolError => crate::metrics::Metrics {
                    agent_runs_stopped_tool_error: crate::metrics::wrap_inc(
                        old(metrics).agent_runs_stopped_tool_error,
                    ),
                    ..*old(metrics)
                },
                crate::metrics::AgentStopReason::DlpBlocked => crate::metrics::Metrics {
                    agent_runs_stopped_dlp_blocked: crate::metrics::wrap_inc(
                        old(metrics).agent_runs_stopped_dlp_blocked,
                    ),
                    ..*old(metrics)
                },
            },
    {
        let reason = match stopped {
            StoppedBecause::FinalAnswer => crate::metrics::AgentStopReason::FinalAnswer,
            StoppedBecause::MaxSteps => crate::metrics::AgentStopReason::MaxSteps,
            StoppedBecause::MaxTokens => crate::metrics::AgentStopReason::MaxTokens,
            StoppedBecause::MaxSeconds => crate::metrics::AgentStopReason::MaxSeconds,
            StoppedBecause::ToolError => crate::metrics::AgentStopReason::ToolError,
            StoppedBecause::ModelDoesNotSupportToolUse => crate::metrics::AgentStopReason::ToolError,
            StoppedBecause::DlpBlocked => crate::metrics::AgentStopReason::DlpBlocked,
        };
        metrics.inc_agent_stop(reason);
        proof {
            run_stays_within_caps(self);
        }
        let req = Ghost(self.req);
        let r = AgentRunResponse {
            final_answer,
            steps: self.steps,
            stopped_because: stopped,
            tokens_used: self.tokens_used,
            run_id: self.run_id,
        };
        assert(run_ends_consistently(r, req@));
        r
    }
}

/// What a finished run's response keeps of its caps and its stop reason:
/// no more model turns than the step cap; no step with more tool calls
/// than the per-step cap; a step-cap stop after exactly that many turns;
/// and a final-answer stop ending on a reply without tool calls whose
/// content is the answer.
pub open spec fn run_ends_consistently(r: AgentRunResponse, req: AgentRunRequest) -> bool {
    &&& model_turns(r.steps@) <= req.max_steps
    &&& forall|s: u32| #[trigger] tool_calls_at(r.steps@, s) <= req.max_tool_calls_per_step
    &&& r.stopped_because == StoppedBecause::MaxSteps ==> model_turns(r.steps@) == req.max_steps
    &&& r.stopped_because == StoppedBecause::FinalAnswer ==> ends_on_answer(r.steps@, r.final_answer@)
}

/// The records end on a model reply without tool calls whose content is
/// `answer`.
pub open spec fn ends_on_answer(steps: Seq<StepRecord>, answer: Seq<char>) -> bool {
    steps.len() > 0 && match steps.last() {
        StepRecord::ModelMessage { content, tool_calls_made, .. } => tool_calls_made == 0
            && content@ == answer,
        _ => false,
    }
}

/// A run never records more model turns than its step cap, never more
/// tool calls in one step than the per-step cap, and the token cap sent
/// upstream for a step always lies between 64 and 1024.
pub proof fn run_stays_within_caps(run: AgentRun)
    requires
        run.wf(),
    ensures
        model_turns(run.steps@) <= run.req.max_steps,
        forall|s: u32| #[trigger] tool_calls_at(run.steps@, s) <= run.req.max_tool_calls_per_step,
        64 <= step_budget(run.req.max_tokens, run.tokens_used) <= 1024,
{
    assert forall|s: u32| #[trigger] tool_calls_at(run.steps@, s) <= run.req.max_tool_calls_per_step by {
        assert(tool_calls_at(run.steps@, s) + (if s == run.step {
            run.calls_left as nat
        } else {
            0nat
        }) <= run.req.max_tool_calls_per_step);
    }
}

/// Token usage only grows as replies come in.
pub proof fn usage_is_monotone(used: u32, total: u32, completion: u32)
    ensures
        add_usage(used, total, completion) >= used,
        add_usage(used, total, completion) >= total || add_usage(used, total, completion)
            == u32::MAX,
{
}

} // verus!
