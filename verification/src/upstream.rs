//! Upstream-backend detection.
//!
//! Three local runtimes speak OpenAI-compatible HTTP: llama.cpp's
//! `llama-server`, Ollama and LM Studio. The runtime probes them on their
//! default localhost ports; this module holds what the probes are made
//! of and what is decided from their answers: which backend to report
//! first, which bases to fall back to, which model ids are chat models,
//! and the structured "upstream offline" answer.

use vstd::prelude::*;
use crate::text::{
    ascii_lower_chars, ascii_lower_seq, chars_of, contains_seq, contains_str, owned, push_str,
    str_eq, string_of_range,
};

verus! {

/// Default localhost URL llama.cpp's `llama-server` binds to.
pub const LLAMA_SERVER_DEFAULT_URL: &'static str = "http://127.0.0.1:8080";

/// Default localhost URL Ollama serves on.
pub const OLLAMA_DEFAULT_URL: &'static str = "http://127.0.0.1:11434";

/// Default localhost URL LM Studio's local server binds to.
pub const LM_STUDIO_DEFAULT_URL: &'static str = "http://127.0.0.1:1234";

/// How long one probe may take, in milliseconds.
pub const PROBE_TIMEOUT_MS: u64 = 750;

/// A known local model runtime.
#[derive(Debug, Clone, Copy, PartialEq, Eq, Structural)]
pub enum Backend {
    LlamaServer,
    Ollama,
    LmStudio,
}

/// A backend's display name.
pub open spec fn backend_name(b: Backend) -> Seq<char> {
    match b {
        Backend::LlamaServer => "llama-server"@,
        Backend::Ollama => "ollama"@,
        Backend::LmStudio => "lm studio"@,
    }
}

/// A backend's default base URL.
pub open spec fn backend_url(b: Backend) -> Seq<char> {
    match b {
        Backend::LlamaServer => LLAMA_SERVER_DEFAULT_URL@,
        Backend::Ollama => OLLAMA_DEFAULT_URL@,
        Backend::LmStudio => LM_STUDIO_DEFAULT_URL@,
    }
}

/// The always-available endpoint that shows a backend is alive.
pub open spec fn backend_probe_path(b: Backend) -> Seq<char> {
    match b {
        Backend::LlamaServer => "/health"@,
        Backend::Ollama => "/api/tags"@,
        Backend::LmStudio => "/v1/models"@,
    }
}

impl Backend {
    /// The name shown in the doctor command and the startup banner.
    pub fn name(self) -> (s: &'static str)
        ensures
            s@ == backend_name(self),
    {
        match self {
            Backend::LlamaServer => "llama-server",
            Backend::Ollama => "ollama",
            Backend::LmStudio => "lm studio",
        }
    }

    /// The URL the daemon proxies to for this backend.
    pub fn upstream_url(self) -> (s: &'static str)
        ensures
            s@ == backend_url(self),
    {
        match self {
            Backend::LlamaServer => LLAMA_SERVER_DEFAULT_URL,
            Backend::Ollama => OLLAMA_DEFAULT_URL,
            Backend::LmStudio => LM_STUDIO_DEFAULT_URL,
        }
    }

    /// The endpoint probed to see whether the backend is alive.
    pub fn probe_path(self) -> (s: &'static str)
        ensures
            s@ == backend_probe_path(self),
    {
        match self {
            Backend::LlamaServer => "/health",
            Backend::Ollama => "/api/tags",
            Backend::LmStudio => "/v1/models",
        }
    }

    /// The full URL of the liveness probe.
    pub fn probe_url(self) -> (s: String)
        ensures
            s@ == backend_url(self) + backend_probe_path(self),
    {
        let mut s = owned(self.upstream_url());
        push_str(&mut s, self.probe_path());
        s
    }
}

/// The backends in probing priority order.
pub open spec fn probe_order() -> Seq<Backend> {
    seq![Backend::LlamaServer, Backend::Ollama, Backend::LmStudio]
}

/// The backends to probe at startup, in priority order.
pub fn all_backends() -> (v: Vec<Backend>)
    ensures
        v@ == probe_order(),
{
    let v = vec![Backend::LlamaServer, Backend::Ollama, Backend::LmStudio];
    assert(v@ =~= probe_order());
    v
}

/// The outcome of probing one backend.
#[derive(Debug, Clone)]
pub struct ProbeResult {
    pub backend: Backend,
    pub url: String,
    pub reachable: bool,
}

/// The outcomes of probing every backend, in priority order.
#[derive(Debug, Clone)]
pub struct BackendReport {
    pub results: Vec<ProbeResult>,
}

/// The index of the first reachable result at or after `i`.
pub open spec fn first_reachable_from(results: Seq<ProbeResult>, i: int) -> Option<int>
    decreases results.len() - i,
{
    if i < 0 || i >= results.len() {
        None
    } else if results[i].reachable {
        Some(i)
    } else {
        first_reachable_from(results, i + 1)
    }
}

impl BackendReport {
    /// The first backend that responded, in priority order.
    pub fn first_reachable(&self) -> (r: Option<&ProbeResult>)
        ensures
            match first_reachable_from(self.results@, 0) {
                Some(i) => r == Some(&self.results@[i]),
                None => r is None,
            },
    {
        let mut i: usize = 0;
        while i < self.results.len()
            invariant
                i <= self.results@.len(),
                first_reachable_from(self.results@, 0) == first_reachable_from(
                    self.results@,
                    i as int,
                ),
            decreases self.results@.len() - i,
        {
            if self.results[i].reachable {
                return Some(&self.results[i]);
            }
            i += 1;
        }
        None
    }

    /// Whether any backend responded.
    pub fn any_reachable(&self) -> (r: bool)
        ensures
            r == exists|i: int| 0 <= i < self.results@.len() && self.results@[i].reachable,
    {
        let mut i: usize = 0;
        while i < self.results.len()
            invariant
                i <= self.results@.len(),
                forall|k: int| 0 <= k < i ==> !self.results@[k].reachable,
            decreases self.results@.len() - i,
        {
            if self.results[i].reachable {
                return true;
            }
            i += 1;
        }
        false
    }
}

/// The report names a reachable backend first exactly when some backend
/// is reachable, and the one it names is reachable with none before it.
pub proof fn first_reachable_is_the_earliest(results: Seq<ProbeResult>)
    ensures
        (first_reachable_from(results, 0) is Some) == (exists|i: int|
            0 <= i < results.len() && results[i].reachable),
        first_reachable_from(results, 0) matches Some(i) ==> 0 <= i < results.len()
            && results[i].reachable && forall|k: int| 0 <= k < i ==> !results[k].reachable,
{
    lemma_first_reachable_from(results, 0);
}

proof fn lemma_first_reachable_from(results: Seq<ProbeResult>, start: int)
    requires
        0 <= start,
    ensures
        (first_reachable_from(results, start) is Some) == (exists|i: int|
            start <= i < results.len() && results[i].reachable),
        first_reachable_from(results, start) matches Some(i) ==> start <= i < results.len()
            && results[i].reachable && forall|k: int| start <= k < i ==> !results[k].reachable,
    decreases results.len() - start,
{
    if start < results.len() && !results[start].reachable {
        lemma_first_reachable_from(results, start + 1);
        if exists|i: int| start <= i < results.len() && results[i].reachable {
            let i = choose|i: int| start <= i < results.len() && results[i].reachable;
            assert(start + 1 <= i);
        }
    }
}

/// `s` without its trailing copies of `c` (`str::trim_end_matches`).
pub open spec fn trim_trailing(s: Seq<char>, c: char) -> Seq<char>
    decreases s.len(),
{
    if s.len() > 0 && s.last() == c {
        trim_trailing(s.drop_last(), c)
    } else {
        s
    }
}

proof fn lemma_trim_trailing_prefix(s: Seq<char>, c: char, n: int)
    requires
        0 <= n <= s.len(),
        forall|k: int| n <= k < s.len() ==> s[k] == c,
    ensures
        trim_trailing(s, c) == trim_trailing(s.take(n), c),
    decreases s.len(),
{
    if s.len() > n {
        assert(s.drop_last().take(n) =~= s.take(n));
        lemma_trim_trailing_prefix(s.drop_last(), c, n);
    } else {
        assert(s.take(n) =~= s);
    }
}

/// A base URL without trailing slashes.
pub fn trim_trailing_slashes(s: &str) -> (r: String)
    ensures
        r@ == trim_trailing(s@, '/'),
{
    let v = chars_of(s);
    let mut n = v.len();
    while n > 0 && v[n - 1] == '/'
        invariant
            n <= v@.len(),
            forall|k: int| n <= k < v@.len() ==> v@[k] == '/',
        decreases n,
    {
        n -= 1;
    }
    proof {
        lemma_trim_trailing_prefix(v@, '/', n as int);
        assert(n == 0 || v@.take(n as int).last() != '/');
    }
    let r = string_of_range(v.as_slice(), 0, n);
    assert(v@.subrange(0, n as int) =~= v@.take(n as int));
    r
}

/// The order in which other backends are tried after the configured one.
pub open spec fn fallback_order() -> Seq<Backend> {
    seq![Backend::Ollama, Backend::LmStudio, Backend::LlamaServer]
}

/// The backends worth trying after the configured upstream failed:
/// `order` without those whose default URL is the configured base.
pub open spec fn fallbacks_from(order: Seq<Backend>, configured_base: Seq<char>) -> Seq<Backend>
    decreases order.len(),
{
    if order.len() == 0 {
        Seq::empty()
    } else {
        let rest = fallbacks_from(order.drop_last(), configured_base);
        if backend_url(order.last()) == configured_base {
            rest
        } else {
            rest.push(order.last())
        }
    }
}

/// The backends to fall back to, in priority order, when the configured
/// upstream (given as the user wrote it) is not usable. The configured
/// base itself is skipped so it is not probed twice.
pub fn fallback_backends(configured: &str) -> (v: Vec<Backend>)
    ensures
        v@ == fallbacks_from(fallback_order(), trim_trailing(configured@, '/')),
{
    let base = trim_trailing_slashes(configured);
    let order = vec![Backend::Ollama, Backend::LmStudio, Backend::LlamaServer];
    assert(order@ =~= fallback_order());
    let mut v: Vec<Backend> = Vec::new();
    let mut i: usize = 0;
    while i < order.len()
        invariant
            i <= order@.len(),
            order@ == fallback_order(),
            base@ == trim_trailing(configured@, '/'),
            v@ == fallbacks_from(order@.take(i as int), base@),
        decreases order@.len() - i,
    {
        assert(order@.take(i + 1).drop_last() =~= order@.take(i as int));
        let b = order[i];
        if !str_eq(b.upstream_url(), base.as_str()) {
            v.push(b);
        }
        i += 1;
    }
    assert(order@.take(order@.len() as int) =~= order@);
    v
}

/// The endpoints tried, in order, to see whether the configured upstream
/// responds.
pub open spec fn configured_probe_paths() -> Seq<Seq<char>> {
    seq!["/v1/models"@, "/health"@, "/api/tags"@]
}

/// The probe URLs for a configured upstream: its base without trailing
/// slashes, followed by each probe path in turn.
pub fn configured_probe_urls(upstream: &str) -> (v: Vec<String>)
    ensures
        v@.len() == 3,
        forall|i: int|
            0 <= i < 3 ==> #[trigger] v@[i]@ == trim_trailing(upstream@, '/')
                + configured_probe_paths()[i],
{
    let base = trim_trailing_slashes(upstream);
    let mut a = owned(base.as_str());
    push_str(&mut a, "/v1/models");
    let mut b = owned(base.as_str());
    push_str(&mut b, "/health");
    let mut c = owned(base.as_str());
    push_str(&mut c, "/api/tags");
    vec![a, b, c]
}

/// A model id that names an embedding or reranking model, which cannot
/// serve chat: it contains `embed` or `reranker`, ignoring ASCII case.
pub open spec fn is_embedding(id: Seq<char>) -> bool {
    contains_seq(ascii_lower_seq(id), "embed"@) || contains_seq(ascii_lower_seq(id), "reranker"@)
}

/// Whether a model id names an embedding or reranking model.
pub fn is_embedding_model(id: &str) -> (r: bool)
    ensures
        r == is_embedding(id@),
{
    let lower = ascii_lower_chars(chars_of(id).as_slice());
    contains_str(lower.as_slice(), "embed") || contains_str(lower.as_slice(), "reranker")
}

/// The first chat-capable model id at or after `i`.
pub open spec fn first_chat_model_from(ids: Seq<String>, i: int) -> Option<int>
    decreases ids.len() - i,
{
    if i < 0 || i >= ids.len() {
        None
    } else if !is_embedding(ids[i]@) {
        Some(i)
    } else {
        first_chat_model_from(ids, i + 1)
    }
}

/// The first model id of a `/v1/models` listing that is not an embedding
/// model.
pub fn pick_chat_model(ids: &Vec<String>) -> (r: Option<String>)
    ensures
        match first_chat_model_from(ids@, 0) {
            Some(i) => r matches Some(m) && m@ == ids@[i]@,
            None => r is None,
        },
{
    let mut i: usize = 0;
    while i < ids.len()
        invariant
            i <= ids@.len(),
            first_chat_model_from(ids@, 0) == first_chat_model_from(ids@, i as int),
        decreases ids@.len() - i,
    {
        if !is_embedding_model(ids[i].as_str()) {
            return Some(owned(ids[i].as_str()));
        }
        i += 1;
    }
    None
}

/// A live upstream a chat completion can be routed to: its base URL and
/// a chat-capable model, when one was found.
#[derive(Debug, Clone)]
pub struct LiveUpstream {
    pub url: String,
    pub model: Option<String>,
}

/// A backend that answered `/v1/models`: live at `base`, with the first
/// chat model it lists (none when it only lists embedding models).
pub fn live_from_models(base: &str, ids: &Vec<String>) -> (r: LiveUpstream)
    ensures
        r.url@ == trim_trailing(base@, '/'),
        match first_chat_model_from(ids@, 0) {
            Some(i) => r.model matches Some(m) && m@ == ids@[i]@,
            None => r.model is None,
        },
{
    LiveUpstream { url: trim_trailing_slashes(base), model: pick_chat_model(ids) }
}

/// A llama-server that only answered `/health`: live at `base`, serving
/// whatever model is loaded.
pub fn live_from_health(base: &str) -> (r: LiveUpstream)
    ensures
        r.url@ == trim_trailing(base@, '/'),
        r.model is None,
{
    LiveUpstream { url: trim_trailing_slashes(base), model: None }
}

/// The structured "no upstream is reachable" answer, served with HTTP 503.
#[derive(Debug, Clone)]
pub struct OfflineError {
    /// Always `upstream_offline`.
    pub kind: String,
    pub message: String,
    /// The upstream the daemon was configured with.
    pub configured: String,
    /// The default URLs that were checked.
    pub checked: Vec<String>,
    pub hint: String,
}

/// The hint carried by the offline answer.
pub open spec fn offline_hint() -> Seq<char> {
    "start one of: llama-server, ollama, or lm studio. run `unhosted doctor` for an install walkthrough."@
}

/// Builds the offline answer for the configured upstream.
pub fn offline_error(configured: &str) -> (e: OfflineError)
    ensures
        e.kind@ == "upstream_offline"@,
        e.message@ == "no local model runtime is responding"@,
        e.configured@ == configured@,
        e.checked@.len() == 3,
        e.checked@[0]@ == LLAMA_SERVER_DEFAULT_URL@,
        e.checked@[1]@ == OLLAMA_DEFAULT_URL@,
        e.checked@[2]@ == LM_STUDIO_DEFAULT_URL@,
        e.hint@ == offline_hint(),
{
    OfflineError {
        kind: owned("upstream_offline"),
        message: owned("no local model runtime is responding"),
        configured: owned(configured),
        checked: vec![
            owned(LLAMA_SERVER_DEFAULT_URL),
            owned(OLLAMA_DEFAULT_URL),
            owned(LM_STUDIO_DEFAULT_URL),
        ],
        hint: owned(
            "start one of: llama-server, ollama, or lm studio. run `unhosted doctor` for an install walkthrough.",
        ),
    }
}

/// The operating system a hint is written for.
#[derive(Debug, Clone, Copy, PartialEq, Eq, Structural)]
pub enum HostOs {
    MacOs,
    Linux,
    Windows,
    Other,
}

/// The install hints for each operating system.
pub open spec fn hints_for(os: HostOs) -> Seq<char> {
    match os {
        HostOs::MacOs => MACOS_HINTS@,
        HostOs::Linux => LINUX_HINTS@,
        HostOs::Windows => WINDOWS_HINTS@,
        HostOs::Other => OTHER_HINTS@,
    }
}

/// Install hints on macOS.
pub const MACOS_HINTS: &'static str = "\
no local model runtime is reachable. install one:

  \u{2022} llama.cpp  \u{2014} brew install llama.cpp           (recommended; matches the docs)
  \u{2022} ollama     \u{2014} brew install ollama && ollama serve
  \u{2022} lm studio  \u{2014} https://lmstudio.ai             (gui, easiest)

then point unhosted at it (only needed for non-default ports):
  UNHOSTED_LLAMA_SERVER_URL=http://127.0.0.1:8080 unhosted serve

after llama.cpp is installed:
  unhosted pull llama3.2:3b
  llama-server -m ~/.cache/unhosted/models/llama3.2-3b.gguf --port 8080 -c 4096 -ngl 99
";

/// Install hints on Linux.
pub const LINUX_HINTS: &'static str = "\
no local model runtime is reachable. install one:

  \u{2022} llama.cpp  \u{2014} https://github.com/ggerganov/llama.cpp  (build from source, or use a release tarball)
  \u{2022} ollama     \u{2014} curl -fsSL https://ollama.com/install.sh | sh && ollama serve
  \u{2022} lm studio  \u{2014} https://lmstudio.ai                     (appimage)

then point unhosted at it (only needed for non-default ports):
  UNHOSTED_LLAMA_SERVER_URL=http://127.0.0.1:8080 unhosted serve
";

/// Install hints on Windows.
pub const WINDOWS_HINTS: &'static str = "\
no local model runtime is reachable. install one:

  \u{2022} lm studio  \u{2014} https://lmstudio.ai             (recommended on windows; gui)
  \u{2022} ollama     \u{2014} https://ollama.com/download/windows
  \u{2022} llama.cpp  \u{2014} https://github.com/ggerganov/llama.cpp/releases (precompiled .exe)

then point unhosted at it (only needed for non-default ports):
  set UNHOSTED_LLAMA_SERVER_URL=http://127.0.0.1:8080
";

/// Install hints elsewhere.
pub const OTHER_HINTS: &'static str = "\
no local model runtime is reachable. install llama.cpp, ollama, or lm studio,
then re-run `unhosted serve`. see https://github.com/unhosted-ai/unhosted-core
for setup details.
";

/// Plain-English install hints for the user's operating system, printed
/// when no backend is reachable.
pub fn install_hints(os: HostOs) -> (s: &'static str)
    ensures
        s@ == hints_for(os),
{
    match os {
        HostOs::MacOs => MACOS_HINTS,
        HostOs::Linux => LINUX_HINTS,
        HostOs::Windows => WINDOWS_HINTS,
        HostOs::Other => OTHER_HINTS,
    }
}

} // verus!
