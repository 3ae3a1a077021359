//! Local model management: the library of GGUF files, the single
//! download slot, and the supervised `llama-server` runtime.
//!
//! The runtime does the file system, network and process work; this
//! module holds the rules it follows: which file names and download URLs
//! are acceptable, which port the managed server binds, how a download is
//! cut into ranged chunks and resumed, how the library and LM Studio's
//! models are merged (library first, newest first), and how the download
//! slot and the runtime state move.

use vstd::prelude::*;
use crate::paths::{home_dir, home_of, join_path, joined_path, EnvVars, HomeError};
use crate::text::{
    ascii_lower_chars, ascii_lower_seq, chars_of, contains_seq, contains_str, ends_with,
    ends_with_str, owned, push_str, push_u64, str_eq, trim, trim_chars,
    utf8_len, utf8_len_exceeds, string_of_range, decimal,
};

verus! {

/// How long a freshly spawned llama-server may take to answer `/health`,
/// in seconds.
pub const HEALTH_WAIT_BUDGET_SECS: u64 = 180;

/// Poll interval against the child's `/health` while starting, in
/// milliseconds.
pub const HEALTH_POLL_INTERVAL_MS: u64 = 500;

/// The port the managed llama-server binds when the upstream is not a
/// loopback URL.
pub const DEFAULT_RUNTIME_PORT: u16 = 8080;

// ---------------------------------------------------------------------
// The curated catalog
// ---------------------------------------------------------------------

/// A model the user can download with one click.
#[derive(Debug, Clone, Copy)]
pub struct CatalogEntry {
    /// Stable id the API accepts.
    pub id: &'static str,
    /// Display name.
    pub name: &'static str,
    /// One-line "why pick this one".
    pub blurb: &'static str,
    /// File name it lands under in the models dir.
    pub file: &'static str,
    /// Direct download URL (HTTPS, huggingface.co).
    pub url: &'static str,
    /// Exact size in bytes.
    pub size_bytes: u64,
    /// `sha256:<hex>` whole-file digest, when pinned.
    pub sha256: Option<&'static str>,
}

/// The curated starter set, smallest first.
pub open spec fn catalog_spec() -> Seq<CatalogEntry> {
    seq![
        CatalogEntry {
            id: "llama-3.2-1b-instruct",
            name: "Llama 3.2 1B Instruct",
            blurb: "the starter model \u{2014} fast on anything, fine for chat and quick questions",
            file: "Llama-3.2-1B-Instruct-Q4_K_M.gguf",
            url: "https://huggingface.co/bartowski/Llama-3.2-1B-Instruct-GGUF/resolve/main/Llama-3.2-1B-Instruct-Q4_K_M.gguf",
            size_bytes: 807_694_464,
            sha256: None,
        },
        CatalogEntry {
            id: "gemma-2-2b-it",
            name: "Gemma 2 2B IT",
            blurb: "google's small model \u{2014} strong quality for its size",
            file: "gemma-2-2b-it-Q4_K_M.gguf",
            url: "https://huggingface.co/bartowski/gemma-2-2b-it-GGUF/resolve/main/gemma-2-2b-it-Q4_K_M.gguf",
            size_bytes: 1_708_582_752,
            sha256: None,
        },
        CatalogEntry {
            id: "llama-3.2-3b-instruct",
            name: "Llama 3.2 3B Instruct",
            blurb: "the daily driver on 8GB+ machines \u{2014} noticeably smarter than 1B",
            file: "Llama-3.2-3B-Instruct-Q4_K_M.gguf",
            url: "https://huggingface.co/bartowski/Llama-3.2-3B-Instruct-GGUF/resolve/main/Llama-3.2-3B-Instruct-Q4_K_M.gguf",
            size_bytes: 2_019_377_696,
            sha256: None,
        },
        CatalogEntry {
            id: "phi-3.5-mini-instruct",
            name: "Phi 3.5 Mini Instruct",
            blurb: "microsoft's 3.8B \u{2014} punches above its weight on reasoning",
            file: "Phi-3.5-mini-instruct-Q4_K_M.gguf",
            url: "https://huggingface.co/bartowski/Phi-3.5-mini-instruct-GGUF/resolve/main/Phi-3.5-mini-instruct-Q4_K_M.gguf",
            size_bytes: 2_393_232_672,
            sha256: None,
        },
        CatalogEntry {
            id: "mistral-7b-instruct-v0.3",
            name: "Mistral 7B Instruct v0.3",
            blurb: "the classic 7B \u{2014} needs ~6GB free memory",
            file: "Mistral-7B-Instruct-v0.3-Q4_K_M.gguf",
            url: "https://huggingface.co/bartowski/Mistral-7B-Instruct-v0.3-GGUF/resolve/main/Mistral-7B-Instruct-v0.3-Q4_K_M.gguf",
            size_bytes: 4_372_812_000,
            sha256: None,
        },
        CatalogEntry {
            id: "qwen2.5-7b-instruct",
            name: "Qwen 2.5 7B Instruct",
            blurb: "best general 7B in the list \u{2014} multilingual, good at structure",
            file: "Qwen2.5-7B-Instruct-Q4_K_M.gguf",
            url: "https://huggingface.co/bartowski/Qwen2.5-7B-Instruct-GGUF/resolve/main/Qwen2.5-7B-Instruct-Q4_K_M.gguf",
            size_bytes: 4_683_074_240,
            sha256: None,
        },
        CatalogEntry {
            id: "qwen2.5-coder-7b-instruct",
            name: "Qwen 2.5 Coder 7B Instruct",
            blurb: "the coding pick \u{2014} pairs well with the VS Code extension",
            file: "Qwen2.5-Coder-7B-Instruct-Q4_K_M.gguf",
            url: "https://huggingface.co/bartowski/Qwen2.5-Coder-7B-Instruct-GGUF/resolve/main/Qwen2.5-Coder-7B-Instruct-Q4_K_M.gguf",
            size_bytes: 4_683_074_336,
            sha256: None,
        },
        CatalogEntry {
            id: "helmsman-4b",
            name: "Helmsman 4B",
            blurb: "unhosted's own orchestration specialist \u{2014} planning, routing, prioritizing, tuned from Qwen3 4B",
            file: "helmsman-4b-Q4_K_M.gguf",
            url: "https://huggingface.co/sinhaankur/helmsman-4b/resolve/main/helmsman-4b-Q4_K_M.gguf",
            size_bytes: 2_497_278_880,
            sha256: Some("sha256:3c81246dbde3ffaeeca5d490c38739343d68630281731c557d11620318331bcd"),
        },
    ]
}

/// The curated catalog.
pub fn catalog() -> (v: Vec<CatalogEntry>)
    ensures
        v@ == catalog_spec(),
{
    let v = vec![
        CatalogEntry {
            id: "llama-3.2-1b-instruct",
            name: "Llama 3.2 1B Instruct",
            blurb: "the starter model \u{2014} fast on anything, fine for chat and quick questions",
            file: "Llama-3.2-1B-Instruct-Q4_K_M.gguf",
            url: "https://huggingface.co/bartowski/Llama-3.2-1B-Instruct-GGUF/resolve/main/Llama-3.2-1B-Instruct-Q4_K_M.gguf",
            size_bytes: 807_694_464,
            sha256: None,
        },
        CatalogEntry {
            id: "gemma-2-2b-it",
            name: "Gemma 2 2B IT",
            blurb: "google's small model \u{2014} strong quality for its size",
            file: "gemma-2-2b-it-Q4_K_M.gguf",
            url: "https://huggingface.co/bartowski/gemma-2-2b-it-GGUF/resolve/main/gemma-2-2b-it-Q4_K_M.gguf",
            size_bytes: 1_708_582_752,
            sha256: None,
        },
        CatalogEntry {
            id: "llama-3.2-3b-instruct",
            name: "Llama 3.2 3B Instruct",
            blurb: "the daily driver on 8GB+ machines \u{2014} noticeably smarter than 1B",
            file: "Llama-3.2-3B-Instruct-Q4_K_M.gguf",
            url: "https://huggingface.co/bartowski/Llama-3.2-3B-Instruct-GGUF/resolve/main/Llama-3.2-3B-Instruct-Q4_K_M.gguf",
            size_bytes: 2_019_377_696,
            sha256: None,
        },
        CatalogEntry {
            id: "phi-3.5-mini-instruct",
            name: "Phi 3.5 Mini Instruct",
            blurb: "microsoft's 3.8B \u{2014} punches above its weight on reasoning",
            file: "Phi-3.5-mini-instruct-Q4_K_M.gguf",
            url: "https://huggingface.co/bartowski/Phi-3.5-mini-instruct-GGUF/resolve/main/Phi-3.5-mini-instruct-Q4_K_M.gguf",
            size_bytes: 2_393_232_672,
            sha256: None,
        },
        CatalogEntry {
            id: "mistral-7b-instruct-v0.3",
            name: "Mistral 7B Instruct v0.3",
            blurb: "the classic 7B \u{2014} needs ~6GB free memory",
            file: "Mistral-7B-Instruct-v0.3-Q4_K_M.gguf",
            url: "https://huggingface.co/bartowski/Mistral-7B-Instruct-v0.3-GGUF/resolve/main/Mistral-7B-Instruct-v0.3-Q4_K_M.gguf",
            size_bytes: 4_372_812_000,
            sha256: None,
        },
        CatalogEntry {
            id: "qwen2.5-7b-instruct",
            name: "Qwen 2.5 7B Instruct",
            blurb: "best general 7B in the list \u{2014} multilingual, good at structure",
            file: "Qwen2.5-7B-Instruct-Q4_K_M.gguf",
            url: "https://huggingface.co/bartowski/Qwen2.5-7B-Instruct-GGUF/resolve/main/Qwen2.5-7B-Instruct-Q4_K_M.gguf",
            size_bytes: 4_683_074_240,
            sha256: None,
        },
        CatalogEntry {
            id: "qwen2.5-coder-7b-instruct",
            name: "Qwen 2.5 Coder 7B Instruct",
            blurb: "the coding pick \u{2014} pairs well with the VS Code extension",
            file: "Qwen2.5-Coder-7B-Instruct-Q4_K_M.gguf",
            url: "https://huggingface.co/bartowski/Qwen2.5-Coder-7B-Instruct-GGUF/resolve/main/Qwen2.5-Coder-7B-Instruct-Q4_K_M.gguf",
            size_bytes: 4_683_074_336,
            sha256: None,
        },
        CatalogEntry {
            id: "helmsman-4b",
            name: "Helmsman 4B",
            blurb: "unhosted's own orchestration specialist \u{2014} planning, routing, prioritizing, tuned from Qwen3 4B",
            file: "helmsman-4b-Q4_K_M.gguf",
            url: "https://huggingface.co/sinhaankur/helmsman-4b/resolve/main/helmsman-4b-Q4_K_M.gguf",
            size_bytes: 2_497_278_880,
            sha256: Some("sha256:3c81246dbde3ffaeeca5d490c38739343d68630281731c557d11620318331bcd"),
        },
    ];
    assert(v@ =~= catalog_spec());
    v
}

/// The pinned digest of the catalog entry downloaded from `url`, if the
/// catalog has one for it.
pub open spec fn pinned_digest_from(entries: Seq<CatalogEntry>, url: Seq<char>, i: int) -> Option<Seq<char>>
    decreases entries.len() - i,
{
    if i < 0 || i >= entries.len() {
        None
    } else if entries[i].url@ == url {
        match entries[i].sha256 {
            Some(d) => Some(d@),
            None => None,
        }
    } else {
        pinned_digest_from(entries, url, i + 1)
    }
}

/// The whole-file digest the catalog pins for a download URL: that of the
/// first entry with this URL, when it has one.
pub fn expected_digest(url: &str) -> (r: Option<String>)
    ensures
        match pinned_digest_from(catalog_spec(), url@, 0) {
            Some(d) => r matches Some(s) && s@ == d,
            None => r is None,
        },
{
    let entries = catalog();
    let mut i: usize = 0;
    while i < entries.len()
        invariant
            entries@ == catalog_spec(),
            i <= entries@.len(),
            pinned_digest_from(catalog_spec(), url@, 0) == pinned_digest_from(
                catalog_spec(),
                url@,
                i as int,
            ),
        decreases entries@.len() - i,
    {
        if str_eq(entries[i].url, url) {
            return match entries[i].sha256 {
                Some(d) => Some(owned(d)),
                None => None,
            };
        }
        i += 1;
    }
    None
}

// ---------------------------------------------------------------------
// File names
// ---------------------------------------------------------------------

/// Why a model file name was refused.
#[derive(Debug, Clone, Copy, PartialEq, Eq, Structural)]
pub enum FileNameError {
    /// Empty, or longer than 255 bytes.
    Length,
    /// Contains a path separator or `..`.
    NotBare,
    /// Starts with a dot.
    Hidden,
    /// Does not end in `.gguf` (any ASCII case).
    NotGguf,
}

/// The text of a file-name refusal.
pub open spec fn file_name_error_text(e: FileNameError) -> Seq<char> {
    match e {
        FileNameError::Length => "model file name must be 1\u{2013}255 characters"@,
        FileNameError::NotBare => "model file name must be a bare file name, not a path"@,
        FileNameError::Hidden => "model file name must not start with '.'"@,
        FileNameError::NotGguf => "model file name must end with .gguf"@,
    }
}

impl FileNameError {
    /// The message shown to the user.
    pub fn message(self) -> (s: &'static str)
        ensures
            s@ == file_name_error_text(self),
    {
        match self {
            FileNameError::Length => "model file name must be 1\u{2013}255 characters",
            FileNameError::NotBare => "model file name must be a bare file name, not a path",
            FileNameError::Hidden => "model file name must not start with '.'",
            FileNameError::NotGguf => "model file name must end with .gguf",
        }
    }
}

/// A name ends in `.gguf`, ignoring ASCII case.
pub open spec fn is_gguf_name(name: Seq<char>) -> bool {
    ends_with(ascii_lower_seq(name), ".gguf"@)
}

/// The verdict on a model file name, checked after trimming: its length
/// (1 to 255 UTF-8 bytes), that it is a bare name, not hidden, and a
/// `.gguf` file.
pub open spec fn file_name_verdict(name: Seq<char>) -> Result<Seq<char>, FileNameError> {
    let t = trim(name);
    if t.len() == 0 || utf8_len(t) > 255 {
        Err(FileNameError::Length)
    } else if contains_seq(t, seq!['/']) || contains_seq(t, seq!['\\']) || contains_seq(t, ".."@) {
        Err(FileNameError::NotBare)
    } else if t[0] == '.' {
        Err(FileNameError::Hidden)
    } else if !is_gguf_name(t) {
        Err(FileNameError::NotGguf)
    } else {
        Ok(t)
    }
}

/// Accepts only a bare `*.gguf` file name (after trimming): no
/// separators, no traversal, not hidden, 1 to 255 bytes. Everything the
/// API names goes through here before touching the file system.
pub fn safe_model_filename(name: &str) -> (r: Result<String, FileNameError>)
    ensures
        match file_name_verdict(name@) {
            Ok(t) => r matches Ok(s) && s@ == t,
            Err(e) => r == Err::<String, FileNameError>(e),
        },
{
    let t = trim_chars(chars_of(name).as_slice());
    if t.len() == 0 || utf8_len_exceeds(t.as_slice(), 255) {
        return Err(FileNameError::Length);
    }
    if contains_str(t.as_slice(), "/") || contains_str(t.as_slice(), "\\") || contains_str(
        t.as_slice(),
        "..",
    ) {
        proof {
            reveal_strlit("/");
            reveal_strlit("\\");
            assert("/"@ =~= seq!['/']);
            assert("\\"@ =~= seq!['\\']);
        }
        return Err(FileNameError::NotBare);
    }
    proof {
        reveal_strlit("/");
        reveal_strlit("\\");
        assert("/"@ =~= seq!['/']);
        assert("\\"@ =~= seq!['\\']);
    }
    if t[0] == '.' {
        return Err(FileNameError::Hidden);
    }
    let lower = ascii_lower_chars(t.as_slice());
    if !ends_with_str(lower.as_slice(), ".gguf") {
        return Err(FileNameError::NotGguf);
    }
    let s = string_of_range(t.as_slice(), 0, t.len());
    assert(t@.subrange(0, t@.len() as int) =~= t@);
    Ok(s)
}

/// An accepted name is never a path and never hidden, whatever was asked.
pub proof fn accepted_names_are_bare(name: Seq<char>)
    ensures
        file_name_verdict(name) matches Ok(t) ==> {
            &&& !contains_seq(t, seq!['/'])
            &&& !contains_seq(t, seq!['\\'])
            &&& !contains_seq(t, ".."@)
            &&& t.len() > 0
            &&& t[0] != '.'
            &&& is_gguf_name(t)
        },
{
}

// ---------------------------------------------------------------------
// Download URLs and the runtime port
// ---------------------------------------------------------------------

/// Whether `url::Url::parse` accepts a string.
pub uninterp spec fn url_parses(s: Seq<char>) -> bool;

/// The lower-case scheme `url::Url::scheme` reports for a string.
pub uninterp spec fn url_scheme(s: Seq<char>) -> Seq<char>;

/// The host `url::Url::host_str` reports for a string.
pub uninterp spec fn url_host(s: Seq<char>) -> Option<Seq<char>>;

/// The path `url::Url::path` reports for a string.
pub uninterp spec fn url_path(s: Seq<char>) -> Seq<char>;

/// The port `url::Url::port_or_known_default` reports for a string.
pub uninterp spec fn url_port(s: Seq<char>) -> Option<u16>;

/// The parts of a parsed URL that the rules look at.
#[derive(Debug, Clone)]
pub struct UrlParts {
    pub scheme: String,
    pub host: Option<String>,
    pub path: String,
    pub port: Option<u16>,
}

/// The host of parsed parts as characters.
pub open spec fn host_view(h: Option<String>) -> Option<Seq<char>> {
    match h {
        Some(s) => Some(s@),
        None => None,
    }
}

/// Parses a URL with `reqwest::Url::parse` (the `url` crate's WHATWG
/// parser) and reads its scheme, host, path and port (explicit, or the
/// scheme's well-known default). `None` when the parser refuses the
/// string. The parser's rules are not restated: each part is named.
#[verifier::external_body]
fn parse_url(s: &str) -> (r: Option<UrlParts>)
    ensures
        r is Some == url_parses(s@),
        r matches Some(u) ==> {
            &&& u.scheme@ == url_scheme(s@)
            &&& host_view(u.host) == url_host(s@)
            &&& u.path@ == url_path(s@)
            &&& u.port == url_port(s@)
        },
{
    match reqwest::Url::parse(s) {
        Ok(u) => Some(UrlParts {
            scheme: u.scheme().to_string(),
            host: match u.host_str() {
                Some(h) => Some(h.to_string()),
                None => None,
            },
            path: u.path().to_string(),
            port: u.port_or_known_default(),
        }),
        Err(_) => None,
    }
}

/// Why a download URL was refused.
#[derive(Debug, Clone, Copy, PartialEq, Eq, Structural)]
pub enum UrlError {
    /// The URL does not parse.
    Invalid,
    /// The scheme is not `https`.
    NotHttps,
    /// The host is not huggingface.co or one of its subdomains.
    NotHuggingFace,
    /// The path does not end in `.gguf` (any ASCII case).
    NotGguf,
}

/// The text of a download-URL refusal.
pub open spec fn url_error_text(e: UrlError) -> Seq<char> {
    match e {
        UrlError::Invalid => "invalid URL"@,
        UrlError::NotHttps => "download URL must be https"@,
        UrlError::NotHuggingFace => "downloads are limited to huggingface.co URLs"@,
        UrlError::NotGguf => "download URL must point at a .gguf file"@,
    }
}

impl UrlError {
    /// The message shown to the user.
    pub fn message(self) -> (s: &'static str)
        ensures
            s@ == url_error_text(self),
    {
        match self {
            UrlError::Invalid => "invalid URL",
            UrlError::NotHttps => "download URL must be https",
            UrlError::NotHuggingFace => "downloads are limited to huggingface.co URLs",
            UrlError::NotGguf => "download URL must point at a .gguf file",
        }
    }
}

/// A host is huggingface.co or one of its subdomains.
pub open spec fn is_hub_host(host: Seq<char>) -> bool {
    host == "huggingface.co"@ || ends_with(host, ".huggingface.co"@)
}

/// The verdict on parsed URL parts (with the host as characters, absent
/// when the URL has none).
pub open spec fn parts_verdict(
    parsed: bool,
    scheme: Seq<char>,
    host: Option<Seq<char>>,
    path: Seq<char>,
) -> Result<(), UrlError> {
    if !parsed {
        Err(UrlError::Invalid)
    } else if scheme != "https"@ {
        Err(UrlError::NotHttps)
    } else if !is_hub_host(
        match host {
            Some(h) => h,
            None => Seq::empty(),
        },
    ) {
        Err(UrlError::NotHuggingFace)
    } else if !ends_with(ascii_lower_seq(path), ".gguf"@) {
        Err(UrlError::NotGguf)
    } else {
        Ok(())
    }
}

/// The verdict on a download URL: it must parse, be HTTPS, point at
/// huggingface.co and name a `.gguf` file.
pub open spec fn download_url_verdict(url: Seq<char>) -> Result<(), UrlError> {
    parts_verdict(url_parses(url), url_scheme(url), url_host(url), url_path(url))
}

/// The download-URL rules applied to a parse result.
pub fn check_download_url(parsed: &Option<UrlParts>) -> (r: Result<(), UrlError>)
    ensures
        r == match parsed {
            Some(u) => parts_verdict(true, u.scheme@, host_view(u.host), u.path@),
            None => parts_verdict(false, Seq::empty(), None, Seq::empty()),
        },
{
    let u = match parsed {
        Some(u) => u,
        None => return Err(UrlError::Invalid),
    };
    if !str_eq(u.scheme.as_str(), "https") {
        return Err(UrlError::NotHttps);
    }
    let host = match &u.host {
        Some(h) => chars_of(h.as_str()),
        None => Vec::new(),
    };
    assert(host@ == match host_view(u.host) {
        Some(h) => h,
        None => Seq::<char>::empty(),
    });
    let hub = chars_of("huggingface.co");
    if !crate::text::chars_eq(host.as_slice(), hub.as_slice()) && !ends_with_str(
        host.as_slice(),
        ".huggingface.co",
    ) {
        return Err(UrlError::NotHuggingFace);
    }
    let lower = ascii_lower_chars(chars_of(u.path.as_str()).as_slice());
    if !ends_with_str(lower.as_slice(), ".gguf") {
        return Err(UrlError::NotGguf);
    }
    Ok(())
}

/// Downloads are restricted to HTTPS `.gguf` files on huggingface.co, so
/// the endpoint cannot be used as a generic fetch-to-disk proxy.
pub fn validate_download_url(url: &str) -> (r: Result<(), UrlError>)
    ensures
        r == download_url_verdict(url@),
{
    let parsed = parse_url(url);
    check_download_url(&parsed)
}

/// The port for parsed upstream parts: the upstream's own port (explicit
/// or the scheme's default) when its host is loopback, else 8080.
pub open spec fn port_verdict(parsed: bool, host: Option<Seq<char>>, port: Option<u16>) -> u16 {
    if parsed && (host == Some("127.0.0.1"@) || host == Some("localhost"@)) && port is Some {
        port->0
    } else {
        DEFAULT_RUNTIME_PORT
    }
}

/// The runtime-port rule applied to a parse result.
pub fn port_from_parts(parsed: &Option<UrlParts>) -> (p: u16)
    ensures
        p == match parsed {
            Some(u) => port_verdict(true, host_view(u.host), u.port),
            None => port_verdict(false, None, None),
        },
{
    if let Some(u) = parsed {
        if let Some(h) = &u.host {
            if str_eq(h.as_str(), "127.0.0.1") || str_eq(h.as_str(), "localhost") {
                if let Some(p) = u.port {
                    return p;
                }
            }
        }
    }
    DEFAULT_RUNTIME_PORT
}

/// The port the managed llama-server binds: the configured upstream's
/// port when that upstream is a loopback URL (so the existing proxy
/// picks the child up unchanged), else 8080.
pub fn runtime_port(upstream_url: &str) -> (p: u16)
    ensures
        p == port_verdict(url_parses(upstream_url@), url_host(upstream_url@), url_port(upstream_url@)),
{
    let parsed = parse_url(upstream_url);
    port_from_parts(&parsed)
}

// ---------------------------------------------------------------------
// The installed library
// ---------------------------------------------------------------------

/// Where an installed model file lives: our own managed library, or LM
/// Studio's models tree (listed and loaded in place, never modified).
#[derive(Debug, Clone, Copy, PartialEq, Eq, Structural)]
pub enum InstalledSource {
    Library,
    LmStudio,
}

/// A `*.gguf` present in the models dir or a discovered external tree.
#[derive(Debug, Clone)]
pub struct InstalledModel {
    pub file: String,
    pub size_bytes: u64,
    /// Unix seconds of the file's mtime.
    pub modified_unix: u64,
    pub source: InstalledSource,
}

/// Some model in the list has this file name.
pub open spec fn has_file(models: Seq<InstalledModel>, file: Seq<char>) -> bool {
    exists|i: int| 0 <= i < models.len() && #[trigger] models[i].file@ == file
}

/// The library followed by the discovered models whose file names are
/// not already listed (the earlier entry wins every collision).
pub open spec fn append_new(library: Seq<InstalledModel>, discovered: Seq<InstalledModel>) -> Seq<
    InstalledModel,
>
    decreases discovered.len(),
{
    if discovered.len() == 0 {
        library
    } else {
        let acc = append_new(library, discovered.drop_last());
        if has_file(acc, discovered.last().file@) {
            acc
        } else {
            acc.push(discovered.last())
        }
    }
}

/// The position at which a model with mtime `k` goes into a newest-first
/// list: after every entry at least as new, scanning from `i`.
pub open spec fn insert_pos(s: Seq<InstalledModel>, k: u64, i: int) -> int
    decreases s.len() - i,
{
    if i < 0 || i >= s.len() {
        s.len() as int
    } else if s[i].modified_unix < k {
        i
    } else {
        insert_pos(s, k, i + 1)
    }
}

/// Stable newest-first ordering by mtime: equal mtimes keep their order.
pub open spec fn newest_first(s: Seq<InstalledModel>) -> Seq<InstalledModel>
    decreases s.len(),
{
    if s.len() == 0 {
        s
    } else {
        let r = newest_first(s.drop_last());
        r.insert(insert_pos(r, s.last().modified_unix, 0), s.last())
    }
}

/// A list is ordered newest first.
pub open spec fn is_newest_first(s: Seq<InstalledModel>) -> bool {
    forall|i: int, j: int| 0 <= i < j < s.len() ==> s[i].modified_unix >= s[j].modified_unix
}

proof fn lemma_insert_pos(s: Seq<InstalledModel>, k: u64, i: int)
    requires
        0 <= i <= s.len(),
        is_newest_first(s),
    ensures
        i <= insert_pos(s, k, i) <= s.len(),
        forall|j: int| i <= j < insert_pos(s, k, i) ==> s[j].modified_unix >= k,
        forall|j: int| insert_pos(s, k, i) <= j < s.len() ==> s[j].modified_unix < k,
    decreases s.len() - i,
{
    if i < s.len() && s[i].modified_unix >= k {
        lemma_insert_pos(s, k, i + 1);
    }
}

proof fn lemma_newest_first(s: Seq<InstalledModel>)
    ensures
        is_newest_first(newest_first(s)),
        newest_first(s).to_multiset() == s.to_multiset(),
        newest_first(s).len() == s.len(),
    decreases s.len(),
{
    if s.len() > 0 {
        let r = newest_first(s.drop_last());
        lemma_newest_first(s.drop_last());
        let x = s.last();
        let p = insert_pos(r, x.modified_unix, 0);
        lemma_insert_pos(r, x.modified_unix, 0);
        let t = r.insert(p, x);
        assert forall|i: int, j: int| 0 <= i < j < t.len() implies t[i].modified_unix
            >= t[j].modified_unix by {
            if j < p {
            } else if j == p {
            } else if i < p {
            } else if i == p {
                assert(t[j] == r[j - 1]);
            } else {
                assert(t[i] == r[i - 1] && t[j] == r[j - 1]);
            }
        }
        vstd::seq_lib::to_multiset_insert(r, p, x);
        vstd::seq_lib::to_multiset_insert(s.drop_last(), s.len() - 1, x);
        assert(s =~= s.drop_last().insert(s.len() - 1, x));
    }
}

/// Merging the library with LM Studio's discoveries: every library model
/// stays, a discovered model is added only when its file name is new, and
/// the result is ordered newest first (stable on equal mtimes).
pub open spec fn merged_models(library: Seq<InstalledModel>, discovered: Seq<InstalledModel>) -> Seq<
    InstalledModel,
> {
    newest_first(append_new(library, discovered))
}

fn has_file_exec(models: &Vec<InstalledModel>, file: &str) -> (r: bool)
    ensures
        r == has_file(models@, file@),
{
    let mut i: usize = 0;
    while i < models.len()
        invariant
            i <= models@.len(),
            forall|k: int| 0 <= k < i ==> models@[k].file@ != file@,
        decreases models@.len() - i,
    {
        if str_eq(models[i].file.as_str(), file) {
            return true;
        }
        i += 1;
    }
    false
}

fn sort_newest_first(items: Vec<InstalledModel>) -> (r: Vec<InstalledModel>)
    ensures
        r@ == newest_first(items@),
{
    let mut rest = items;
    let ghost orig = rest@;
    let total: usize = rest.len();
    let mut out: Vec<InstalledModel> = Vec::new();
    let mut n: usize = 0;
    while rest.len() > 0
        invariant
            n + rest@.len() == orig.len(),
            orig.len() == total,
            rest@ == orig.subrange(n as int, orig.len() as int),
            out@ == newest_first(orig.take(n as int)),
        decreases rest@.len(),
    {
        let x = rest.remove(0);
        assert(orig.take(n + 1).drop_last() =~= orig.take(n as int));
        assert(orig.take(n + 1).last() == x);
        let k = x.modified_unix;
        let mut j: usize = 0;
        while j < out.len() && out[j].modified_unix >= k
            invariant
                j <= out@.len(),
                insert_pos(out@, k, 0) == insert_pos(out@, k, j as int),
            decreases out@.len() - j,
        {
            j += 1;
        }
        out.insert(j, x);
        n += 1;
        assert(rest@ =~= orig.subrange(n as int, orig.len() as int));
    }
    assert(orig.take(n as int) =~= orig);
    out
}

/// Every model we can serve: the library, then LM Studio discoveries
/// whose file names do not collide with one already listed, newest first
/// across both sources.
pub fn merge_installed(library: Vec<InstalledModel>, discovered: Vec<InstalledModel>) -> (r: Vec<
    InstalledModel,
>)
    ensures
        r@ == merged_models(library@, discovered@),
{
    let mut acc = library;
    let ghost lib = acc@;
    let mut rest = discovered;
    let ghost disc = rest@;
    let total: usize = rest.len();
    let mut n: usize = 0;
    while rest.len() > 0
        invariant
            n + rest@.len() == disc.len(),
            disc.len() == total,
            rest@ == disc.subrange(n as int, disc.len() as int),
            acc@ == append_new(lib, disc.take(n as int)),
        decreases rest@.len(),
    {
        let m = rest.remove(0);
        assert(disc.take(n + 1).drop_last() =~= disc.take(n as int));
        assert(disc.take(n + 1).last() == m);
        if !has_file_exec(&acc, m.file.as_str()) {
            acc.push(m);
        }
        n += 1;
        assert(rest@ =~= disc.subrange(n as int, disc.len() as int));
    }
    assert(disc.take(n as int) =~= disc);
    sort_newest_first(acc)
}

/// The merged list is newest first, keeps every library model, and holds
/// exactly the library plus the discovered models with new file names.
pub proof fn merge_keeps_library_and_orders_newest_first(
    library: Seq<InstalledModel>,
    discovered: Seq<InstalledModel>,
)
    ensures
        is_newest_first(merged_models(library, discovered)),
        merged_models(library, discovered).to_multiset() == append_new(
            library,
            discovered,
        ).to_multiset(),
        append_new(library, discovered).len() <= library.len() + discovered.len(),
        append_new(library, discovered).take(library.len() as int) == library,
{
    lemma_newest_first(append_new(library, discovered));
    lemma_append_new(library, discovered);
}

proof fn lemma_append_new(library: Seq<InstalledModel>, discovered: Seq<InstalledModel>)
    ensures
        append_new(library, discovered).len() <= library.len() + discovered.len(),
        append_new(library, discovered).len() >= library.len(),
        append_new(library, discovered).take(library.len() as int) == library,
    decreases discovered.len(),
{
    if discovered.len() > 0 {
        lemma_append_new(library, discovered.drop_last());
        let acc = append_new(library, discovered.drop_last());
        assert(acc.push(discovered.last()).take(library.len() as int) =~= acc.take(
            library.len() as int,
        ));
    }
}

// ---------------------------------------------------------------------
// Runtime and download state
// ---------------------------------------------------------------------

/// State of the supervised llama-server child.
#[derive(Debug, Clone)]
pub enum RuntimeState {
    /// No child; chat routes to whatever external upstream answers.
    Idle,
    /// Child spawned, waiting for `/health`.
    Starting { file: String, port: u16 },
    /// Child healthy and serving.
    Running { file: String, port: u16 },
    /// Child died or never came healthy; sticky until the next load or
    /// unload.
    Failed { error: String },
}

/// A runtime state with its texts as character sequences.
pub enum RuntimeView {
    Idle,
    Starting { file: Seq<char>, port: u16 },
    Running { file: Seq<char>, port: u16 },
    Failed { error: Seq<char> },
}

impl View for RuntimeState {
    type V = RuntimeView;

    open spec fn view(&self) -> RuntimeView {
        match self {
            RuntimeState::Idle => RuntimeView::Idle,
            RuntimeState::Starting { file, port } => RuntimeView::Starting { file: file@, port: *port },
            RuntimeState::Running { file, port } => RuntimeView::Running { file: file@, port: *port },
            RuntimeState::Failed { error } => RuntimeView::Failed { error: error@ },
        }
    }
}

/// Where the bytes of a download come from.
#[derive(Debug, Clone, Copy, PartialEq, Eq, Structural)]
pub enum DownloadSource {
    /// The HTTPS origin (huggingface.co).
    Origin,
    /// A peer on the same LAN.
    Lan,
    /// A trusted, paired peer reachable over the internet.
    Peer,
}

impl Default for DownloadSource {
    fn default() -> (s: Self)
        ensures
            s == DownloadSource::Origin,
    {
        DownloadSource::Origin
    }
}

/// State of the single download slot.
#[derive(Debug, Clone)]
pub enum DownloadState {
    Idle,
    Downloading {
        file: String,
        bytes_done: u64,
        /// 0 when the server did not send a length.
        bytes_total: u64,
        source: DownloadSource,
    },
    /// Sticky until the next download starts.
    Failed { file: String, error: String },
    /// Sticky until the next download starts.
    Completed { file: String },
}

/// A download state with its texts as character sequences.
pub enum DownloadView {
    Idle,
    Downloading { file: Seq<char>, bytes_done: u64, bytes_total: u64, source: DownloadSource },
    Failed { file: Seq<char>, error: Seq<char> },
    Completed { file: Seq<char> },
}

impl View for DownloadState {
    type V = DownloadView;

    open spec fn view(&self) -> DownloadView {
        match self {
            DownloadState::Idle => DownloadView::Idle,
            DownloadState::Downloading { file, bytes_done, bytes_total, source } => {
                DownloadView::Downloading {
                    file: file@,
                    bytes_done: *bytes_done,
                    bytes_total: *bytes_total,
                    source: *source,
                }
            },
            DownloadState::Failed { file, error } => DownloadView::Failed {
                file: file@,
                error: error@,
            },
            DownloadState::Completed { file } => DownloadView::Completed { file: file@ },
        }
    }
}

/// The refusal when a download is started while another runs.
pub open spec fn busy_text() -> Seq<char> {
    "another download is already running \u{2014} one at a time"@
}

/// The refusal when there is no download to cancel.
pub open spec fn no_download_text() -> Seq<char> {
    "no download in progress"@
}

/// The failure of a llama-server that exited behind the manager's back.
pub open spec fn exited_text(status: Seq<char>) -> Seq<char> {
    "llama-server exited ("@ + status + ")"@
}

/// The failure of a llama-server that exited while starting.
pub open spec fn startup_exit_text(status: Seq<char>, file: Seq<char>) -> Seq<char> {
    "llama-server exited during startup ("@ + status
        + ") \u{2014} likely not enough memory for "@ + file
}

/// The failure of a llama-server that never became healthy.
pub open spec fn startup_timeout_text() -> Seq<char> {
    "llama-server didn't become healthy within 180s"@
}

/// The refusal to delete a file that backs the running child.
pub open spec fn loaded_text(file: Seq<char>) -> Seq<char> {
    file + " is loaded \u{2014} unload it before deleting"@
}

/// The file the runtime is serving or starting, if any.
pub open spec fn active_file(r: RuntimeView) -> Option<Seq<char>> {
    match r {
        RuntimeView::Starting { file, .. } => Some(file),
        RuntimeView::Running { file, .. } => Some(file),
        _ => None,
    }
}

/// The manager's state between outside events: the runtime child's state
/// and the download slot. The runtime performs the process and network
/// work and reports each event here.
pub struct ModelState {
    pub runtime: RuntimeState,
    pub download: DownloadState,
}


/// Why a load request is refused before anything is spawned.
#[derive(Debug, Clone, PartialEq, Eq)]
pub enum LoadRefusal {
    /// The requested name is not a safe model file name.
    BadName(FileNameError),
    /// The file is neither in the library nor in LM Studio's models folder.
    NotInLibrary(String),
    /// No `llama-server` binary was found.
    NoLlamaServer,
    /// Something this node does not own already listens on the port.
    PortInUse(u16),
}

/// The text of a load refusal.
pub open spec fn load_refusal_text(r: LoadRefusal) -> Seq<char> {
    match r {
        LoadRefusal::BadName(e) => file_name_error_text(e),
        LoadRefusal::NotInLibrary(f) => f@ + " is not in the library or LM Studio's models folder"@,
        LoadRefusal::NoLlamaServer => "llama-server not found \u{2014} install llama.cpp (macOS: `brew install llama.cpp`)"@,
        LoadRefusal::PortInUse(p) => "port "@ + crate::text::decimal(p as nat)
            + " is already in use by another server \u{2014} stop it first, or point UNHOSTED_LLAMA_SERVER_URL elsewhere"@,
    }
}

impl LoadRefusal {
    /// The message shown to the user.
    pub fn message(&self) -> (s: String)
        ensures
            s@ == load_refusal_text(*self),
    {
        match self {
            LoadRefusal::BadName(e) => owned(e.message()),
            LoadRefusal::NotInLibrary(f) => {
                let mut s = owned(f.as_str());
                push_str(&mut s, " is not in the library or LM Studio's models folder");
                s
            },
            LoadRefusal::NoLlamaServer => owned(
                "llama-server not found \u{2014} install llama.cpp (macOS: `brew install llama.cpp`)",
            ),
            LoadRefusal::PortInUse(p) => {
                let mut s = owned("port ");
                crate::text::push_u64(&mut s, *p as u64);
                push_str(
                    &mut s,
                    " is already in use by another server \u{2014} stop it first, or point UNHOSTED_LLAMA_SERVER_URL elsewhere",
                );
                s
            },
        }
    }
}

/// The checks a load request passes before the runtime spawns
/// `llama-server`, in order: the name is a safe model file name
/// (`name_verdict`, from [`safe_model_filename`]); the file was found
/// (`model_path`); `llama-server` was found (`llama_server`); and, when
/// this node runs no child of its own, the port is free. On success, the
/// checked name, the model's path and the binary.
pub fn load_check(
    name_verdict: Result<String, FileNameError>,
    model_path: Option<String>,
    llama_server: Option<String>,
    has_own_child: bool,
    port_busy: bool,
    port: u16,
) -> (r: Result<(String, String, String), LoadRefusal>)
    ensures
        match name_verdict {
            Err(e) => r == Err::<(String, String, String), LoadRefusal>(LoadRefusal::BadName(e)),
            Ok(name) => match model_path {
                None => r == Err::<(String, String, String), LoadRefusal>(
                    LoadRefusal::NotInLibrary(name),
                ),
                Some(path) => match llama_server {
                    None => r == Err::<(String, String, String), LoadRefusal>(
                        LoadRefusal::NoLlamaServer,
                    ),
                    Some(bin) => if !has_own_child && port_busy {
                        r == Err::<(String, String, String), LoadRefusal>(LoadRefusal::PortInUse(port))
                    } else {
                        r == Ok::<(String, String, String), LoadRefusal>((name, path, bin))
                    },
                },
            },
        },
{
    let name = match name_verdict {
        Ok(n) => n,
        Err(e) => return Err(LoadRefusal::BadName(e)),
    };
    let path = match model_path {
        Some(p) => p,
        None => return Err(LoadRefusal::NotInLibrary(name)),
    };
    let bin = match llama_server {
        Some(b) => b,
        None => return Err(LoadRefusal::NoLlamaServer),
    };
    if !has_own_child && port_busy {
        return Err(LoadRefusal::PortInUse(port));
    }
    Ok((name, path, bin))
}

impl ModelState {
    /// Nothing loaded, nothing downloading.
    pub fn new() -> (m: Self)
        ensures
            m.runtime@ == RuntimeView::Idle,
            m.download@ == DownloadView::Idle,
    {
        ModelState { runtime: RuntimeState::Idle, download: DownloadState::Idle }
    }

    /// Claims the download slot for `file` (one download at a time):
    /// refused with the busy message while a download runs, else the slot
    /// shows the file at zero bytes of `total` from `source`.
    pub fn begin_download(&mut self, file: &str, total: u64, source: DownloadSource) -> (r: Result<
        (),
        String,
    >)
        ensures
            final(self).runtime@ == old(self).runtime@,
            old(self).download@ is Downloading ==> {
                &&& r matches Err(e) && e@ == busy_text()
                &&& final(self).download@ == old(self).download@
            },
            !(old(self).download@ is Downloading) ==> {
                &&& r is Ok
                &&& final(self).download@ == (DownloadView::Downloading {
                    file: file@,
                    bytes_done: 0,
                    bytes_total: total,
                    source,
                })
            },
    {
        if let DownloadState::Downloading { .. } = self.download {
            return Err(owned("another download is already running \u{2014} one at a time"));
        }
        self.download = DownloadState::Downloading {
            file: owned(file),
            bytes_done: 0,
            bytes_total: total,
            source,
        };
        Ok(())
    }

    /// Progress of the origin download: the slot shows `done` of `total`
    /// bytes for `file`.
    pub fn set_progress(&mut self, file: &str, done: u64, total: u64)
        ensures
            final(self).runtime@ == old(self).runtime@,
            final(self).download@ == (DownloadView::Downloading {
                file: file@,
                bytes_done: done,
                bytes_total: total,
                source: DownloadSource::Origin,
            }),
    {
        self.download = DownloadState::Downloading {
            file: owned(file),
            bytes_done: done,
            bytes_total: total,
            source: DownloadSource::Origin,
        };
    }

    /// Progress of a peer-sourced download: applied only while the slot
    /// still downloads the same file (a cancel or another download wins).
    pub fn report_external_progress(&mut self, file: &str, done: u64, total: u64, source: DownloadSource)
        ensures
            final(self).runtime@ == old(self).runtime@,
            final(self).download@ == match old(self).download@ {
                DownloadView::Downloading { file: f, .. } => if f == file@ {
                    DownloadView::Downloading {
                        file: file@,
                        bytes_done: done,
                        bytes_total: total,
                        source,
                    }
                } else {
                    old(self).download@
                },
                _ => old(self).download@,
            },
    {
        let same = match &self.download {
            DownloadState::Downloading { file: f, .. } => str_eq(f.as_str(), file),
            _ => false,
        };
        if same {
            self.download = DownloadState::Downloading {
                file: owned(file),
                bytes_done: done,
                bytes_total: total,
                source,
            };
        }
    }

    /// A download ended: completed, or failed with the error's text.
    pub fn finish_download(&mut self, file: &str, error: Option<String>)
        ensures
            final(self).runtime@ == old(self).runtime@,
            final(self).download@ == match error {
                None => DownloadView::Completed { file: file@ },
                Some(e) => DownloadView::Failed { file: file@, error: e@ },
            },
    {
        self.download = match error {
            None => DownloadState::Completed { file: owned(file) },
            Some(e) => DownloadState::Failed { file: owned(file), error: e },
        };
    }

    /// Cancels the running download: the slot goes idle and the file
    /// whose partial download must be removed is returned. Refused when
    /// nothing is downloading.
    pub fn cancel_download(&mut self) -> (r: Result<String, String>)
        ensures
            final(self).runtime@ == old(self).runtime@,
            match old(self).download@ {
                DownloadView::Downloading { file, .. } => r matches Ok(f) && f@ == file
                    && final(self).download@ == DownloadView::Idle,
                _ => r matches Err(e) && e@ == no_download_text() && final(self).download@
                    == old(self).download@,
            },
    {
        let file = match &self.download {
            DownloadState::Downloading { file, .. } => owned(file.as_str()),
            _ => return Err(owned("no download in progress")),
        };
        self.download = DownloadState::Idle;
        Ok(file)
    }

    /// A llama-server child for `file` was spawned on `port`.
    pub fn mark_starting(&mut self, file: &str, port: u16)
        ensures
            final(self).download@ == old(self).download@,
            final(self).runtime@ == (RuntimeView::Starting { file: file@, port }),
    {
        self.runtime = RuntimeState::Starting { file: owned(file), port };
    }

    /// The child was taken down on request.
    pub fn unload(&mut self)
        ensures
            final(self).download@ == old(self).download@,
            final(self).runtime@ == RuntimeView::Idle,
    {
        self.runtime = RuntimeState::Idle;
    }

    /// The supervised child was found exited (with the given status text)
    /// when polled: the runtime fails with the status.
    pub fn child_exited(&mut self, status: &str)
        ensures
            final(self).download@ == old(self).download@,
            final(self).runtime@ == (RuntimeView::Failed { error: exited_text(status@) }),
    {
        let mut e = owned("llama-server exited (");
        push_str(&mut e, status);
        push_str(&mut e, ")");
        self.runtime = RuntimeState::Failed { error: e };
    }

    /// Whether the health supervisor for `file` on `port` is still the
    /// current one (a newer load or unload replaces it).
    pub fn still_starting(&self, file: &str, port: u16) -> (r: bool)
        ensures
            r == (self.runtime@ == (RuntimeView::Starting { file: file@, port })),
    {
        match &self.runtime {
            RuntimeState::Starting { file: f, port: p } => *p == port && str_eq(f.as_str(), file),
            _ => false,
        }
    }

    /// The child exited while starting: the runtime fails, blaming memory.
    pub fn startup_exit(&mut self, file: &str, status: &str)
        ensures
            final(self).download@ == old(self).download@,
            final(self).runtime@ == (RuntimeView::Failed {
                error: startup_exit_text(status@, file@),
            }),
    {
        let mut e = owned("llama-server exited during startup (");
        push_str(&mut e, status);
        push_str(&mut e, ") \u{2014} likely not enough memory for ");
        push_str(&mut e, file);
        self.runtime = RuntimeState::Failed { error: e };
    }

    /// The child did not become healthy within the budget.
    pub fn startup_timeout(&mut self)
        ensures
            final(self).download@ == old(self).download@,
            final(self).runtime@ == (RuntimeView::Failed { error: startup_timeout_text() }),
    {
        self.runtime = RuntimeState::Failed {
            error: owned("llama-server didn't become healthy within 180s"),
        };
    }

    /// The child answered `/health`: it is running, provided its
    /// supervisor is still the current one; otherwise nothing changes.
    pub fn mark_healthy(&mut self, file: &str, port: u16)
        ensures
            final(self).download@ == old(self).download@,
            final(self).runtime@ == if old(self).runtime@ == (RuntimeView::Starting {
                file: file@,
                port,
            }) {
                RuntimeView::Running { file: file@, port }
            } else {
                old(self).runtime@
            },
    {
        if self.still_starting(file, port) {
            self.runtime = RuntimeState::Running { file: owned(file), port };
        }
    }

    /// A library file may be deleted unless it backs the running or
    /// starting child.
    pub fn check_deletable(&self, file: &str) -> (r: Result<(), String>)
        ensures
            active_file(self.runtime@) == Some(file@) ==> (r matches Err(e) && e@ == loaded_text(
                file@,
            )),
            active_file(self.runtime@) != Some(file@) ==> r is Ok,
    {
        let active = match &self.runtime {
            RuntimeState::Starting { file: f, .. } => str_eq(f.as_str(), file),
            RuntimeState::Running { file: f, .. } => str_eq(f.as_str(), file),
            _ => false,
        };
        if active {
            let mut e = owned(file);
            push_str(&mut e, " is loaded \u{2014} unload it before deleting");
            return Err(e);
        }
        Ok(())
    }
}

// ---------------------------------------------------------------------
// Chunked, resumable downloads
// ---------------------------------------------------------------------

/// The size of one download chunk, in bytes (the swarm's chunk size).
pub open spec fn chunk_bytes() -> nat {
    crate::swarm::CHUNK_SIZE as nat
}

/// Why a download failed.
#[derive(Debug, Clone)]
pub enum DownloadError {
    /// The size probe was answered with this (non-success) status.
    SizeProbeStatus { status: String },
    /// The size probe carried no `Content-Length`.
    NoContentLength,
    /// The hub reported a zero-byte file.
    ZeroSize,
    /// A ranged request was answered with the whole file (200, not 206).
    RangeIgnored,
    /// A ranged request was answered with this (non-success) status.
    RangeStatus { status: String },
    /// A ranged request returned the wrong number of bytes.
    RangeLength { got: u64, want: u64 },
    /// Fewer bytes arrived than the file has.
    Truncated { done: u64, total: u64 },
    /// The assembled file's digest is not the pinned one.
    Integrity { got: String, expected: String },
}

/// The text of a download failure.
pub open spec fn download_error_text(e: DownloadError) -> Seq<char> {
    match e {
        DownloadError::SizeProbeStatus { status } => "hub answered "@ + status@ + " to size probe"@,
        DownloadError::NoContentLength => "hub didn't report a size (no Content-Length)"@,
        DownloadError::ZeroSize => "hub reported a zero-byte file"@,
        DownloadError::RangeIgnored => "server ignored Range header (returned 200, not 206)"@,
        DownloadError::RangeStatus { status } => "hub answered "@ + status@
            + " to range request"@,
        DownloadError::RangeLength { got, want } => "range returned "@ + decimal(got as nat)
            + " bytes, expected "@ + decimal(want as nat),
        DownloadError::Truncated { done, total } => "download truncated: got "@ + decimal(
            done as nat,
        ) + " of "@ + decimal(total as nat) + " bytes"@,
        DownloadError::Integrity { got, expected } => "integrity check failed: downloaded "@
            + got@ + " but expected "@ + expected@,
    }
}

impl DownloadError {
    /// The message recorded in the download slot.
    pub fn message(&self) -> (s: String)
        ensures
            s@ == download_error_text(*self),
    {
        let mut s = String::new();
        match self {
            DownloadError::SizeProbeStatus { status } => {
                push_str(&mut s, "hub answered ");
                push_str(&mut s, status.as_str());
                push_str(&mut s, " to size probe");
            },
            DownloadError::NoContentLength => {
                push_str(&mut s, "hub didn't report a size (no Content-Length)");
            },
            DownloadError::ZeroSize => {
                push_str(&mut s, "hub reported a zero-byte file");
            },
            DownloadError::RangeIgnored => {
                push_str(&mut s, "server ignored Range header (returned 200, not 206)");
            },
            DownloadError::RangeStatus { status } => {
                push_str(&mut s, "hub answered ");
                push_str(&mut s, status.as_str());
                push_str(&mut s, " to range request");
            },
            DownloadError::RangeLength { got, want } => {
                push_str(&mut s, "range returned ");
                push_u64(&mut s, *got);
                push_str(&mut s, " bytes, expected ");
                push_u64(&mut s, *want);
            },
            DownloadError::Truncated { done, total } => {
                push_str(&mut s, "download truncated: got ");
                push_u64(&mut s, *done);
                push_str(&mut s, " of ");
                push_u64(&mut s, *total);
                push_str(&mut s, " bytes");
            },
            DownloadError::Integrity { got, expected } => {
                push_str(&mut s, "integrity check failed: downloaded ");
                push_str(&mut s, got.as_str());
                push_str(&mut s, " but expected ");
                push_str(&mut s, expected.as_str());
            },
        }
        assert(s@ =~= download_error_text(*self));
        s
    }
}

/// The file's total size from the answer to the size probe: refused when
/// the probe failed, carried no length, or reported zero bytes.
pub fn size_from_probe(success: bool, status_text: &str, content_length: Option<u64>) -> (r: Result<
    u64,
    DownloadError,
>)
    ensures
        !success ==> (r matches Err(DownloadError::SizeProbeStatus { status }) && status@
            == status_text@),
        success && content_length is None ==> (r matches Err(DownloadError::NoContentLength)),
        success && content_length == Some(0u64) ==> (r matches Err(DownloadError::ZeroSize)),
        success && content_length is Some && content_length->0 > 0 ==> r == Ok::<
            u64,
            DownloadError,
        >(content_length->0),
{
    if !success {
        return Err(DownloadError::SizeProbeStatus { status: owned(status_text) });
    }
    match content_length {
        None => Err(DownloadError::NoContentLength),
        Some(0) => Err(DownloadError::ZeroSize),
        Some(n) => Ok(n),
    }
}

/// The number of chunks a file of `total` bytes is cut into.
pub open spec fn chunks_for(total: nat) -> nat {
    if total % chunk_bytes() == 0 {
        total / chunk_bytes()
    } else {
        total / chunk_bytes() + 1
    }
}

/// How many chunks a file of `total` bytes is fetched in.
pub fn chunk_count(total: u64) -> (n: u64)
    ensures
        n == chunks_for(total as nat),
{
    let c = crate::swarm::CHUNK_SIZE as u64;
    let q = total / c;
    assert(q <= total) by (nonlinear_arith)
        requires
            c == 4194304,
            q == total / c,
    ;
    if total % c == 0 {
        q
    } else {
        q + 1
    }
}

/// Where a download resumes given the bytes an earlier partial file
/// holds: only whole chunks are trusted, so it restarts at the last chunk
/// boundary.
pub fn resume_point(existing_len: u64) -> (r: (u64, u64))
    ensures
        r.0 == existing_len as nat / chunk_bytes(),
        r.1 == r.0 * chunk_bytes(),
        r.1 <= existing_len,
        existing_len < r.1 + chunk_bytes(),
{
    let c = crate::swarm::CHUNK_SIZE as u64;
    let chunks = existing_len / c;
    assert(chunks * c <= existing_len && existing_len < chunks * c + c) by (nonlinear_arith)
        requires
            c > 0,
            chunks == existing_len / c,
    ;
    (chunks, chunks * c)
}

/// The inclusive byte range of chunk `index` of a file of `total` bytes.
pub fn chunk_range(index: u64, total: u64) -> (r: (u64, u64))
    requires
        index < chunks_for(total as nat),
    ensures
        r.0 == index * chunk_bytes(),
        r.1 + 1 == if r.0 + chunk_bytes() <= total {
            r.0 + chunk_bytes()
        } else {
            total as int
        },
        r.0 <= r.1 < total,
{
    let c = crate::swarm::CHUNK_SIZE as u64;
    assert(index * c < total) by (nonlinear_arith)
        requires
            c == 4194304,
            total % c == 0 ==> index < total / c,
            total % c != 0 ==> index < total / c + 1,
    ;
    let start = index * c;
    let stop = if total - start >= c {
        start + c
    } else {
        total
    };
    (start, stop - 1)
}

/// The `Range` header asking for the inclusive byte range.
pub fn range_header(start: u64, end: u64) -> (s: String)
    ensures
        s@ == "bytes="@ + decimal(start as nat) + "-"@ + decimal(end as nat),
{
    let mut s = owned("bytes=");
    push_u64(&mut s, start);
    push_str(&mut s, "-");
    push_u64(&mut s, end);
    s
}

/// Checks the answer to a ranged request: a 200 means the server ignored
/// the range (appending the whole body would corrupt the file), any other
/// non-2xx status is an error, and the body must hold exactly the range.
pub fn check_range_response(status: u16, status_text: &str, body_len: u64, start: u64, end: u64) -> (r:
    Result<(), DownloadError>)
    requires
        start <= end < u64::MAX,
    ensures
        status == 200 ==> (r matches Err(DownloadError::RangeIgnored)),
        status != 200 && !(200 <= status < 300) ==> (r matches Err(
            DownloadError::RangeStatus { status: s },
        ) && s@ == status_text@),
        status != 200 && 200 <= status < 300 && body_len != end - start + 1 ==> (r matches Err(
            DownloadError::RangeLength { got, want },
        ) && got == body_len && want == end - start + 1),
        status != 200 && 200 <= status < 300 && body_len == end - start + 1 ==> r is Ok,
{
    if status == 200 {
        return Err(DownloadError::RangeIgnored);
    }
    if !(200 <= status && status < 300) {
        return Err(DownloadError::RangeStatus { status: owned(status_text) });
    }
    let want = end - start + 1;
    if body_len != want {
        return Err(DownloadError::RangeLength { got: body_len, want });
    }
    Ok(())
}

/// The download is complete when every byte arrived.
pub fn check_complete(done: u64, total: u64) -> (r: Result<(), DownloadError>)
    ensures
        done == total ==> r is Ok,
        done != total ==> (r matches Err(DownloadError::Truncated { done: d, total: t }) && d
            == done && t == total),
{
    if done != total {
        return Err(DownloadError::Truncated { done, total });
    }
    Ok(())
}

/// The final integrity gate: when the catalog pins a digest, the
/// assembled file's digest must equal it.
pub fn check_digest(actual: &str, expected: Option<&str>) -> (r: Result<(), DownloadError>)
    ensures
        match expected {
            None => r is Ok,
            Some(e) => if actual@ == e@ {
                r is Ok
            } else {
                r matches Err(DownloadError::Integrity { got, expected: x }) && got@ == actual@
                    && x@ == e@
            },
        },
{
    match expected {
        None => Ok(()),
        Some(e) => {
            if str_eq(actual, e) {
                Ok(())
            } else {
                Err(DownloadError::Integrity { got: owned(actual), expected: owned(e) })
            }
        },
    }
}

/// The name of the partial file a download writes before it is renamed.
pub fn part_file_name(file: &str) -> (s: String)
    ensures
        s@ == file@ + ".part"@,
{
    let mut s = owned(file);
    push_str(&mut s, ".part");
    s
}

/// Why a download could not be started.
#[derive(Debug, Clone)]
pub enum StartDownloadError {
    Url(UrlError),
    FileName(FileNameError),
}

/// The checks before a download starts: the URL must pass the download
/// rules and the file name the file-name rules (in that order). On
/// success, the accepted file name and the digest the catalog pins for
/// the URL, if any.
pub fn prepare_download(url: &str, file: &str) -> (r: Result<
    (String, Option<String>),
    StartDownloadError,
>)
    ensures
        download_url_verdict(url@) matches Err(e) ==> (r matches Err(StartDownloadError::Url(x))
            && x == e),
        download_url_verdict(url@) is Ok ==> match file_name_verdict(file@) {
            Err(e) => r matches Err(StartDownloadError::FileName(x)) && x == e,
            Ok(t) => r matches Ok((f, d)) && f@ == t && match pinned_digest_from(
                catalog_spec(),
                url@,
                0,
            ) {
                Some(p) => d matches Some(x) && x@ == p,
                None => d is None,
            },
        },
{
    match validate_download_url(url) {
        Err(e) => return Err(StartDownloadError::Url(e)),
        Ok(()) => {},
    }
    let name = match safe_model_filename(file) {
        Err(e) => return Err(StartDownloadError::FileName(e)),
        Ok(n) => n,
    };
    Ok((name, expected_digest(url)))
}

// ---------------------------------------------------------------------
// Paths and the UI snapshot
// ---------------------------------------------------------------------

/// The shared models directory, `<home>/.cache/unhosted/models`.
pub fn models_dir(env: &EnvVars) -> (r: Result<String, HomeError>)
    ensures
        match home_of(*env) {
            Some(h) => r matches Ok(s) && s@ == joined_path(
                joined_path(joined_path(h, ".cache"@), "unhosted"@),
                "models"@,
            ),
            None => r == Err::<String, HomeError>(HomeError::NoHome),
        },
{
    let home = home_dir(env)?;
    let a = join_path(home.as_str(), ".cache");
    let b = join_path(a.as_str(), "unhosted");
    Ok(join_path(b.as_str(), "models"))
}

/// Where LM Studio keeps its models, `<home>/.lmstudio/models`; the
/// runtime lists it only when that directory exists.
pub fn lmstudio_models_dir(env: &EnvVars) -> (r: Option<String>)
    ensures
        match home_of(*env) {
            Some(h) => r matches Some(s) && s@ == joined_path(
                joined_path(h, ".lmstudio"@),
                "models"@,
            ),
            None => r is None,
        },
{
    let home = match home_dir(env) {
        Ok(h) => h,
        Err(_) => return None,
    };
    let a = join_path(home.as_str(), ".lmstudio");
    Some(join_path(a.as_str(), "models"))
}

/// A directory-listing name that the library scan keeps: it ends in
/// `.gguf`, ignoring ASCII case.
pub fn is_gguf_file_name(name: &str) -> (r: bool)
    ensures
        r == is_gguf_name(name@),
{
    let lower = ascii_lower_chars(chars_of(name).as_slice());
    ends_with_str(lower.as_slice(), ".gguf")
}

/// A catalog entry with whether its file is already installed.
#[derive(Debug, Clone)]
pub struct CatalogSnapshotEntry {
    pub entry: CatalogEntry,
    pub installed: bool,
}

/// Everything the UI needs in one poll.
#[derive(Debug, Clone)]
pub struct Snapshot {
    pub models_dir: String,
    pub llama_server_found: bool,
    pub llama_server_path: Option<String>,
    pub runtime: RuntimeState,
    pub download: DownloadState,
    pub installed: Vec<InstalledModel>,
    pub catalog: Vec<CatalogSnapshotEntry>,
}

/// The catalog, each entry flagged by whether a model with its file name
/// is installed.
pub fn catalog_snapshot(installed: &Vec<InstalledModel>) -> (v: Vec<CatalogSnapshotEntry>)
    ensures
        v@.len() == catalog_spec().len(),
        forall|i: int|
            0 <= i < v@.len() ==> #[trigger] v@[i].entry == catalog_spec()[i] && v@[i].installed
                == has_file(installed@, catalog_spec()[i].file@),
{
    let entries = catalog();
    let mut v: Vec<CatalogSnapshotEntry> = Vec::new();
    let mut i: usize = 0;
    while i < entries.len()
        invariant
            entries@ == catalog_spec(),
            i <= entries@.len(),
            v@.len() == i,
            forall|k: int|
                0 <= k < i ==> #[trigger] v@[k].entry == catalog_spec()[k] && v@[k].installed
                    == has_file(installed@, catalog_spec()[k].file@),
        decreases entries@.len() - i,
    {
        let e = entries[i];
        let flag = has_file_exec(installed, e.file);
        v.push(CatalogSnapshotEntry { entry: e, installed: flag });
        i += 1;
    }
    v
}

/// Assembles the UI snapshot from the state and what the runtime found.
pub fn snapshot_of(
    models_dir: String,
    llama_server_path: Option<String>,
    runtime: RuntimeState,
    download: DownloadState,
    installed: Vec<InstalledModel>,
) -> (s: Snapshot)
    ensures
        s.models_dir == models_dir,
        s.llama_server_found == llama_server_path is Some,
        s.llama_server_path == llama_server_path,
        s.runtime == runtime,
        s.download == download,
        s.installed == installed,
        s.catalog@.len() == catalog_spec().len(),
        forall|i: int|
            0 <= i < s.catalog@.len() ==> #[trigger] s.catalog@[i].entry == catalog_spec()[i]
                && s.catalog@[i].installed == has_file(installed@, catalog_spec()[i].file@),
{
    let catalog = catalog_snapshot(&installed);
    Snapshot {
        models_dir,
        llama_server_found: llama_server_path.is_some(),
        llama_server_path,
        runtime,
        download,
        installed,
        catalog,
    }
}

/// A directory entry whose metadata could be read.
#[derive(Debug, Clone)]
pub struct FileEntry {
    pub name: String,
    pub is_file: bool,
    pub size_bytes: u64,
    /// Unix seconds of the mtime (0 when unknown).
    pub modified_unix: u64,
}

/// The model files among some entries, in listing order: regular files
/// whose name ends in `.gguf` (any case).
pub open spec fn gguf_models(entries: Seq<FileEntry>, source: InstalledSource) -> Seq<InstalledModel>
    decreases entries.len(),
{
    if entries.len() == 0 {
        Seq::empty()
    } else {
        let r = gguf_models(entries.drop_last(), source);
        let e = entries.last();
        if e.is_file && is_gguf_name(e.name@) {
            r.push(
                InstalledModel {
                    file: e.name,
                    size_bytes: e.size_bytes,
                    modified_unix: e.modified_unix,
                    source,
                },
            )
        } else {
            r
        }
    }
}

/// The models found in a directory listing (the library's, or all of LM
/// Studio's tree gathered together), newest first.
pub fn installed_from(entries: Vec<FileEntry>, source: InstalledSource) -> (r: Vec<InstalledModel>)
    ensures
        r@ == newest_first(gguf_models(entries@, source)),
{
    let mut rest = entries;
    let ghost orig = rest@;
    let total: usize = rest.len();
    let mut found: Vec<InstalledModel> = Vec::new();
    let mut n: usize = 0;
    while rest.len() > 0
        invariant
            n + rest@.len() == orig.len(),
            orig.len() == total,
            rest@ == orig.subrange(n as int, orig.len() as int),
            found@ == gguf_models(orig.take(n as int), source),
        decreases rest@.len(),
    {
        let e = rest.remove(0);
        assert(orig.take(n + 1).drop_last() =~= orig.take(n as int));
        assert(orig.take(n + 1).last() == e);
        if e.is_file && is_gguf_file_name(e.name.as_str()) {
            found.push(
                InstalledModel {
                    file: e.name,
                    size_bytes: e.size_bytes,
                    modified_unix: e.modified_unix,
                    source,
                },
            );
        }
        n += 1;
        assert(rest@ =~= orig.subrange(n as int, orig.len() as int));
    }
    assert(orig.take(n as int) =~= orig);
    sort_newest_first(found)
}

/// Where a model file is looked for in LM Studio's tree: the root, then
/// for each publisher its model directories followed by the publisher's
/// own directory.
pub open spec fn lmstudio_search_dirs(root: Seq<char>, tree: Seq<(Seq<char>, Seq<Seq<char>>)>) -> Seq<
    Seq<char>,
>
    decreases tree.len(),
{
    if tree.len() == 0 {
        seq![root]
    } else {
        lmstudio_search_dirs(root, tree.drop_last()) + tree.last().1 + seq![tree.last().0]
    }
}

/// The publishers of LM Studio's tree with their model directories, as
/// plain values.
pub open spec fn tree_view(tree: Seq<(String, Vec<String>)>) -> Seq<(Seq<char>, Seq<Seq<char>>)> {
    tree.map_values(|p: (String, Vec<String>)| (p.0@, crate::text::string_views(p.1@)))
}

/// The directories to look for a model file in, in order.
pub fn search_dirs(root: &str, tree: &Vec<(String, Vec<String>)>) -> (r: Vec<String>)
    ensures
        crate::text::string_views(r@) == lmstudio_search_dirs(root@, tree_view(tree@)),
{
    let mut out: Vec<String> = vec![owned(root)];
    assert(crate::text::string_views(out@) =~= seq![root@]);
    let mut i: usize = 0;
    while i < tree.len()
        invariant
            i <= tree@.len(),
            crate::text::string_views(out@) == lmstudio_search_dirs(root@, tree_view(tree@).take(i as int)),
        decreases tree@.len() - i,
    {
        let ghost before = crate::text::string_views(out@);
        let models = &tree[i].1;
        let mut j: usize = 0;
        while j < models.len()
            invariant
                j <= models@.len(),
                crate::text::string_views(out@) == before + crate::text::string_views(models@).take(j as int),
            decreases models@.len() - j,
        {
            let ghost b2 = crate::text::string_views(out@);
            out.push(owned(models[j].as_str()));
            assert(crate::text::string_views(out@) =~= b2.push(models@[j as int]@));
            assert(crate::text::string_views(models@).take(j + 1) =~= crate::text::string_views(models@).take(j as int).push(models@[j as int]@));
            j += 1;
        }
        let ghost b3 = crate::text::string_views(out@);
        out.push(owned(tree[i].0.as_str()));
        assert(crate::text::string_views(out@) =~= b3.push(tree@[i as int].0@));
        proof {
            assert(crate::text::string_views(models@).take(j as int) =~= crate::text::string_views(models@));
            let tv = tree_view(tree@);
            assert(tv.take(i + 1).drop_last() =~= tv.take(i as int));
            assert(tv.take(i + 1).last() == tv[i as int]);
            assert(tv[i as int] == (tree@[i as int].0@, crate::text::string_views(tree@[i as int].1@)));
            assert(crate::text::string_views(out@) =~= lmstudio_search_dirs(root@, tv.take(i + 1)));
        }
        i += 1;
    }
    assert(tree_view(tree@).take(i as int) =~= tree_view(tree@));
    out
}

} // verus!
