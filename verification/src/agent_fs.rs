//! The file-system sandbox of the agent tools `read_file`, `list_dir` and
//! `grep_files`.
//!
//! Files are readable only under operator allow-listed roots, never when
//! a (case-insensitive) deny pattern matches their canonical path, up to
//! a size cap, and, unless configured otherwise, never through a
//! symlink. The runtime does the file-system calls (symlink metadata,
//! canonicalisation, directory reads, file reads); this module holds the
//! policy it applies to each answer and the bookkeeping of the tree walk.
//! An absent configuration, or one with no roots, refuses everything.

use vstd::prelude::*;
use crate::paths::{config_file, config_file_of, EnvVars, HomeError};
use crate::text::{
    chars_of, contains_seq, owned, push_char, push_str, split_chars, split_pieces,
    char_views, string_of_range, to_lowercase, unicode_lower, contains_chars, lex_lt, str_lt,
    lemma_lex_total, lemma_lex_transitive,
};

verus! {

/// Cap on entries returned by `list_dir`.
pub const LIST_DIR_MAX_ENTRIES: usize = 500;

/// Cap on matches returned by `grep_files`.
pub const GREP_MAX_MATCHES: usize = 200;

/// Cap on files scanned per `grep_files` call.
pub const GREP_MAX_FILES: usize = 5_000;

/// Files larger than this many bytes are skipped by `grep_files`.
pub const GREP_MAX_FILE_BYTES: usize = 1_048_576;

/// Matched lines longer than this many characters are cut.
pub const GREP_MAX_LINE_CHARS: usize = 240;

/// What the operator stores in `agent-fs.toml`.
#[derive(Debug, Clone)]
pub struct AgentFsConfigRaw {
    pub allow_roots: Vec<String>,
    pub deny_patterns: Vec<String>,
    pub max_bytes: usize,
    pub follow_symlinks: bool,
}

/// The baseline deny patterns.
pub open spec fn default_deny_spec() -> Seq<Seq<char>> {
    seq![
        ".env"@,
        "id_rsa"@,
        "id_ed25519"@,
        "id_ecdsa"@,
        "id_dsa"@,
        ".pem"@,
        ".p12"@,
        ".pfx"@,
        ".key"@,
        "credentials"@,
        "secrets"@,
        ".sqlite"@,
        ".db"@,
    ]
}

/// The deny patterns used when the configuration names none: key files,
/// credentials and local databases.
pub fn default_deny_patterns() -> (v: Vec<String>)
    ensures
        crate::text::string_views(v@) == default_deny_spec(),
{
    let v = vec![
        owned(".env"),
        owned("id_rsa"),
        owned("id_ed25519"),
        owned("id_ecdsa"),
        owned("id_dsa"),
        owned(".pem"),
        owned(".p12"),
        owned(".pfx"),
        owned(".key"),
        owned("credentials"),
        owned("secrets"),
        owned(".sqlite"),
        owned(".db"),
    ];
    assert(crate::text::string_views(v@) =~= default_deny_spec());
    v
}

/// The default read cap: 512 KiB.
pub fn default_max_bytes() -> (n: usize)
    ensures
        n == 524_288,
{
    524_288
}

/// The sealed configuration: allow-list roots canonicalised once at load.
#[derive(Debug, Clone)]
pub struct AgentFsConfig {
    pub allow_roots: Vec<String>,
    pub deny_patterns: Vec<String>,
    pub max_bytes: usize,
    pub follow_symlinks: bool,
}

impl AgentFsConfig {
    /// Seals a raw configuration with its roots' canonical forms.
    pub fn seal(raw: AgentFsConfigRaw, canonical_roots: Vec<String>) -> (c: Self)
        ensures
            c.allow_roots == canonical_roots,
            c.deny_patterns == raw.deny_patterns,
            c.max_bytes == raw.max_bytes,
            c.follow_symlinks == raw.follow_symlinks,
    {
        AgentFsConfig {
            allow_roots: canonical_roots,
            deny_patterns: raw.deny_patterns,
            max_bytes: raw.max_bytes,
            follow_symlinks: raw.follow_symlinks,
        }
    }
}

/// The path of `agent-fs.toml`.
pub fn config_path(env: &EnvVars) -> (r: Result<String, HomeError>)
    ensures
        match config_file_of(*env, "agent-fs.toml"@) {
            Some(p) => r matches Ok(s) && s@ == p,
            None => r == Err::<String, HomeError>(HomeError::NoHome),
        },
{
    config_file(env, "agent-fs.toml")
}

/// Why a sandboxed file operation was refused.
#[derive(Debug, Clone, PartialEq, Eq)]
pub enum ReadFileError {
    NotConfigured,
    NotAbsolute,
    OutsideAllowList,
    DenyPattern(String),
    SymlinkRefused,
    NotFound,
    NotUtf8,
    Io(String),
}

/// The label the agent sees for a refusal.
pub open spec fn error_label(e: ReadFileError) -> Seq<char> {
    match e {
        ReadFileError::NotConfigured => "read_file not configured on this host"@,
        ReadFileError::NotAbsolute => "path must be absolute"@,
        ReadFileError::OutsideAllowList => "path is not under any allow-listed root"@,
        ReadFileError::DenyPattern(p) => "path matches deny pattern '"@ + p@ + "'"@,
        ReadFileError::SymlinkRefused => "symlinks are not followed by this host's configuration"@,
        ReadFileError::NotFound => "file not found"@,
        ReadFileError::NotUtf8 => "file is not valid UTF-8"@,
        ReadFileError::Io(e) => "io: "@ + e@,
    }
}

impl ReadFileError {
    /// A human-readable label, stable enough for the model to learn from.
    pub fn label(&self) -> (s: String)
        ensures
            s@ == error_label(*self),
    {
        match self {
            ReadFileError::NotConfigured => owned("read_file not configured on this host"),
            ReadFileError::NotAbsolute => owned("path must be absolute"),
            ReadFileError::OutsideAllowList => owned("path is not under any allow-listed root"),
            ReadFileError::DenyPattern(p) => {
                let mut s = owned("path matches deny pattern '");
                push_str(&mut s, p.as_str());
                push_str(&mut s, "'");
                s
            },
            ReadFileError::SymlinkRefused => owned(
                "symlinks are not followed by this host's configuration",
            ),
            ReadFileError::NotFound => owned("file not found"),
            ReadFileError::NotUtf8 => owned("file is not valid UTF-8"),
            ReadFileError::Io(e) => {
                let mut s = owned("io: ");
                push_str(&mut s, e.as_str());
                s
            },
        }
    }
}

/// An error as plain values: its variant's number and its text (empty
/// for the variants that carry none).
pub open spec fn error_key(e: ReadFileError) -> (int, Seq<char>) {
    match e {
        ReadFileError::NotConfigured => (0, Seq::empty()),
        ReadFileError::NotAbsolute => (1, Seq::empty()),
        ReadFileError::OutsideAllowList => (2, Seq::empty()),
        ReadFileError::DenyPattern(p) => (3, p@),
        ReadFileError::SymlinkRefused => (4, Seq::empty()),
        ReadFileError::NotFound => (5, Seq::empty()),
        ReadFileError::NotUtf8 => (6, Seq::empty()),
        ReadFileError::Io(x) => (7, x@),
    }
}

/// The characters of a label that tell the variants apart: the first,
/// and (for labels of at least seven characters) the sixth and seventh.
pub open spec fn label_sig(e: ReadFileError) -> (char, char, char) {
    match e {
        ReadFileError::NotConfigured => ('r', 'f', 'i'),
        ReadFileError::NotAbsolute => ('p', 'm', 'u'),
        ReadFileError::OutsideAllowList => ('p', 'i', 's'),
        ReadFileError::DenyPattern(_) => ('p', 'm', 'a'),
        ReadFileError::SymlinkRefused => ('s', 'n', 'k'),
        ReadFileError::NotFound => ('f', 'n', 'o'),
        ReadFileError::NotUtf8 => ('f', 'i', 's'),
        ReadFileError::Io(_) => ('i', ' ', ' '),
    }
}

proof fn lemma_label_sig(e: ReadFileError)
    ensures
        error_label(e).len() >= 4,
        error_label(e)[0] == label_sig(e).0,
        !(e is Io) ==> error_label(e).len() >= 7 && error_label(e)[5] == label_sig(e).1
            && error_label(e)[6] == label_sig(e).2,
        e matches ReadFileError::DenyPattern(p) ==> p@ =~= error_label(e).subrange(
            27,
            error_label(e).len() - 1,
        ),
        e matches ReadFileError::Io(x) ==> x@ =~= error_label(e).subrange(4, error_label(e).len() as int),
{
    reveal_strlit("read_file not configured on this host");
    reveal_strlit("path must be absolute");
    reveal_strlit("path is not under any allow-listed root");
    reveal_strlit("path matches deny pattern '");
    reveal_strlit("'");
    reveal_strlit("symlinks are not followed by this host's configuration");
    reveal_strlit("file not found");
    reveal_strlit("file is not valid UTF-8");
    reveal_strlit("io: ");
}

/// Labels never collide: two errors with the same label are the same
/// error (same variant, same text).
pub proof fn labels_tell_errors_apart(a: ReadFileError, b: ReadFileError)
    ensures
        error_label(a) == error_label(b) ==> error_key(a) == error_key(b),
{
    lemma_label_sig(a);
    lemma_label_sig(b);
    if error_label(a) == error_label(b) {
        assert(label_sig(a).0 == label_sig(b).0);
        if !(a is Io) && !(b is Io) {
            assert(label_sig(a) == label_sig(b));
        }
    }
}

/// What `read_file` returns.
#[derive(Debug, Clone, PartialEq, Eq)]
pub enum ReadFileOutcome {
    Success { content: String, bytes_read: usize, truncated: bool },
    Failure(ReadFileError),
}

/// One entry of a directory listing: kind is `file`, `dir`, `symlink`
/// or `other`; size is the byte size for files and 0 otherwise.
#[derive(Debug, Clone, PartialEq, Eq)]
pub struct DirEntry {
    pub name: String,
    pub kind: &'static str,
    pub size: u64,
}

/// What `list_dir` returns.
#[derive(Debug, Clone, PartialEq, Eq)]
pub enum ListDirOutcome {
    Success { entries: Vec<DirEntry>, truncated: bool },
    Failure(ReadFileError),
}

/// One match in one file: the canonical path, the 1-based line number
/// and the line (cut to 240 characters plus an ellipsis).
#[derive(Debug, Clone, PartialEq, Eq)]
pub struct GrepMatch {
    pub path: String,
    pub line_number: u32,
    pub line: String,
}

/// What `grep_files` returns.
#[derive(Debug, Clone, PartialEq, Eq)]
pub enum GrepOutcome {
    Success { matches: Vec<GrepMatch>, files_scanned: usize, files_skipped: usize, truncated: bool },
    Failure(ReadFileError),
}

// ---------------------------------------------------------------------
// Paths and the allow-list
// ---------------------------------------------------------------------

/// The normal components of path pieces: empty pieces (repeated or
/// trailing separators) and `.` pieces dropped.
pub open spec fn normal_components(pieces: Seq<Seq<char>>) -> Seq<Seq<char>>
    decreases pieces.len(),
{
    if pieces.len() == 0 {
        Seq::empty()
    } else {
        let rest = normal_components(pieces.drop_last());
        if pieces.last().len() == 0 || pieces.last() == "."@ {
            rest
        } else {
            rest.push(pieces.last())
        }
    }
}

/// A Unix path's components as `Path::components` yields them: `/` for
/// the root of an absolute path, `.` for a leading current-directory
/// component, then the normal components.
pub open spec fn path_components(p: Seq<char>) -> Seq<Seq<char>> {
    let pieces = split_pieces(p, '/');
    if p.len() > 0 && p[0] == '/' {
        seq!["/"@] + normal_components(pieces.drop_first())
    } else if pieces[0] == "."@ {
        seq!["."@] + normal_components(pieces.drop_first())
    } else {
        normal_components(pieces)
    }
}

/// `candidate` lies strictly inside `root`: the root's components are a
/// proper prefix of the candidate's (so `/a/foo2` is not under `/a/foo`).
pub open spec fn strictly_under(candidate: Seq<char>, root: Seq<char>) -> bool {
    let c = path_components(candidate);
    let r = path_components(root);
    r.len() < c.len() && c.take(r.len() as int) == r
}

/// The two paths name the same location component by component.
pub open spec fn same_path(a: Seq<char>, b: Seq<char>) -> bool {
    path_components(a) == path_components(b)
}

fn normal_components_exec(pieces: &Vec<Vec<char>>, from: usize) -> (r: Vec<Vec<char>>)
    requires
        from <= pieces@.len(),
    ensures
        char_views(r@) == normal_components(char_views(pieces@).subrange(
            from as int,
            pieces@.len() as int,
        )),
{
    let mut r: Vec<Vec<char>> = Vec::new();
    let mut i = from;
    let ghost all = char_views(pieces@);
    while i < pieces.len()
        invariant
            from <= i <= pieces@.len(),
            all == char_views(pieces@),
            char_views(r@) == normal_components(all.subrange(from as int, i as int)),
        decreases pieces@.len() - i,
    {
        assert(all.subrange(from as int, i + 1).drop_last() =~= all.subrange(from as int, i as int));
        assert(all.subrange(from as int, i + 1).last() == pieces@[i as int]@);
        let p = &pieces[i];
        let dot = chars_of(".");
        proof {
            reveal_strlit(".");
        }
        let is_dot = p.len() == 1 && p[0] == '.';
        assert(is_dot == (p@ == "."@)) by {
            if p@.len() == 1 && p@[0] == '.' {
                assert(p@ =~= "."@);
            }
        }
        if p.len() != 0 && !is_dot {
            let ghost before = char_views(r@);
            let copy = string_of_range(p.as_slice(), 0, p.len());
            let cv = chars_of(copy.as_str());
            assert(p@.subrange(0, p@.len() as int) =~= p@);
            r.push(cv);
            assert(char_views(r@) =~= before.push(p@));
        }
        i += 1;
    }
    r
}

/// The components of a path.
pub fn components(p: &str) -> (r: Vec<Vec<char>>)
    ensures
        char_views(r@) == path_components(p@),
{
    let chars = chars_of(p);
    let pieces = split_chars(chars.as_slice(), '/');
    proof {
        crate::text::lemma_split_pieces_nonempty(chars@, '/');
        assert(char_views(pieces@)[0] == pieces@[0]@);
    }
    proof {
        reveal_strlit(".");
        reveal_strlit("/");
    }
    if chars.len() > 0 && chars[0] == '/' {
        let rest = normal_components_exec(&pieces, 1);
        let mut r: Vec<Vec<char>> = Vec::new();
        r.push(chars_of("/"));
        let ghost head = char_views(r@);
        let mut rest = rest;
        r.append(&mut rest);
        assert(char_views(pieces@).drop_first() =~= char_views(pieces@).subrange(
            1,
            pieces@.len() as int,
        ));
        assert(char_views(r@) =~= seq!["/"@] + normal_components(char_views(pieces@).drop_first()));
        r
    } else if pieces[0].len() == 1 && pieces[0][0] == '.' {
        assert(pieces@[0]@ =~= "."@);
        let rest = normal_components_exec(&pieces, 1);
        let mut r: Vec<Vec<char>> = Vec::new();
        r.push(chars_of("."));
        let mut rest = rest;
        r.append(&mut rest);
        assert(char_views(pieces@).drop_first() =~= char_views(pieces@).subrange(
            1,
            pieces@.len() as int,
        ));
        assert(char_views(r@) =~= seq!["."@] + normal_components(char_views(pieces@).drop_first()));
        r
    } else {
        assert(pieces@[0]@ != "."@) by {
            if pieces@[0]@ == "."@ {
                assert(pieces@[0]@.len() == 1);
                assert(pieces@[0]@[0] == '.');
            }
        }
        let r = normal_components_exec(&pieces, 0);
        assert(char_views(pieces@).subrange(0, pieces@.len() as int) =~= char_views(pieces@));
        r
    }
}

fn comps_eq(a: &Vec<Vec<char>>, b: &Vec<Vec<char>>, n: usize) -> (r: bool)
    requires
        n <= a@.len(),
        n <= b@.len(),
    ensures
        r == (char_views(a@).take(n as int) == char_views(b@).take(n as int)),
{
    let mut i: usize = 0;
    while i < n
        invariant
            i <= n,
            n <= a@.len(),
            n <= b@.len(),
            forall|k: int| 0 <= k < i ==> a@[k]@ == b@[k]@,
        decreases n - i,
    {
        if !crate::text::chars_eq(a[i].as_slice(), b[i].as_slice()) {
            assert(char_views(a@).take(n as int)[i as int] != char_views(b@).take(n as int)[i as int]);
            return false;
        }
        i += 1;
    }
    assert(char_views(a@).take(n as int) =~= char_views(b@).take(n as int));
    true
}

/// Whether `candidate` lies strictly inside `root`, component-wise.
pub fn is_strictly_under(candidate: &str, root: &str) -> (r: bool)
    ensures
        r == strictly_under(candidate@, root@),
{
    let c = components(candidate);
    let r = components(root);
    if r.len() >= c.len() {
        return false;
    }
    assert(char_views(r@).take(r@.len() as int) =~= char_views(r@));
    comps_eq(&c, &r, r.len())
}

/// Whether two paths name the same location, component-wise.
pub fn is_same_path(a: &str, b: &str) -> (r: bool)
    ensures
        r == same_path(a@, b@),
{
    let x = components(a);
    let y = components(b);
    if x.len() != y.len() {
        assert(char_views(x@).len() != char_views(y@).len());
        return false;
    }
    let e = comps_eq(&x, &y, x.len());
    assert(char_views(x@).take(x@.len() as int) =~= char_views(x@));
    assert(char_views(y@).take(y@.len() as int) =~= char_views(y@));
    e
}

/// The first deny pattern that occurs in the path, both lower-cased, from
/// index `i` on.
pub open spec fn first_denied_from(path: Seq<char>, patterns: Seq<String>, i: int) -> Option<int>
    decreases patterns.len() - i,
{
    if i < 0 || i >= patterns.len() {
        None
    } else if contains_seq(unicode_lower(path), unicode_lower(patterns[i]@)) {
        Some(i)
    } else {
        first_denied_from(path, patterns, i + 1)
    }
}

/// The index of the first deny pattern matching the path (ignoring case).
pub fn first_denied(path: &str, patterns: &Vec<String>) -> (r: Option<usize>)
    ensures
        match r {
            Some(k) => k < patterns@.len() && first_denied_from(path@, patterns@, 0) == Some(
                k as int,
            ),
            None => first_denied_from(path@, patterns@, 0) is None,
        },
{
    let lower = chars_of(to_lowercase(path).as_str());
    let mut i: usize = 0;
    while i < patterns.len()
        invariant
            i <= patterns@.len(),
            lower@ == unicode_lower(path@),
            first_denied_from(path@, patterns@, 0) == first_denied_from(path@, patterns@, i as int),
        decreases patterns@.len() - i,
    {
        let p = chars_of(to_lowercase(patterns[i].as_str()).as_str());
        if contains_chars(lower.as_slice(), p.as_slice()) {
            return Some(i);
        }
        i += 1;
    }
    None
}

/// The configuration exists and names at least one root.
pub open spec fn configured(cfg: Option<AgentFsConfig>) -> bool {
    cfg is Some && cfg->0.allow_roots@.len() > 0
}

/// Before touching the file system: the sandbox must be configured and
/// the requested path absolute.
pub fn precheck(cfg: Option<&AgentFsConfig>, path: &str) -> (r: Result<(), ReadFileError>)
    ensures
        !configured(
            match cfg {
                Some(c) => Some(*c),
                None => None,
            },
        ) ==> r == Err::<(), ReadFileError>(ReadFileError::NotConfigured),
        configured(
            match cfg {
                Some(c) => Some(*c),
                None => None,
            },
        ) ==> r == if path@.len() > 0 && path@[0] == '/' {
            Ok::<(), ReadFileError>(())
        } else {
            Err(ReadFileError::NotAbsolute)
        },
{
    let c = match cfg {
        Some(c) => c,
        None => return Err(ReadFileError::NotConfigured),
    };
    if c.allow_roots.len() == 0 {
        return Err(ReadFileError::NotConfigured);
    }
    let p = chars_of(path);
    if p.len() > 0 && p[0] == '/' {
        Ok(())
    } else {
        Err(ReadFileError::NotAbsolute)
    }
}

/// Whether the path is refused for being a symlink: only when the
/// configuration does not follow symlinks.
pub fn refuses_symlink(cfg: &AgentFsConfig, is_symlink: bool) -> (r: bool)
    ensures
        r == (is_symlink && !cfg.follow_symlinks),
{
    is_symlink && !cfg.follow_symlinks
}

/// The refusal for a failed canonicalisation: not found, or the error's
/// text.
pub fn canonicalize_error(not_found: bool, message: String) -> (e: ReadFileError)
    ensures
        not_found ==> e == ReadFileError::NotFound,
        !not_found ==> e == ReadFileError::Io(message),
{
    if not_found {
        ReadFileError::NotFound
    } else {
        ReadFileError::Io(message)
    }
}

/// Some root admits the canonical path: strictly inside it, or (when the
/// operation allows it) the root itself.
pub open spec fn admitted(roots: Seq<String>, canonical: Seq<char>, root_itself: bool) -> bool {
    exists|i: int|
        0 <= i < roots.len() && (strictly_under(canonical, #[trigger] roots[i]@) || (root_itself
            && same_path(canonical, roots[i]@)))
}

/// After canonicalisation: the path must be admitted by some root
/// (strictly inside it; `root_itself` also admits the root, as listing
/// and searching do), and no deny pattern may match it, ignoring case.
pub fn check_policy(cfg: &AgentFsConfig, canonical: &str, root_itself: bool) -> (r: Result<
    (),
    ReadFileError,
>)
    ensures
        !admitted(cfg.allow_roots@, canonical@, root_itself) ==> r == Err::<(), ReadFileError>(
            ReadFileError::OutsideAllowList,
        ),
        admitted(cfg.allow_roots@, canonical@, root_itself) ==> match first_denied_from(
            canonical@,
            cfg.deny_patterns@,
            0,
        ) {
            Some(i) => r matches Err(ReadFileError::DenyPattern(p)) && p@
                == cfg.deny_patterns@[i]@,
            None => r is Ok,
        },
{
    let mut i: usize = 0;
    let mut ok = false;
    while i < cfg.allow_roots.len() && !ok
        invariant
            i <= cfg.allow_roots@.len(),
            ok ==> admitted(cfg.allow_roots@, canonical@, root_itself),
            !ok ==> forall|k: int|
                0 <= k < i ==> !(strictly_under(canonical@, #[trigger] cfg.allow_roots@[k]@) || (
                root_itself && same_path(canonical@, cfg.allow_roots@[k]@))),
        decreases cfg.allow_roots@.len() - i,
    {
        let root = cfg.allow_roots[i].as_str();
        if is_strictly_under(canonical, root) || (root_itself && is_same_path(canonical, root)) {
            ok = true;
        }
        i += 1;
    }
    if !ok {
        return Err(ReadFileError::OutsideAllowList);
    }
    match first_denied(canonical, &cfg.deny_patterns) {
        Some(k) => Err(ReadFileError::DenyPattern(owned(cfg.deny_patterns[k].as_str()))),
        None => Ok(()),
    }
}

/// How much of a file to read: all of it up to the cap, and whether the
/// cap cut it.
pub fn read_plan(file_size: usize, max_bytes: usize) -> (r: (usize, bool))
    ensures
        r.1 == (file_size > max_bytes),
        r.0 == if file_size > max_bytes {
            max_bytes
        } else {
            file_size
        },
{
    if file_size > max_bytes {
        (max_bytes, true)
    } else {
        (file_size, false)
    }
}

/// The text a byte sequence encodes in UTF-8, or `None` when the bytes are
/// not valid UTF-8.
pub open spec fn utf8_decode(bytes: Seq<u8>) -> Option<Seq<char>> {
    if vstd::utf8::valid_utf8(bytes) {
        Some(vstd::utf8::decode_utf8(bytes))
    } else {
        None
    }
}

/// `String::from_utf8`: the text the bytes encode, or `None` when they are
/// not valid UTF-8 (as `utf8_decode` states).
#[verifier::external_body]
pub(crate) fn decode_utf8(bytes: Vec<u8>) -> (r: Option<String>)
    ensures
        match utf8_decode(bytes@) {
            Some(t) => r matches Some(s) && s@ == t,
            None => r is None,
        },
{
    String::from_utf8(bytes).ok()
}

/// Finishes a read: the bytes read become the content when they are UTF-8.
pub fn finish_read(buf: Vec<u8>, truncated: bool) -> (r: ReadFileOutcome)
    ensures
        match utf8_decode(buf@) {
            Some(t) => r matches ReadFileOutcome::Success { content, bytes_read, truncated: tr } && content@
                == t && bytes_read == buf@.len() && tr == truncated,
            None => r == ReadFileOutcome::Failure(ReadFileError::NotUtf8),
        },
{
    let n = buf.len();
    match decode_utf8(buf) {
        Some(content) => ReadFileOutcome::Success { content, bytes_read: n, truncated },
        None => ReadFileOutcome::Failure(ReadFileError::NotUtf8),
    }
}

// ---------------------------------------------------------------------
// Directory listings
// ---------------------------------------------------------------------

/// The kind label of a directory entry from its file type.
pub fn entry_kind(is_dir: bool, is_file: bool, is_symlink: bool) -> (k: &'static str)
    ensures
        k@ == if is_dir {
            "dir"@
        } else if is_file {
            "file"@
        } else if is_symlink {
            "symlink"@
        } else {
            "other"@
        },
{
    if is_dir {
        "dir"
    } else if is_file {
        "file"
    } else if is_symlink {
        "symlink"
    } else {
        "other"
    }
}

/// The kind label for a file type: `dir`, `file`, `symlink` or `other`.
pub open spec fn kind_name(is_dir: bool, is_file: bool, is_symlink: bool) -> Seq<char> {
    if is_dir {
        "dir"@
    } else if is_file {
        "file"@
    } else if is_symlink {
        "symlink"@
    } else {
        "other"@
    }
}

/// A listed entry is well formed: its kind is one of the four names, and
/// only a file has a non-zero size.
pub open spec fn entry_ok(e: DirEntry) -> bool {
    &&& (e.kind@ == "file"@ || e.kind@ == "dir"@ || e.kind@ == "symlink"@ || e.kind@ == "other"@)
    &&& (e.kind@ != "file"@ ==> e.size == 0)
}

impl DirEntry {
    /// The entry for a name and its file type (`None` when the type could
    /// not be read, which lists as `other`); `file_size` is kept only for a
    /// file.
    pub fn from_file_type(name: String, kind: Option<FileKind>, file_size: u64) -> (e: DirEntry)
        ensures
            e.name == name,
            e.kind@ == match kind {
                Some(k) => kind_name(k.is_dir, k.is_file, k.is_symlink),
                None => "other"@,
            },
            e.size == match kind {
                Some(k) => if !k.is_dir && k.is_file {
                    file_size
                } else {
                    0
                },
                None => 0,
            },
            entry_ok(e),
    {
        proof {
            reveal_strlit("file");
            reveal_strlit("dir");
            reveal_strlit("symlink");
            reveal_strlit("other");
            assert("file"@.len() != "dir"@.len());
            assert("file"@.len() != "symlink"@.len());
            assert("file"@[0] != "other"@[0]);
        }
        match kind {
            Some(k) => {
                let kind = entry_kind(k.is_dir, k.is_file, k.is_symlink);
                let size = if !k.is_dir && k.is_file {
                    file_size
                } else {
                    0
                };
                DirEntry { name, kind, size }
            },
            None => DirEntry { name, kind: entry_kind(false, false, false), size: 0 },
        }
    }
}

/// Where an entry goes into a name-sorted list: after every entry whose
/// name does not sort after it, scanning from `i`.
pub open spec fn name_pos(s: Seq<DirEntry>, name: Seq<char>, i: int) -> int
    decreases s.len() - i,
{
    if i < 0 || i >= s.len() {
        s.len() as int
    } else if lex_lt(name, s[i].name@) {
        i
    } else {
        name_pos(s, name, i + 1)
    }
}

/// Stable ordering by name.
pub open spec fn by_name(s: Seq<DirEntry>) -> Seq<DirEntry>
    decreases s.len(),
{
    if s.len() == 0 {
        s
    } else {
        let r = by_name(s.drop_last());
        r.insert(name_pos(r, s.last().name@, 0), s.last())
    }
}

/// The listing of a directory whose entries were read in the given
/// order: the first 500 entries, sorted by name, and whether more were
/// left out.
pub open spec fn listing_of(raw: Seq<DirEntry>) -> (Seq<DirEntry>, bool) {
    if raw.len() > LIST_DIR_MAX_ENTRIES {
        (by_name(raw.take(LIST_DIR_MAX_ENTRIES as int)), true)
    } else {
        (by_name(raw), false)
    }
}

fn sort_by_name(items: Vec<DirEntry>) -> (r: Vec<DirEntry>)
    ensures
        r@ == by_name(items@),
{
    let mut rest = items;
    let ghost orig = rest@;
    let total: usize = rest.len();
    let mut out: Vec<DirEntry> = Vec::new();
    let mut n: usize = 0;
    while rest.len() > 0
        invariant
            n + rest@.len() == orig.len(),
            orig.len() == total,
            rest@ == orig.subrange(n as int, orig.len() as int),
            out@ == by_name(orig.take(n as int)),
        decreases rest@.len(),
    {
        let x = rest.remove(0);
        assert(orig.take(n + 1).drop_last() =~= orig.take(n as int));
        assert(orig.take(n + 1).last() == x);
        let mut j: usize = 0;
        while j < out.len() && !str_lt(x.name.as_str(), out[j].name.as_str())
            invariant
                j <= out@.len(),
                name_pos(out@, x.name@, 0) == name_pos(out@, x.name@, j as int),
            decreases out@.len() - j,
        {
            j += 1;
        }
        out.insert(j, x);
        n += 1;
        assert(rest@ =~= orig.subrange(n as int, orig.len() as int));
    }
    assert(orig.take(n as int) =~= orig);
    out
}

/// A read needs a regular file: anything else is refused with
/// `io: not a regular file`.
pub fn require_file(is_file: bool) -> (r: Result<(), ReadFileError>)
    ensures
        is_file ==> r is Ok,
        !is_file ==> (r matches Err(ReadFileError::Io(m)) && m@ == "not a regular file"@),
{
    if is_file {
        Ok(())
    } else {
        Err(ReadFileError::Io(owned("not a regular file")))
    }
}

/// A listing needs a directory: anything else is refused with
/// `io: not a directory`.
pub fn require_directory(is_dir: bool) -> (r: Result<(), ReadFileError>)
    ensures
        is_dir ==> r is Ok,
        !is_dir ==> (r matches Err(ReadFileError::Io(m)) && m@ == "not a directory"@),
{
    if is_dir {
        Ok(())
    } else {
        Err(ReadFileError::Io(owned("not a directory")))
    }
}

/// No later entry's name sorts before an earlier one's.
pub open spec fn ordered_by_name(s: Seq<DirEntry>) -> bool {
    forall|i: int, j: int| 0 <= i < j < s.len() ==> !lex_lt(#[trigger] s[j].name@, #[trigger] s[i].name@)
}

proof fn lemma_name_pos(s: Seq<DirEntry>, n: Seq<char>, i: int)
    requires
        0 <= i <= s.len(),
        ordered_by_name(s),
    ensures
        i <= name_pos(s, n, i) <= s.len(),
        forall|j: int| i <= j < name_pos(s, n, i) ==> !lex_lt(n, #[trigger] s[j].name@),
        forall|j: int| name_pos(s, n, i) <= j < s.len() ==> lex_lt(n, #[trigger] s[j].name@),
    decreases s.len() - i,
{
    if i < s.len() && !lex_lt(n, s[i].name@) {
        lemma_name_pos(s, n, i + 1);
    } else if i < s.len() {
        assert forall|j: int| i <= j < s.len() implies lex_lt(n, #[trigger] s[j].name@) by {
            if j > i {
                assert(!lex_lt(s[j].name@, s[i].name@));
                lemma_lex_total(s[i].name@, s[j].name@);
                if s[i].name@ != s[j].name@ {
                    lemma_lex_transitive(n, s[i].name@, s[j].name@);
                }
            }
        }
    }
}

proof fn lemma_by_name(s: Seq<DirEntry>)
    ensures
        ordered_by_name(by_name(s)),
        by_name(s).to_multiset() == s.to_multiset(),
        by_name(s).len() == s.len(),
    decreases s.len(),
{
    if s.len() > 0 {
        let r = by_name(s.drop_last());
        lemma_by_name(s.drop_last());
        let x = s.last();
        let p = name_pos(r, x.name@, 0);
        lemma_name_pos(r, x.name@, 0);
        let t = r.insert(p, x);
        assert forall|i: int, j: int| 0 <= i < j < t.len() implies !lex_lt(
            #[trigger] t[j].name@,
            #[trigger] t[i].name@,
        ) by {
            if j < p {
                assert(t[i] == r[i] && t[j] == r[j]);
            } else if j == p {
                assert(t[i] == r[i]);
                assert(!lex_lt(x.name@, r[i].name@));
            } else if i < p {
                assert(t[i] == r[i] && t[j] == r[j - 1]);
            } else if i == p {
                assert(t[j] == r[j - 1]);
                assert(lex_lt(x.name@, r[j - 1].name@));
                lemma_lex_total(x.name@, r[j - 1].name@);
            } else {
                assert(t[i] == r[i - 1] && t[j] == r[j - 1]);
            }
        }
        vstd::seq_lib::to_multiset_insert(r, p, x);
        vstd::seq_lib::to_multiset_insert(s.drop_last(), s.len() - 1, x);
        assert(s =~= s.drop_last().insert(s.len() - 1, x));
    }
}

/// A listing is sorted by name, holds at most 500 entries (the first 500
/// read, each once) and is flagged truncated exactly when more were read;
/// when every entry read is well formed, so is every entry listed.
pub proof fn listing_is_sorted_capped_and_well_formed(raw: Seq<DirEntry>)
    ensures
        ordered_by_name(listing_of(raw).0),
        listing_of(raw).0.to_multiset() == raw.take(
            if raw.len() > LIST_DIR_MAX_ENTRIES {
                LIST_DIR_MAX_ENTRIES as int
            } else {
                raw.len() as int
            },
        ).to_multiset(),
        listing_of(raw).0.len() == if raw.len() > LIST_DIR_MAX_ENTRIES {
            LIST_DIR_MAX_ENTRIES as nat
        } else {
            raw.len()
        },
        listing_of(raw).1 == (raw.len() > LIST_DIR_MAX_ENTRIES),
        (forall|i: int| 0 <= i < raw.len() ==> entry_ok(#[trigger] raw[i])) ==> forall|i: int|
            0 <= i < listing_of(raw).0.len() ==> entry_ok(#[trigger] listing_of(raw).0[i]),
{
    let kept = if raw.len() > LIST_DIR_MAX_ENTRIES {
        raw.take(LIST_DIR_MAX_ENTRIES as int)
    } else {
        raw
    };
    assert(raw.take(raw.len() as int) =~= raw);
    lemma_by_name(kept);
    let l = listing_of(raw).0;
    assert(l == by_name(kept));
    if forall|i: int| 0 <= i < raw.len() ==> entry_ok(#[trigger] raw[i]) {
        assert forall|i: int| 0 <= i < l.len() implies entry_ok(#[trigger] l[i]) by {
            l.to_multiset_ensures();
            kept.to_multiset_ensures();
            assert(l.contains(l[i]));
            assert(kept.to_multiset().count(l[i]) > 0);
            let k = choose|k: int| 0 <= k < kept.len() && kept[k] == l[i];
            assert(kept[k] == raw[k]);
        }
    }
}

/// Finishes a listing from the entries in the order the directory was
/// read: at most 500 of them (the rest dropped and flagged), sorted by
/// name.
pub fn finish_listing(raw: Vec<DirEntry>) -> (r: ListDirOutcome)
    ensures
        r matches ListDirOutcome::Success { entries, truncated } && entries@ == listing_of(raw@).0
            && truncated == listing_of(raw@).1,
{
    let mut raw = raw;
    let truncated = raw.len() > LIST_DIR_MAX_ENTRIES;
    if truncated {
        raw.truncate(LIST_DIR_MAX_ENTRIES);
    }
    let entries = sort_by_name(raw);
    ListDirOutcome::Success { entries, truncated }
}

// ---------------------------------------------------------------------
// Searching a tree
// ---------------------------------------------------------------------

/// A line without a trailing carriage return.
pub open spec fn strip_cr(s: Seq<char>) -> Seq<char> {
    if s.len() > 0 && s.last() == '\r' {
        s.drop_last()
    } else {
        s
    }
}

/// The lines of a text as `str::lines` yields them: split at `\n`, a
/// `\r` before the `\n` removed, no empty line after a final `\n`.
pub open spec fn text_lines(t: Seq<char>) -> Seq<Seq<char>> {
    let p = split_pieces(t, '\n');
    let body = p.drop_last().map_values(|l: Seq<char>| strip_cr(l));
    if p.last().len() == 0 {
        body
    } else {
        body.push(p.last())
    }
}

/// A line matches the needle (the needle is already lower-cased when the
/// search ignores case).
pub open spec fn line_hit(line: Seq<char>, needle: Seq<char>, case_insensitive: bool) -> bool {
    if case_insensitive {
        contains_seq(unicode_lower(line), needle)
    } else {
        contains_seq(line, needle)
    }
}

/// A matched line as reported: cut to 240 characters plus `…`.
pub open spec fn shown_line(line: Seq<char>) -> Seq<char> {
    if line.len() > GREP_MAX_LINE_CHARS {
        line.take(GREP_MAX_LINE_CHARS as int).push('\u{2026}')
    } else {
        line
    }
}

/// A match as plain values: path, line number, shown line.
pub open spec fn match_view(m: GrepMatch) -> (Seq<char>, u32, Seq<char>) {
    (m.path@, m.line_number, m.line@)
}

/// The matches as plain values.
pub open spec fn matches_view(ms: Seq<GrepMatch>) -> Seq<(Seq<char>, u32, Seq<char>)> {
    ms.map_values(|m: GrepMatch| match_view(m))
}

/// Scanning lines `i..` of a file for the needle, appending matches to
/// `acc` until the match cap is reached; also whether the cap was hit.
pub open spec fn scan_lines(
    path: Seq<char>,
    lines: Seq<Seq<char>>,
    needle: Seq<char>,
    case_insensitive: bool,
    acc: Seq<(Seq<char>, u32, Seq<char>)>,
    i: int,
) -> (Seq<(Seq<char>, u32, Seq<char>)>, bool)
    decreases lines.len() - i,
{
    if i < 0 || i >= lines.len() {
        (acc, false)
    } else if line_hit(lines[i], needle, case_insensitive) {
        let acc2 = acc.push((path, ((i + 1) % 0x1_0000_0000) as u32, shown_line(lines[i])));
        if acc2.len() >= GREP_MAX_MATCHES {
            (acc2, true)
        } else {
            scan_lines(path, lines, needle, case_insensitive, acc2, i + 1)
        }
    } else {
        scan_lines(path, lines, needle, case_insensitive, acc, i + 1)
    }
}

/// The file type of a directory entry, when it could be read.
#[derive(Debug, Clone, Copy, PartialEq, Eq, Structural)]
pub struct FileKind {
    pub is_symlink: bool,
    pub is_dir: bool,
    pub is_file: bool,
}

/// What the walk does with a directory entry.
#[derive(Debug, Clone, Copy, PartialEq, Eq, Structural)]
pub enum EntryAction {
    /// A cap was reached: stop reading this directory.
    Stop,
    /// Skipped (denied, a refused symlink, or too large) and counted.
    Skip,
    /// A directory: queued for a later visit.
    Descend,
    /// Neither file nor directory, or its type is unknown: ignored.
    Ignore,
    /// A regular file to read and search.
    Read,
}

/// Checks a search request before touching the file system: configured,
/// a non-empty pattern, an absolute root.
pub fn grep_precheck(cfg: Option<&AgentFsConfig>, root: &str, pattern: &str) -> (r: Result<
    (),
    ReadFileError,
>)
    ensures
        !configured(
            match cfg {
                Some(c) => Some(*c),
                None => None,
            },
        ) ==> r == Err::<(), ReadFileError>(ReadFileError::NotConfigured),
        configured(
            match cfg {
                Some(c) => Some(*c),
                None => None,
            },
        ) && pattern@.len() == 0 ==> (r matches Err(ReadFileError::Io(m)) && m@
            == "grep_files: pattern must not be empty"@),
        configured(
            match cfg {
                Some(c) => Some(*c),
                None => None,
            },
        ) && pattern@.len() > 0 ==> r == if root@.len() > 0 && root@[0] == '/' {
            Ok::<(), ReadFileError>(())
        } else {
            Err(ReadFileError::NotAbsolute)
        },
{
    let c = match cfg {
        Some(c) => c,
        None => return Err(ReadFileError::NotConfigured),
    };
    if c.allow_roots.len() == 0 {
        return Err(ReadFileError::NotConfigured);
    }
    if chars_of(pattern).len() == 0 {
        return Err(ReadFileError::Io(owned("grep_files: pattern must not be empty")));
    }
    let p = chars_of(root);
    if p.len() > 0 && p[0] == '/' {
        Ok(())
    } else {
        Err(ReadFileError::NotAbsolute)
    }
}

/// The state of a search walk between the runtime's directory and file
/// reads: the needle, the matches and counters so
/// far, and the directories still to visit.
pub struct GrepWalk {
    pub needle: String,
    pub case_insensitive: bool,
    pub matches: Vec<GrepMatch>,
    pub files_scanned: usize,
    pub files_skipped: usize,
    pub truncated: bool,
    pub queue: Vec<String>,
    /// The file the last entry step admitted for reading, until its bytes
    /// (or its read error) come in.
    pub pending: Option<String>,
    /// The deny patterns of the configuration the walk was started with.
    pub deny: Ghost<Seq<String>>,
}

/// No deny pattern matches the path (ignoring case).
pub open spec fn not_denied(path: Seq<char>, deny: Seq<String>) -> bool {
    first_denied_from(path, deny, 0) is None
}

impl GrepWalk {
    /// The walk's caps hold (at most 200 matches, at most 5000 files), and
    /// every match, like the file admitted for reading, lies on a path no
    /// deny pattern matches.
    pub open spec fn wf(&self) -> bool {
        &&& self.matches@.len() <= GREP_MAX_MATCHES
        &&& self.files_scanned <= GREP_MAX_FILES
        &&& forall|i: int|
            0 <= i < self.matches@.len() ==> not_denied(#[trigger] self.matches@[i].path@, self.deny@)
        &&& (self.pending matches Some(p) ==> not_denied(p@, self.deny@))
    }

    /// A cap is reached.
    pub open spec fn at_limit(&self) -> bool {
        self.matches@.len() >= GREP_MAX_MATCHES || self.files_scanned >= GREP_MAX_FILES
    }

    /// Starts a walk at the (checked, canonical) root. When the search
    /// ignores case, the needle is the lower-cased pattern.
    pub fn start(cfg: &AgentFsConfig, root: String, pattern: &str, case_insensitive: bool) -> (w: Self)
        ensures
            w.wf(),
            w.deny@ == cfg.deny_patterns@,
            w.pending is None,
            w.needle@ == if case_insensitive {
                unicode_lower(pattern@)
            } else {
                pattern@
            },
            w.case_insensitive == case_insensitive,
            w.matches@.len() == 0,
            w.files_scanned == 0,
            w.files_skipped == 0,
            !w.truncated,
            w.queue@ == seq![root],
    {
        let needle = if case_insensitive {
            to_lowercase(pattern)
        } else {
            owned(pattern)
        };
        GrepWalk {
            needle,
            case_insensitive,
            matches: Vec::new(),
            files_scanned: 0,
            files_skipped: 0,
            truncated: false,
            queue: vec![root],
            pending: None,
            deny: Ghost(cfg.deny_patterns@),
        }
    }

    /// The next directory to read, or `None` when the walk is over: the
    /// queue is empty, or a cap is reached (then the result is marked
    /// truncated and the rest of the queue dropped).
    pub fn next_dir(&mut self) -> (d: Option<String>)
        requires
            old(self).wf(),
        ensures
            final(self).wf(),
            final(self).matches == old(self).matches,
            final(self).files_scanned == old(self).files_scanned,
            final(self).files_skipped == old(self).files_skipped,
            final(self).needle == old(self).needle,
            final(self).case_insensitive == old(self).case_insensitive,
            final(self).pending == old(self).pending,
            final(self).deny == old(self).deny,
            old(self).queue@.len() == 0 ==> d is None && final(self).truncated == old(self).truncated,
            old(self).queue@.len() > 0 && old(self).at_limit() ==> d is None && final(self).truncated
                && final(self).queue@.len() == 0,
            old(self).queue@.len() > 0 && !old(self).at_limit() ==> d == Some(old(self).queue@.last())
                && final(self).queue@ == old(self).queue@.drop_last() && final(self).truncated
                == old(self).truncated,
    {
        match self.queue.pop() {
            None => None,
            Some(dir) => {
                if self.matches.len() >= GREP_MAX_MATCHES || self.files_scanned >= GREP_MAX_FILES {
                    self.truncated = true;
                    self.queue = Vec::new();
                    None
                } else {
                    Some(dir)
                }
            },
        }
    }

    /// Decides what to do with one directory entry (its path, its file
    /// type if it could be read, and its size, 0 when unknown), in this
    /// order: stop at a cap; skip a denied path; ignore an unknown type;
    /// skip a symlink unless symlinks are followed; queue a directory;
    /// ignore what is not a regular file; skip a file over 1 MiB; else
    /// read it.
    pub fn on_entry(&mut self, cfg: &AgentFsConfig, path: String, kind: Option<FileKind>, size: usize) -> (a:
        EntryAction)
        requires
            old(self).wf(),
            cfg.deny_patterns@ == old(self).deny@,
        ensures
            final(self).wf(),
            final(self).deny == old(self).deny,
            final(self).pending == if a == EntryAction::Read {
                Some(path)
            } else {
                None::<String>
            },
            final(self).matches == old(self).matches,
            final(self).files_scanned == old(self).files_scanned,
            final(self).needle == old(self).needle,
            final(self).case_insensitive == old(self).case_insensitive,
            a == if old(self).at_limit() {
                EntryAction::Stop
            } else if first_denied_from(path@, cfg.deny_patterns@, 0) is Some {
                EntryAction::Skip
            } else if kind is None {
                EntryAction::Ignore
            } else if kind->0.is_symlink && !cfg.follow_symlinks {
                EntryAction::Skip
            } else if kind->0.is_dir {
                EntryAction::Descend
            } else if !kind->0.is_file {
                EntryAction::Ignore
            } else if size > GREP_MAX_FILE_BYTES {
                EntryAction::Skip
            } else {
                EntryAction::Read
            },
            final(self).truncated == (old(self).truncated || a == EntryAction::Stop),
            final(self).files_skipped == if a == EntryAction::Skip {
                crate::text::sat_inc(old(self).files_skipped)
            } else {
                old(self).files_skipped
            },
            final(self).queue@ == if a == EntryAction::Descend {
                old(self).queue@.push(path)
            } else {
                old(self).queue@
            },
    {
        self.pending = None;
        if self.matches.len() >= GREP_MAX_MATCHES || self.files_scanned >= GREP_MAX_FILES {
            self.truncated = true;
            return EntryAction::Stop;
        }
        if first_denied(path.as_str(), &cfg.deny_patterns).is_some() {
            self.files_skipped = self.files_skipped.saturating_add(1);
            return EntryAction::Skip;
        }
        let k = match kind {
            Some(k) => k,
            None => return EntryAction::Ignore,
        };
        if k.is_symlink && !cfg.follow_symlinks {
            self.files_skipped = self.files_skipped.saturating_add(1);
            return EntryAction::Skip;
        }
        if k.is_dir {
            self.queue.push(path);
            return EntryAction::Descend;
        }
        if !k.is_file {
            return EntryAction::Ignore;
        }
        if size > GREP_MAX_FILE_BYTES {
            self.files_skipped = self.files_skipped.saturating_add(1);
            return EntryAction::Skip;
        }
        self.pending = Some(path);
        EntryAction::Read
    }

    /// A file chosen for reading could not be read: it counts as skipped.
    pub fn on_read_error(&mut self)
        requires
            old(self).wf(),
        ensures
            final(self).wf(),
            final(self).pending is None,
            final(self).deny == old(self).deny,
            final(self).files_skipped == crate::text::sat_inc(old(self).files_skipped),
            final(self).matches == old(self).matches,
            final(self).files_scanned == old(self).files_scanned,
            final(self).truncated == old(self).truncated,
            final(self).queue == old(self).queue,
            final(self).needle == old(self).needle,
            final(self).case_insensitive == old(self).case_insensitive,
    {
        self.pending = None;
        self.files_skipped = self.files_skipped.saturating_add(1);
    }

    /// Searches one file's bytes: not UTF-8 counts as skipped; otherwise
    /// the file counts as scanned and its matching lines are appended, in
    /// order, until the match cap is reached (which marks the result
    /// truncated).
    pub fn on_file_bytes(&mut self, path: &str, bytes: Vec<u8>)
        requires
            old(self).wf(),
            !old(self).at_limit(),
            old(self).pending matches Some(p) && p@ == path@,
        ensures
            final(self).wf(),
            final(self).pending is None,
            final(self).deny == old(self).deny,
            final(self).queue == old(self).queue,
            final(self).needle == old(self).needle,
            final(self).case_insensitive == old(self).case_insensitive,
            match utf8_decode(bytes@) {
                None => {
                    &&& final(self).files_skipped == crate::text::sat_inc(old(self).files_skipped)
                    &&& final(self).files_scanned == old(self).files_scanned
                    &&& final(self).matches == old(self).matches
                    &&& final(self).truncated == old(self).truncated
                },
                Some(t) => {
                    let (ms, capped) = scan_lines(
                        path@,
                        text_lines(t),
                        old(self).needle@,
                        old(self).case_insensitive,
                        matches_view(old(self).matches@),
                        0,
                    );
                    &&& final(self).files_skipped == old(self).files_skipped
                    &&& final(self).files_scanned == old(self).files_scanned + 1
                    &&& matches_view(final(self).matches@) == ms
                    &&& final(self).truncated == (old(self).truncated || capped)
                },
            },
    {
        proof {
            assert(not_denied(path@, self.deny@));
        }
        self.pending = None;
        let text = match decode_utf8(bytes) {
            Some(t) => t,
            None => {
                self.files_skipped = self.files_skipped.saturating_add(1);
                return;
            },
        };
        self.files_scanned = self.files_scanned + 1;
        let lines = lines_of(text.as_str());
        let ghost lv = text_lines(text@);
        let ghost acc0 = matches_view(self.matches@);
        let needle = chars_of(self.needle.as_str());
        let mut k: usize = 0;
        let mut stop = false;
        while k < lines.len() && !stop
            invariant
                crate::text::string_views(lines@) == lv,
                k <= lines@.len(),
                needle@ == self.needle@,
                self.matches@.len() <= GREP_MAX_MATCHES,
                !stop ==> self.matches@.len() < GREP_MAX_MATCHES,
                self.pending is None,
                self.deny == old(self).deny,
                not_denied(path@, self.deny@),
                forall|i: int|
                    0 <= i < self.matches@.len() ==> not_denied(
                        #[trigger] self.matches@[i].path@,
                        self.deny@,
                    ),
                !stop ==> scan_lines(path@, lv, self.needle@, self.case_insensitive, acc0, 0)
                    == scan_lines(
                    path@,
                    lv,
                    self.needle@,
                    self.case_insensitive,
                    matches_view(self.matches@),
                    k as int,
                ),
                stop ==> scan_lines(path@, lv, self.needle@, self.case_insensitive, acc0, 0) == (
                    matches_view(self.matches@),
                    true,
                ),
                stop ==> self.truncated,
                !stop ==> self.truncated == old(self).truncated,
                self.files_scanned == old(self).files_scanned + 1,
                self.files_skipped == old(self).files_skipped,
                self.queue == old(self).queue,
                self.needle == old(self).needle,
                self.case_insensitive == old(self).case_insensitive,
                old(self).files_scanned < GREP_MAX_FILES,
            decreases lines@.len() - k,
        {
            let line = lines[k].as_str();
            assert(line@ == lv[k as int]);
            let hit = if self.case_insensitive {
                contains_chars(chars_of(to_lowercase(line).as_str()).as_slice(), needle.as_slice())
            } else {
                contains_chars(chars_of(line).as_slice(), needle.as_slice())
            };
            if hit {
                let ghost before = matches_view(self.matches@);
                let number = ((k as u64 + 1) % 0x1_0000_0000) as u32;
                let m = GrepMatch { path: owned(path), line_number: number, line: shown(line) };
                self.matches.push(m);
                assert(matches_view(self.matches@) =~= before.push(
                    (path@, ((k + 1) % 0x1_0000_0000) as u32, shown_line(lv[k as int])),
                ));
                if self.matches.len() >= GREP_MAX_MATCHES {
                    self.truncated = true;
                    stop = true;
                }
            }
            k += 1;
        }
    }

    /// The walk's result: within the caps, and no match on a path a deny
    /// pattern matches.
    pub fn finish(self) -> (r: GrepOutcome)
        requires
            self.wf(),
        ensures
            r matches GrepOutcome::Success { matches, files_scanned, files_skipped, truncated }
                && matches == self.matches && files_scanned == self.files_scanned && files_skipped
                == self.files_skipped && truncated == self.truncated,
            r matches GrepOutcome::Success { matches, files_scanned, .. } && matches@.len()
                <= GREP_MAX_MATCHES && files_scanned <= GREP_MAX_FILES && forall|i: int|
                0 <= i < matches@.len() ==> not_denied(#[trigger] matches@[i].path@, self.deny@),
    {
        GrepOutcome::Success {
            matches: self.matches,
            files_scanned: self.files_scanned,
            files_skipped: self.files_skipped,
            truncated: self.truncated,
        }
    }
}

/// A matched line as reported.
fn shown(line: &str) -> (s: String)
    ensures
        s@ == shown_line(line@),
{
    let v = chars_of(line);
    if v.len() > GREP_MAX_LINE_CHARS {
        let mut s = string_of_range(v.as_slice(), 0, GREP_MAX_LINE_CHARS);
        push_char(&mut s, '\u{2026}');
        assert(v@.subrange(0, 240) =~= v@.take(240));
        s
    } else {
        owned(line)
    }
}

/// The lines of a text (`str::lines`).
pub fn lines_of(text: &str) -> (r: Vec<String>)
    ensures
        crate::text::string_views(r@) == text_lines(text@),
{
    let chars = chars_of(text);
    let pieces = split_chars(chars.as_slice(), '\n');
    proof {
        crate::text::lemma_split_pieces_nonempty(chars@, '\n');
    }
    let ghost pv = split_pieces(text@, '\n');
    let n = pieces.len();
    let mut out: Vec<String> = Vec::new();
    let mut i: usize = 0;
    while i + 1 < n
        invariant
            n == pieces@.len(),
            n >= 1,
            char_views(pieces@) == pv,
            i + 1 <= n,
            crate::text::string_views(out@) == pv.take(i as int).map_values(
                |l: Seq<char>| strip_cr(l),
            ),
        decreases n - i,
    {
        let p = &pieces[i];
        assert(p@ == pv[i as int]);
        let end = if p.len() > 0 && p[p.len() - 1] == '\r' {
            p.len() - 1
        } else {
            p.len()
        };
        let s = string_of_range(p.as_slice(), 0, end);
        assert(s@ =~= strip_cr(pv[i as int]));
        let ghost before = crate::text::string_views(out@);
        out.push(s);
        assert(crate::text::string_views(out@) =~= before.push(strip_cr(pv[i as int])));
        assert(pv.take(i + 1).map_values(|l: Seq<char>| strip_cr(l)) =~= pv.take(
            i as int,
        ).map_values(|l: Seq<char>| strip_cr(l)).push(strip_cr(pv[i as int])));
        i += 1;
    }
    assert(pv.take(i as int) =~= pv.drop_last());
    let last = &pieces[n - 1];
    assert(last@ == pv.last());
    if last.len() > 0 {
        let ghost before = crate::text::string_views(out@);
        out.push(string_of_range(last.as_slice(), 0, last.len()));
        assert(last@.subrange(0, last@.len() as int) =~= last@);
        assert(crate::text::string_views(out@) =~= before.push(pv.last()));
    }
    out
}

} // verus!
