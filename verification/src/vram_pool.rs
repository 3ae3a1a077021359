//! VRAM-pooling capability detection.
//!
//! A machine can take part in VRAM-pooling when its llama.cpp build was
//! compiled with RPC support: as layer host with the `rpc-server` binary,
//! as orchestrator with a `--rpc` flag on `llama-server`. Binaries are
//! looked up under the RPC-enabled tap's prefixes before `PATH`. The
//! runtime looks the binaries up and runs `llama-server --help`; this
//! module decides from what it found and words the install hint after
//! the actual gap.

use vstd::prelude::*;
use crate::paths::{join_path, joined_path};
use crate::text::{chars_of, contains_seq, contains_str, owned, starts_with, starts_with_str};

verus! {

/// Homebrew opt-prefixes of the keg-only RPC-enabled llama.cpp build.
pub open spec fn tap_bin_paths() -> Seq<Seq<char>> {
    seq!["/opt/homebrew/opt/llama-cpp-rpc/bin"@, "/usr/local/opt/llama-cpp-rpc/bin"@]
}

/// The Homebrew opt-prefixes, in lookup order.
pub fn tap_prefixes() -> (v: Vec<&'static str>)
    ensures
        v@.len() == 2,
        v@[0]@ == tap_bin_paths()[0],
        v@[1]@ == tap_bin_paths()[1],
{
    vec!["/opt/homebrew/opt/llama-cpp-rpc/bin", "/usr/local/opt/llama-cpp-rpc/bin"]
}

/// Where a binary would sit under each tap prefix, in lookup order.
pub fn tap_candidates(name: &str) -> (v: Vec<String>)
    ensures
        v@.len() == 2,
        v@[0]@ == joined_path(tap_bin_paths()[0], name@),
        v@[1]@ == joined_path(tap_bin_paths()[1], name@),
{
    let p = tap_prefixes();
    vec![join_path(p[0], name), join_path(p[1], name)]
}

/// The index of the first candidate that exists, from `i` on.
pub open spec fn first_existing(exists: Seq<bool>, i: int) -> Option<int>
    decreases exists.len() - i,
{
    if i < 0 || i >= exists.len() {
        None
    } else if exists[i] {
        Some(i)
    } else {
        first_existing(exists, i + 1)
    }
}

/// Resolves a binary: the first tap candidate that exists as a file,
/// else what the `PATH` lookup found.
pub fn resolve_with_tap_priority(candidates: Vec<String>, is_file: Vec<bool>, on_path: Option<String>) -> (r:
    Option<String>)
    requires
        candidates@.len() == is_file@.len(),
    ensures
        match first_existing(is_file@, 0) {
            Some(i) => r == Some(candidates@[i]),
            None => r == on_path,
        },
{
    let mut i: usize = 0;
    while i < is_file.len()
        invariant
            i <= is_file@.len(),
            candidates@.len() == is_file@.len(),
            first_existing(is_file@, 0) == first_existing(is_file@, i as int),
        decreases is_file@.len() - i,
    {
        if is_file[i] {
            return Some(candidates[i].clone());
        }
        i += 1;
    }
    on_path
}

/// A readiness snapshot of the local machine for VRAM-pooling.
#[derive(Clone, Debug)]
pub struct RpcCapability {
    /// `rpc-server` was found (needed to host layers).
    pub has_rpc_server_bin: bool,
    /// `llama-server` offers `--rpc` (needed to orchestrate).
    pub llama_server_has_rpc_flag: bool,
    /// Where `rpc-server` was found.
    pub rpc_server_path: Option<String>,
    /// Where `llama-server` was found.
    pub llama_server_path: Option<String>,
}

impl Default for RpcCapability {
    fn default() -> (c: Self)
        ensures
            !c.has_rpc_server_bin,
            !c.llama_server_has_rpc_flag,
            c.rpc_server_path is None,
            c.llama_server_path is None,
    {
        RpcCapability {
            has_rpc_server_bin: false,
            llama_server_has_rpc_flag: false,
            rpc_server_path: None,
            llama_server_path: None,
        }
    }
}

/// The hint when the machine is ready.
pub const HINT_READY: &'static str = "VRAM-pooling capability detected. \
                    This machine can act as both orchestrator and \
                    layer host.";

/// The hint when `llama-server` is missing.
pub const HINT_NO_LLAMA_SERVER: &'static str = "llama-server not found on PATH. \
                    Install llama.cpp via your package manager \u{2014} \
                    Homebrew: `brew install llama.cpp` (then see \
                    below about RPC support).";

/// The hint when llama.cpp lacks RPC support.
pub const HINT_NO_RPC: &'static str = "llama.cpp is installed but was NOT built with \
                    -DGGML_RPC=ON, which VRAM-pooling requires. \
                    Homebrew's default formula omits this flag. \
                    Install the RPC-enabled build from our tap:\n\
                    \n  brew tap unhosted-ai/unhosted\
                    \n  brew install unhosted-ai/unhosted/llama-cpp-rpc\n\
                    \nThen re-run this command.";

/// The hint for a combination the checks above do not cover.
pub const HINT_INCOMPLETE: &'static str = "VRAM-pooling capability is incomplete; \
         see design/0009-vram-pooling.md for the current state.";

impl RpcCapability {
    /// The machine can take part in VRAM-pooling at all: as layer host
    /// (the `rpc-server` binary is present) or as orchestrator
    /// (`llama-server` offers `--rpc`).
    pub open spec fn is_ready(&self) -> bool {
        self.has_rpc_server_bin || self.llama_server_has_rpc_flag
    }

    /// The hint for the gap this snapshot shows.
    pub open spec fn hint_text(&self) -> Seq<char> {
        if self.is_ready() {
            HINT_READY@
        } else if self.llama_server_path is None {
            HINT_NO_LLAMA_SERVER@
        } else {
            HINT_NO_RPC@
        }
    }

    /// Whether this machine can take part in VRAM-pooling at all, as
    /// orchestrator or as layer host.
    pub fn ready(&self) -> (r: bool)
        ensures
            r == self.is_ready(),
    {
        self.has_rpc_server_bin || self.llama_server_has_rpc_flag
    }

    /// A human-readable install hint pinned to the gap detected.
    pub fn install_hint(&self) -> (s: String)
        ensures
            s@ == self.hint_text(),
    {
        if self.ready() {
            return owned(HINT_READY);
        }
        if self.llama_server_path.is_none() {
            return owned(HINT_NO_LLAMA_SERVER);
        }
        if !self.has_rpc_server_bin || !self.llama_server_has_rpc_flag {
            return owned(HINT_NO_RPC);
        }
        owned(HINT_INCOMPLETE)
    }
}

/// A path lies under one of the Homebrew opt-prefixes.
pub open spec fn under_tap(path: Seq<char>) -> bool {
    starts_with(path, tap_bin_paths()[0]) || starts_with(path, tap_bin_paths()[1])
}

/// Whether a resolved binary comes from the RPC-enabled tap install,
/// whose `--rpc` support is trusted by construction.
pub fn is_tap_install(path: &str) -> (r: bool)
    ensures
        r == under_tap(path@),
{
    let p = chars_of(path);
    starts_with_str(p.as_slice(), "/opt/homebrew/opt/llama-cpp-rpc/bin")
        || starts_with_str(p.as_slice(), "/usr/local/opt/llama-cpp-rpc/bin")
}

/// Whether `llama-server --help` output documents the `--rpc` flag.
pub fn help_mentions_rpc(help_text: &str) -> (r: bool)
    ensures
        r == contains_seq(help_text@, "--rpc"@),
{
    contains_str(chars_of(help_text).as_slice(), "--rpc")
}

/// Whether the `llama-server` found offers `--rpc`: a tap install does by
/// construction, any other build when its help text says so.
pub open spec fn has_rpc_flag(llama_server_path: Option<Seq<char>>, help_text: Option<Seq<char>>) -> bool {
    match llama_server_path {
        Some(p) => under_tap(p) || match help_text {
            Some(h) => contains_seq(h, "--rpc"@),
            None => false,
        },
        None => false,
    }
}

/// The snapshot from what the lookups found: the resolved paths (if any)
/// and `llama-server --help`'s combined output (`None` when it could not
/// be run).
pub fn capability_from(
    llama_server_path: Option<String>,
    rpc_server_path: Option<String>,
    llama_help: Option<&str>,
) -> (c: RpcCapability)
    ensures
        c.has_rpc_server_bin == rpc_server_path is Some,
        c.llama_server_has_rpc_flag == has_rpc_flag(
            match llama_server_path {
                Some(p) => Some(p@),
                None => None,
            },
            match llama_help {
                Some(h) => Some(h@),
                None => None,
            },
        ),
        c.rpc_server_path == rpc_server_path,
        c.llama_server_path == llama_server_path,
{
    let flag = match &llama_server_path {
        Some(p) => is_tap_install(p.as_str()) || match llama_help {
            Some(h) => help_mentions_rpc(h),
            None => false,
        },
        None => false,
    };
    RpcCapability {
        has_rpc_server_bin: rpc_server_path.is_some(),
        llama_server_has_rpc_flag: flag,
        rpc_server_path,
        llama_server_path,
    }
}

/// The hint never says "ready" unless the machine can take one of the
/// two roles, and never claims `llama-server` is missing when it was found.
pub proof fn hint_matches_the_gap(c: RpcCapability)
    ensures
        (c.hint_text() == HINT_READY@) ==> c.is_ready(),
        c.llama_server_path is Some ==> c.hint_text() != HINT_NO_LLAMA_SERVER@,
{
    reveal_strlit(
        "VRAM-pooling capability detected. \
                    This machine can act as both orchestrator and \
                    layer host.",
    );
    reveal_strlit(
        "llama-server not found on PATH. \
                    Install llama.cpp via your package manager \u{2014} \
                    Homebrew: `brew install llama.cpp` (then see \
                    below about RPC support).",
    );
    reveal_strlit(
        "llama.cpp is installed but was NOT built with \
                    -DGGML_RPC=ON, which VRAM-pooling requires. \
                    Homebrew's default formula omits this flag. \
                    Install the RPC-enabled build from our tap:\n\
                    \n  brew tap unhosted-ai/unhosted\
                    \n  brew install unhosted-ai/unhosted/llama-cpp-rpc\n\
                    \nThen re-run this command.",
    );
    assert(HINT_READY@[0] != HINT_NO_RPC@[0]);
    assert(HINT_NO_LLAMA_SERVER@[5] != HINT_NO_RPC@[5]);
}

} // verus!
