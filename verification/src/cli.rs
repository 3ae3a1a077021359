//! Decisions of the `unhosted` command line that do not touch the
//! network: which interpreter and scripts the distillation commands run,
//! and where pulled models go.

use vstd::prelude::*;
use crate::paths::{join_path, joined_path};
use crate::text::{chars_of, owned, starts_with, starts_with_str, str_eq};

verus! {

/// The interpreter the distillation scripts run with: `UNHOSTED_PYTHON`,
/// then `PYTHON` (each when set and not empty), else `python3`.
pub fn python_executable(unhosted_python: Option<String>, python: Option<String>) -> (r: String)
    ensures
        r@ == match unhosted_python {
            Some(v) if v@.len() > 0 => v@,
            _ => match python {
                Some(v) if v@.len() > 0 => v@,
                _ => "python3"@,
            },
        },
{
    if let Some(v) = unhosted_python {
        if chars_of(v.as_str()).len() > 0 {
            return v;
        }
    }
    if let Some(v) = python {
        if chars_of(v.as_str()).len() > 0 {
            return v;
        }
    }
    owned("python3")
}

/// The distillation pipeline's steps.
#[derive(Debug, Clone, Copy, PartialEq, Eq, Structural)]
pub enum DistillStep {
    Data,
    Train,
    Eval,
    Push,
    Run,
}

/// The script each step runs.
pub fn distill_script(step: DistillStep) -> (s: &'static str)
    ensures
        s@ == match step {
            DistillStep::Data => "gen_data.py"@,
            DistillStep::Train => "train.py"@,
            DistillStep::Eval => "eval.py"@,
            DistillStep::Push => "push_to_hub.py"@,
            DistillStep::Run => "pipeline.py"@,
        },
{
    match step {
        DistillStep::Data => "gen_data.py",
        DistillStep::Train => "train.py",
        DistillStep::Eval => "eval.py",
        DistillStep::Push => "push_to_hub.py",
        DistillStep::Run => "pipeline.py",
    }
}

/// Where a distillation script is looked for, in order: under
/// `UNHOSTED_DISTILL_DIR` when set, under `models/distill` in the working
/// directory, and under `../share/unhosted/distill` next to the
/// executable when its directory is known.
pub open spec fn distill_candidates(override_dir: Option<Seq<char>>, exe_dir: Option<Seq<char>>, name: Seq<char>) -> Seq<Seq<char>> {
    let first = match override_dir {
        Some(d) => seq![joined_path(d, name)],
        None => Seq::empty(),
    };
    let last = match exe_dir {
        Some(d) => seq![joined_path(joined_path(d, "../share/unhosted/distill"@), name)],
        None => Seq::empty(),
    };
    first + seq![joined_path("models/distill"@, name)] + last
}

/// The view of an optional text.
pub open spec fn opt_seq(o: Option<String>) -> Option<Seq<char>> {
    match o {
        Some(s) => Some(s@),
        None => None,
    }
}

/// The paths to try for a distillation script.
pub fn distill_script_candidates(override_dir: Option<String>, exe_dir: Option<String>, name: &str) -> (v: Vec<String>)
    ensures
        crate::text::string_views(v@) == distill_candidates(opt_seq(override_dir), opt_seq(exe_dir), name@),
{
    let ghost od = opt_seq(override_dir);
    let ghost ed = opt_seq(exe_dir);
    let mut v: Vec<String> = Vec::new();
    if let Some(d) = &override_dir {
        v.push(join_path(d.as_str(), name));
    }
    let ghost first = crate::text::string_views(v@);
    v.push(join_path("models/distill", name));
    let ghost second = crate::text::string_views(v@);
    if let Some(d) = &exe_dir {
        let share = join_path(d.as_str(), "../share/unhosted/distill");
        v.push(join_path(share.as_str(), name));
    }
    assert(crate::text::string_views(v@) =~= distill_candidates(od, ed, name@));
    v
}

/// Where `unhosted pull` keeps models: `$HOME/.cache/unhosted/models`.
pub fn model_cache_dir(home: Option<String>) -> (r: Option<String>)
    ensures
        match home {
            Some(h) => r matches Some(p) && p@ == joined_path(
                joined_path(joined_path(h@, ".cache"@), "unhosted"@),
                "models"@,
            ),
            None => r is None,
        },
{
    match home {
        Some(h) => {
            let a = join_path(h.as_str(), ".cache");
            let b = join_path(a.as_str(), "unhosted");
            Some(join_path(b.as_str(), "models"))
        },
        None => None,
    }
}

/// The models `unhosted pull` knows by name: name, download URL and
/// approximate size in bytes.
pub open spec fn pull_table() -> Seq<(Seq<char>, Seq<char>, u64)> {
    seq![
        ("llama3.2:1b"@, "https://huggingface.co/bartowski/Llama-3.2-1B-Instruct-GGUF/resolve/main/Llama-3.2-1B-Instruct-Q4_K_M.gguf"@, 770_000_000u64),
        ("llama3.2:3b"@, "https://huggingface.co/bartowski/Llama-3.2-3B-Instruct-GGUF/resolve/main/Llama-3.2-3B-Instruct-Q4_K_M.gguf"@, 2_020_000_000u64),
        ("llama3.1:8b"@, "https://huggingface.co/bartowski/Meta-Llama-3.1-8B-Instruct-GGUF/resolve/main/Meta-Llama-3.1-8B-Instruct-Q4_K_M.gguf"@, 4_920_000_000u64),
        ("qwen2.5:0.5b"@, "https://huggingface.co/bartowski/Qwen2.5-0.5B-Instruct-GGUF/resolve/main/Qwen2.5-0.5B-Instruct-Q4_K_M.gguf"@, 400_000_000u64),
        ("qwen2.5-coder:7b"@, "https://huggingface.co/bartowski/Qwen2.5-Coder-7B-Instruct-GGUF/resolve/main/Qwen2.5-Coder-7B-Instruct-Q4_K_M.gguf"@, 4_700_000_000u64),
    ]
}

/// One model `unhosted pull` knows by name.
#[derive(Debug, Clone, Copy)]
pub struct PullModel {
    pub name: &'static str,
    pub url: &'static str,
    pub size: u64,
}

/// The models `unhosted pull` knows by name, in the listing order.
pub fn pull_models() -> (v: Vec<PullModel>)
    ensures
        v@.len() == 5,
        forall|i: int| 0 <= i < 5 ==> (#[trigger] v@[i]).name@ == pull_table()[i].0 && v@[i].url@
            == pull_table()[i].1 && v@[i].size == pull_table()[i].2,
{
    vec![
        PullModel { name: "llama3.2:1b", url: "https://huggingface.co/bartowski/Llama-3.2-1B-Instruct-GGUF/resolve/main/Llama-3.2-1B-Instruct-Q4_K_M.gguf", size: 770_000_000 },
        PullModel { name: "llama3.2:3b", url: "https://huggingface.co/bartowski/Llama-3.2-3B-Instruct-GGUF/resolve/main/Llama-3.2-3B-Instruct-Q4_K_M.gguf", size: 2_020_000_000 },
        PullModel { name: "llama3.1:8b", url: "https://huggingface.co/bartowski/Meta-Llama-3.1-8B-Instruct-GGUF/resolve/main/Meta-Llama-3.1-8B-Instruct-Q4_K_M.gguf", size: 4_920_000_000 },
        PullModel { name: "qwen2.5:0.5b", url: "https://huggingface.co/bartowski/Qwen2.5-0.5B-Instruct-GGUF/resolve/main/Qwen2.5-0.5B-Instruct-Q4_K_M.gguf", size: 400_000_000 },
        PullModel { name: "qwen2.5-coder:7b", url: "https://huggingface.co/bartowski/Qwen2.5-Coder-7B-Instruct-GGUF/resolve/main/Qwen2.5-Coder-7B-Instruct-Q4_K_M.gguf", size: 4_700_000_000 },
    ]
}

/// What `unhosted pull <spec>` fetches: a URL as given (size unknown), or
/// a known model by name; `None` for an unknown name.
pub open spec fn pull_source(spec: Seq<char>) -> Option<(Seq<char>, u64)> {
    if starts_with(spec, "http://"@) || starts_with(spec, "https://"@) {
        Some((spec, 0))
    } else {
        match pull_index(spec, 0) {
            Some(i) => Some((pull_table()[i].1, pull_table()[i].2)),
            None => None,
        }
    }
}

/// The first known model at or after `k` with the given name.
pub open spec fn pull_index(spec: Seq<char>, k: int) -> Option<int>
    decreases 5 - k,
{
    if k < 0 || k >= 5 {
        None
    } else if pull_table()[k].0 == spec {
        Some(k)
    } else {
        pull_index(spec, k + 1)
    }
}

/// Resolves what to download for `unhosted pull`.
pub fn resolve_pull(spec: &str) -> (r: Option<(String, u64)>)
    ensures
        match pull_source(spec@) {
            Some((u, n)) => r matches Some((url, size)) && url@ == u && size == n,
            None => r is None,
        },
{
    proof {
        reveal_strlit("http://");
        reveal_strlit("https://");
    }
    let v = chars_of(spec);
    if starts_with_str(v.as_slice(), "http://") || starts_with_str(v.as_slice(), "https://") {
        return Some((owned(spec), 0));
    }
    let table = pull_models();
    let mut i: usize = 0;
    while i < table.len()
        invariant
            i <= 5,
            table@.len() == 5,
            forall|k: int| 0 <= k < 5 ==> (#[trigger] table@[k]).name@ == pull_table()[k].0 && table@[k].url@
                == pull_table()[k].1 && table@[k].size == pull_table()[k].2,
            pull_index(spec@, 0) == pull_index(spec@, i as int),
            !starts_with(spec@, "http://"@) && !starts_with(spec@, "https://"@),
        decreases 5 - i,
    {
        if str_eq(table[i].name, spec) {
            return Some((owned(table[i].url), table[i].size));
        }
        i += 1;
    }
    None
}

/// The file a download URL names: its text after the last `/`, when
/// not empty.
pub open spec fn url_file_name(url: Seq<char>) -> Option<Seq<char>> {
    let cut = match crate::text::last_occurrence_before(url, seq!['/'], url.len() as int) {
        Some(i) => url.skip(i + 1),
        None => url,
    };
    if cut.len() > 0 {
        Some(cut)
    } else {
        None
    }
}

/// Derives the cache file name from a download URL.
pub fn file_name_from_url(url: &str) -> (r: Option<String>)
    ensures
        match url_file_name(url@) {
            Some(f) => r matches Some(s) && s@ == f,
            None => r is None,
        },
{
    let v = chars_of(url);
    let slash = vec!['/'];
    assert(slash@ =~= seq!['/']);
    let n = v.len();
    let cut: Vec<char> = match crate::text::rfind_before(v.as_slice(), slash.as_slice(), n) {
        Some(i) => {
            let c = chars_of(crate::text::string_of_range(v.as_slice(), i + 1, n).as_str());
            assert(v@.subrange(i + 1, n as int) =~= v@.skip(i + 1));
            c
        },
        None => v,
    };
    if cut.len() > 0 {
        Some(crate::text::string_from_chars(cut.as_slice()))
    } else {
        None
    }
}

/// How many bytes arrive between two progress lines: a hundredth of the
/// total, at least a megabyte.
pub fn progress_step(total: u64) -> (s: u64)
    ensures
        s == if total / 100 >= 1_000_000 {
            total / 100
        } else {
            1_000_000
        },
{
    let p = total / 100;
    if p >= 1_000_000 {
        p
    } else {
        1_000_000
    }
}

/// The percentage done, when it can be computed (a known total, no
/// overflow).
pub fn progress_percent(done: u64, total: u64) -> (r: Option<u64>)
    ensures
        r == if total > 0 && done * 100 <= u64::MAX {
            Some(((done * 100) / (total as int)) as u64)
        } else {
            None::<u64>
        },
{
    match done.checked_mul(100) {
        Some(x) => if total > 0 {
            Some(x / total)
        } else {
            None
        },
        None => None,
    }
}

} // verus!
