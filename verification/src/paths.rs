//! Configuration paths.
//!
//! The runtime reads the relevant environment variables once and hands
//! them over as an [`EnvVars`]; this module resolves the home directory
//! and `~/.config/unhosted/<file>` from them.
//!
//! Precedence for the configuration directory: `XDG_CONFIG_HOME` when set,
//! else `<home>/.config`. Precedence for the home directory: `HOME`, then
//! `USERPROFILE`, then `HOMEDRIVE` followed by `HOMEPATH` (each only when
//! non-empty). Paths are joined with `/`, as `Path::join` does on Unix.

use vstd::prelude::*;
use crate::text::{chars_of, owned, push_str};

verus! {

/// The environment variables the path resolution reads (`None` when a
/// variable is unset).
#[derive(Debug, Clone)]
pub struct EnvVars {
    pub xdg_config_home: Option<String>,
    pub home: Option<String>,
    pub userprofile: Option<String>,
    pub homedrive: Option<String>,
    pub homepath: Option<String>,
}

/// No home directory could be determined.
#[derive(Debug, Clone, Copy, PartialEq, Eq, Structural)]
pub enum HomeError {
    NoHome,
}

impl HomeError {
    /// The message shown to the user.
    pub fn message(self) -> (s: &'static str)
        ensures
            s@ == "could not determine the user home directory \u{2014} tried HOME, USERPROFILE, HOMEDRIVE+HOMEPATH"@,
    {
        "could not determine the user home directory \u{2014} tried HOME, USERPROFILE, HOMEDRIVE+HOMEPATH"
    }
}

/// A variable that is set and non-empty.
pub open spec fn present(v: Option<String>) -> bool {
    v is Some && v->0@.len() > 0
}

/// The home directory the variables give, if any.
pub open spec fn home_of(env: EnvVars) -> Option<Seq<char>> {
    if present(env.home) {
        Some(env.home->0@)
    } else if present(env.userprofile) {
        Some(env.userprofile->0@)
    } else if present(env.homedrive) && present(env.homepath) {
        Some(env.homedrive->0@ + env.homepath->0@)
    } else {
        None
    }
}

/// `name` joined under `base` with one separator (`Path::join` for a
/// relative `name` on Unix).
pub open spec fn joined_path(base: Seq<char>, name: Seq<char>) -> Seq<char> {
    if base.len() == 0 || base.last() == '/' {
        base + name
    } else {
        base + "/"@ + name
    }
}

/// Joins a relative path under a base directory.
pub fn join_path(base: &str, name: &str) -> (s: String)
    ensures
        s@ == joined_path(base@, name@),
{
    let b = chars_of(base);
    let mut s = owned(base);
    if b.len() > 0 && b[b.len() - 1] != '/' {
        push_str(&mut s, "/");
    }
    push_str(&mut s, name);
    s
}

fn nonempty(v: &Option<String>) -> (r: bool)
    ensures
        r == present(*v),
{
    match v {
        Some(s) => chars_of(s.as_str()).len() > 0,
        None => false,
    }
}

/// The user's home directory from the environment.
pub fn home_dir(env: &EnvVars) -> (r: Result<String, HomeError>)
    ensures
        match home_of(*env) {
            Some(h) => r matches Ok(s) && s@ == h,
            None => r == Err::<String, HomeError>(HomeError::NoHome),
        },
{
    if nonempty(&env.home) {
        return Ok(owned(env.home.as_ref().unwrap().as_str()));
    }
    if nonempty(&env.userprofile) {
        return Ok(owned(env.userprofile.as_ref().unwrap().as_str()));
    }
    if nonempty(&env.homedrive) && nonempty(&env.homepath) {
        let mut s = owned(env.homedrive.as_ref().unwrap().as_str());
        push_str(&mut s, env.homepath.as_ref().unwrap().as_str());
        return Ok(s);
    }
    Err(HomeError::NoHome)
}

/// The configuration directory's base: `XDG_CONFIG_HOME` when set (even
/// empty), else `<home>/.config`.
pub open spec fn config_base(env: EnvVars) -> Option<Seq<char>> {
    match env.xdg_config_home {
        Some(x) => Some(x@),
        None => match home_of(env) {
            Some(h) => Some(joined_path(h, ".config"@)),
            None => None,
        },
    }
}

/// The path of `~/.config/unhosted/<file>` for the environment.
pub open spec fn config_file_of(env: EnvVars, file: Seq<char>) -> Option<Seq<char>> {
    match config_base(env) {
        Some(b) => Some(joined_path(joined_path(b, "unhosted"@), file)),
        None => None,
    }
}

/// `~/.config/unhosted/<file>`, honouring `XDG_CONFIG_HOME`.
pub fn config_file(env: &EnvVars, file: &str) -> (r: Result<String, HomeError>)
    ensures
        match config_file_of(*env, file@) {
            Some(p) => r matches Ok(s) && s@ == p,
            None => r == Err::<String, HomeError>(HomeError::NoHome),
        },
{
    let base = match &env.xdg_config_home {
        Some(x) => owned(x.as_str()),
        None => {
            let h = home_dir(env)?;
            join_path(h.as_str(), ".config")
        },
    };
    let dir = join_path(base.as_str(), "unhosted");
    Ok(join_path(dir.as_str(), file))
}

} // verus!
