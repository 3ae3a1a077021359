//! The startup update check's decisions.
//!
//! The runtime fetches the latest release tag from GitHub's public
//! releases API (nothing identifying the host is sent) and hands the tag
//! here: the library strips a leading `v`, compares `x.y.z` against the
//! running version component by component, and says whether to tell the
//! user about an update. A non-numeric component on either side reads as
//! "not newer", so an unexpected tag never produces a false prompt.

use vstd::prelude::*;
use crate::text::{
    char_views, chars_of, parse_uint, parse_uint_exec, split_chars, split_pieces,
    string_of_range, str_eq,
};

verus! {

/// GitHub's endpoint for the latest published release.
pub const LATEST_URL: &'static str =
    "https://api.github.com/repos/unhosted-ai/unhosted-core/releases/latest";

/// The environment variable that turns the check off.
pub const NO_UPDATE_CHECK_VAR: &'static str = "UNHOSTED_NO_UPDATE_CHECK";

/// Seconds the daemon waits after startup before checking.
pub const STARTUP_DELAY_SECS: u64 = 5;

/// The `x.y.z` triple of a version string: its first three dot-separated
/// pieces, each a decimal number that fits in 32 bits. Further pieces are
/// ignored.
pub open spec fn version_triple(s: Seq<char>) -> Option<(nat, nat, nat)> {
    let p = split_pieces(s, '.');
    if p.len() < 3 {
        None
    } else {
        match (
            parse_uint(p[0], u32::MAX as nat),
            parse_uint(p[1], u32::MAX as nat),
            parse_uint(p[2], u32::MAX as nat),
        ) {
            (Some(a), Some(b), Some(c)) => Some((a, b, c)),
            _ => None,
        }
    }
}

/// Lexicographic order on triples.
pub open spec fn triple_gt(l: (nat, nat, nat), c: (nat, nat, nat)) -> bool {
    l.0 > c.0 || (l.0 == c.0 && (l.1 > c.1 || (l.1 == c.1 && l.2 > c.2)))
}

/// `latest` is a newer version than `current`; false when either does
/// not parse.
pub open spec fn newer(latest: Seq<char>, current: Seq<char>) -> bool {
    match (version_triple(latest), version_triple(current)) {
        (Some(l), Some(c)) => triple_gt(l, c),
        _ => false,
    }
}

fn parse_version(s: &str) -> (r: Option<(u32, u32, u32)>)
    ensures
        match version_triple(s@) {
            Some(t) => r == Some((t.0 as u32, t.1 as u32, t.2 as u32)),
            None => r is None,
        },
{
    let chars = chars_of(s);
    let pieces = split_chars(chars.as_slice(), '.');
    if pieces.len() < 3 {
        return None;
    }
    proof {
        assert(char_views(pieces@)[0] == pieces@[0]@);
        assert(char_views(pieces@)[1] == pieces@[1]@);
        assert(char_views(pieces@)[2] == pieces@[2]@);
    }
    let a = match parse_uint_exec(pieces[0].as_slice(), 0xffff_ffff) {
        Some(v) => v,
        None => return None,
    };
    let b = match parse_uint_exec(pieces[1].as_slice(), 0xffff_ffff) {
        Some(v) => v,
        None => return None,
    };
    let c = match parse_uint_exec(pieces[2].as_slice(), 0xffff_ffff) {
        Some(v) => v,
        None => return None,
    };
    Some((a as u32, b as u32, c as u32))
}

/// Whether `latest` is a newer `x.y.z` version than `current`, comparing
/// component by component. Anything that does not parse compares as not
/// newer.
pub fn is_newer(latest: &str, current: &str) -> (r: bool)
    ensures
        r == newer(latest@, current@),
{
    match (parse_version(latest), parse_version(current)) {
        (Some(l), Some(c)) => l.0 > c.0 || (l.0 == c.0 && (l.1 > c.1 || (l.1 == c.1 && l.2
            > c.2))),
        _ => false,
    }
}

/// A release tag without its leading `v`, if it has one.
pub open spec fn tag_version(tag: Seq<char>) -> Seq<char> {
    if tag.len() > 0 && tag[0] == 'v' {
        tag.drop_first()
    } else {
        tag
    }
}

/// What the check reports for the latest published tag: the version to
/// announce when it is newer than the running one, `None` when up to
/// date or unparsable.
pub fn newer_release(tag_name: &str, current: &str) -> (r: Option<String>)
    ensures
        match r {
            Some(v) => newer(tag_version(tag_name@), current@) && v@ == tag_version(tag_name@),
            None => !newer(tag_version(tag_name@), current@),
        },
{
    let chars = chars_of(tag_name);
    let start: usize = if chars.len() > 0 && chars[0] == 'v' {
        1
    } else {
        0
    };
    let latest = string_of_range(chars.as_slice(), start, chars.len());
    assert(latest@ =~= tag_version(tag_name@));
    if is_newer(latest.as_str(), current) {
        Some(latest)
    } else {
        None
    }
}

/// The check is off when the opt-out variable is `1`, `true` or `yes`.
pub open spec fn opted_out(value: Option<Seq<char>>) -> bool {
    match value {
        Some(v) => v == "1"@ || v == "true"@ || v == "yes"@,
        None => false,
    }
}

/// Reads the opt-out variable's value (absent when unset).
pub fn update_check_disabled(value: Option<&str>) -> (r: bool)
    ensures
        r == opted_out(
            match value {
                Some(v) => Some(v@),
                None => None,
            },
        ),
{
    match value {
        Some(v) => str_eq(v, "1") || str_eq(v, "true") || str_eq(v, "yes"),
        None => false,
    }
}

/// A newer version is never reported for the running version itself.
pub proof fn version_is_not_newer_than_itself(v: Seq<char>)
    ensures
        !newer(v, v),
{
}

/// "Newer" is a strict order: never both ways round.
pub proof fn newer_is_asymmetric(a: Seq<char>, b: Seq<char>)
    ensures
        !(newer(a, b) && newer(b, a)),
{
}

} // verus!
