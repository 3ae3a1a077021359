//! The daemon's request-level rules: who may call what, how pairing
//! offers are read, how the status page reports the relay and the
//! discovered devices, and small text helpers the command line shares.

use vstd::prelude::*;
use crate::auth::AuthOutcome;
use crate::relay_client::RelayState;
use crate::text::{chars_of, owned, push_char, push_str, split_chars, split_pieces, str_eq,
    string_of_range, char_views, trim, trim_chars, starts_with, decimal, push_u64, starts_with_str};

verus! {

/// The upstream the daemon proxies to by default.
pub const DEFAULT_LLAMA_SERVER_URL: &'static str = "http://127.0.0.1:8080";

/// The address the daemon listens on by default.
pub const DEFAULT_NODE_ADDR: &'static str = "127.0.0.1:7777";

/// Header marking a request already forwarded by a peer (no second hop).
pub const FORWARDED_HEADER: &'static str = "x-unhosted-forwarded";

/// Header carrying a paired peer's signed authorization.
pub const AUTH_HEADER: &'static str = "x-unhosted-auth";

/// How long a pairing token stays valid, in seconds.
pub const PAIRING_TOKEN_TTL_SECS: u64 = 300;

/// The system prompt injected when the caller sends none.
pub const DEFAULT_SYSTEM_PROMPT: &'static str = "you are the assistant inside unhosted, open-source software that runs ai on hardware the user owns. answer plainly and directly. do not begin with disclaimers like \"as an ai\" or \"i'm an artificial intelligence\". do not use marketing words (\"exciting\", \"powerful\", \"leverage\", \"empower\"). match the length of your answer to the length the question needs \u{2014} short questions get short answers. if you do not know something, say so.";

/// A `/v1/run` request.
#[derive(Debug, Clone)]
pub struct RunRequest {
    pub prompt: String,
    pub max_tokens: u32,
}

/// The token budget of a run request that names none.
pub fn default_max_tokens() -> (n: u32)
    ensures
        n == 256,
{
    256
}

/// Why a request is refused.
#[derive(Debug, Clone, Copy, PartialEq, Eq, Structural)]
pub enum AccessError {
    /// Authenticated, but only the local user may do this (HTTP 403).
    Forbidden,
    /// Not authenticated (HTTP 401).
    Unauthorized,
}

/// Whether an authentication outcome may use an endpoint: paired peers
/// only when the endpoint is not local-user-only; the local user and
/// unauthenticated loopback callers always; rejected and missing
/// credentials never.
pub fn require_auth(outcome: &AuthOutcome, local_user_only: bool) -> (r: Result<(), AccessError>)
    ensures
        r == match outcome {
            AuthOutcome::Peer(_) => if local_user_only {
                Err(AccessError::Forbidden)
            } else {
                Ok(())
            },
            AuthOutcome::Local | AuthOutcome::LoopbackUnauthed => Ok(()),
            AuthOutcome::Rejected(_) | AuthOutcome::Missing => Err(AccessError::Unauthorized),
        },
{
    match outcome {
        AuthOutcome::Peer(_) => if local_user_only {
            Err(AccessError::Forbidden)
        } else {
            Ok(())
        },
        AuthOutcome::Local | AuthOutcome::LoopbackUnauthed => Ok(()),
        AuthOutcome::Rejected(_) | AuthOutcome::Missing => Err(AccessError::Unauthorized),
    }
}

// ---------------------------------------------------------------------
// Percent-encoding
// ---------------------------------------------------------------------

/// A character kept as is by the encoder: ASCII letters and digits and
/// `-`, `_`, `.`, `~`.
pub open spec fn unreserved(c: char) -> bool {
    ('a' <= c && c <= 'z') || ('A' <= c && c <= 'Z') || ('0' <= c && c <= '9') || c == '-' || c
        == '_' || c == '.' || c == '~'
}

/// An upper-case hexadecimal digit.
pub open spec fn upper_hex(d: nat) -> char {
    if d < 10 {
        (('0' as u32) + d) as char
    } else {
        (('A' as u32) + (d - 10)) as char
    }
}

/// The encoding of one character: itself when unreserved, else `%` and
/// two upper-case hex digits of its low byte (`c as u8`).
pub open spec fn encode_char(c: char) -> Seq<char> {
    if unreserved(c) {
        seq![c]
    } else {
        let b = ((c as u32) % 256) as nat;
        seq!['%', upper_hex(b / 16), upper_hex(b % 16)]
    }
}

/// The encoding of a text, character by character.
pub open spec fn url_encoded(s: Seq<char>) -> Seq<char>
    decreases s.len(),
{
    if s.len() == 0 {
        Seq::empty()
    } else {
        url_encoded(s.drop_last()) + encode_char(s.last())
    }
}

fn upper_hex_char(d: u32) -> (c: char)
    requires
        d < 16,
    ensures
        c == upper_hex(d as nat),
{
    if d < 10 {
        match d {
            0 => '0',
            1 => '1',
            2 => '2',
            3 => '3',
            4 => '4',
            5 => '5',
            6 => '6',
            7 => '7',
            8 => '8',
            _ => '9',
        }
    } else {
        match d {
            10 => 'A',
            11 => 'B',
            12 => 'C',
            13 => 'D',
            14 => 'E',
            _ => 'F',
        }
    }
}

/// Percent-encodes a text for a pairing URI.
pub fn urlencode(s: &str) -> (r: String)
    ensures
        r@ == url_encoded(s@),
{
    let v = chars_of(s);
    let mut r = String::new();
    let mut i: usize = 0;
    while i < v.len()
        invariant
            i <= v@.len(),
            r@ == url_encoded(v@.take(i as int)),
        decreases v@.len() - i,
    {
        let c = v[i];
        assert(v@.take(i + 1).drop_last() =~= v@.take(i as int));
        let ghost before = r@;
        if ('a' <= c && c <= 'z') || ('A' <= c && c <= 'Z') || ('0' <= c && c <= '9') || c == '-'
            || c == '_' || c == '.' || c == '~' {
            push_char(&mut r, c);
        } else {
            let b = (c as u32) % 256;
            push_char(&mut r, '%');
            push_char(&mut r, upper_hex_char(b / 16));
            push_char(&mut r, upper_hex_char(b % 16));
        }
        assert(r@ =~= before + encode_char(c));
        i += 1;
    }
    assert(v@.take(v@.len() as int) =~= v@);
    r
}

/// The value of an ASCII hex digit (either case).
pub open spec fn hex_value(b: u8) -> Option<u8> {
    if 48 <= b && b <= 57 {
        Some((b - 48) as u8)
    } else if 97 <= b && b <= 102 {
        Some((b - 97 + 10) as u8)
    } else if 65 <= b && b <= 70 {
        Some((b - 65 + 10) as u8)
    } else {
        None
    }
}

/// The value of an ASCII hex digit, either case.
pub fn char_to_hex(b: u8) -> (r: Option<u8>)
    ensures
        r == hex_value(b),
{
    if 48 <= b && b <= 57 {
        Some(b - 48)
    } else if 97 <= b && b <= 102 {
        Some(b - 97 + 10)
    } else if 65 <= b && b <= 70 {
        Some(b - 65 + 10)
    } else {
        None
    }
}

/// Decoding `%XX` escapes in bytes, from position `i`: an escape is
/// decoded only when two bytes follow the `%` and both are hex digits;
/// every other byte is kept.
pub open spec fn percent_decoded(b: Seq<u8>, i: int) -> Seq<u8>
    decreases b.len() - i,
{
    if i < 0 || i >= b.len() {
        Seq::empty()
    } else if b[i] == 37 && i + 2 < b.len() && hex_value(b[i + 1]) is Some && hex_value(b[i + 2]) is Some {
        seq![((hex_value(b[i + 1])->0 as nat) * 16 + hex_value(b[i + 2])->0 as nat) as u8]
            + percent_decoded(b, i + 3)
    } else {
        seq![b[i]] + percent_decoded(b, i + 1)
    }
}

/// The UTF-8 bytes of a string slice.
pub open spec fn utf8_bytes(s: Seq<char>) -> Seq<u8> {
    vstd::utf8::encode_utf8(s)
}

/// The string's UTF-8 bytes (`str::as_bytes`), copied.
pub(crate) fn bytes_of(s: &str) -> (b: Vec<u8>)
    ensures
        b@ == utf8_bytes(s@),
{
    let src = s.as_bytes();
    let mut b: Vec<u8> = Vec::new();
    let mut i: usize = 0;
    while i < src.len()
        invariant
            i <= src@.len(),
            b@ == src@.take(i as int),
        decreases src@.len() - i,
    {
        b.push(src[i]);
        i += 1;
        assert(b@ =~= src@.take(i as int));
    }
    assert(src@.take(src@.len() as int) =~= src@);
    b
}

/// A pairing URI parameter with its `%XX` escapes decoded; the text
/// itself when the decoded bytes are not UTF-8.
pub open spec fn url_decoded(s: Seq<char>) -> Seq<char> {
    match crate::agent_fs::utf8_decode(percent_decoded(utf8_bytes(s), 0)) {
        Some(t) => t,
        None => s,
    }
}

/// Decodes `%XX` escapes of a pairing URI parameter. When the decoded
/// bytes are not UTF-8, the text is returned unchanged.
pub fn urldecode(s: &str) -> (r: String)
    ensures
        r@ == url_decoded(s@),
{
    let bytes = bytes_of(s);
    let mut out: Vec<u8> = Vec::new();
    let mut i: usize = 0;
    let ghost full = percent_decoded(bytes@, 0);
    while i < bytes.len()
        invariant
            i <= bytes@.len() + 3,
            out@ + percent_decoded(bytes@, i as int) == full,
        decreases bytes@.len() - i + 3,
    {
        if bytes[i] == 37 && bytes.len() - i > 2 {
            let hi = char_to_hex(bytes[i + 1]);
            let lo = char_to_hex(bytes[i + 2]);
            if let (Some(h), Some(l)) = (hi, lo) {
                let v: u8 = h * 16 + l;
                let ghost before = out@;
                out.push(v);
                assert(before + percent_decoded(bytes@, i as int) == full);
                assert(out@ + percent_decoded(bytes@, i + 3) =~= before + percent_decoded(bytes@, i as int));
                i += 3;
                continue;
            }
        }
        let ghost before = out@;
        out.push(bytes[i]);
        assert(out@ + percent_decoded(bytes@, i + 1) =~= before + percent_decoded(bytes@, i as int));
        i += 1;
    }
    assert(percent_decoded(bytes@, i as int) =~= Seq::<u8>::empty());
    assert(out@ =~= full);
    match crate::agent_fs::decode_utf8(out) {
        Some(t) => t,
        None => owned(s),
    }
}

// ---------------------------------------------------------------------
// Pairing offers
// ---------------------------------------------------------------------

/// What a pairing offer carries. The address is `host:port` text; the
/// runtime parses it as a socket address.
#[derive(Debug, Clone)]
pub struct ParsedOfferUri {
    pub addr: String,
    pub token: String,
    pub pubkey: Option<String>,
    pub relay: Option<String>,
}

/// Why an offer could not be read.
#[derive(Debug, Clone, Copy, PartialEq, Eq, Structural)]
pub enum OfferError {
    /// It does not start with `unhosted://pair?` (or `unhosted://pair/`).
    BadPrefix,
    /// It has no `addr=`.
    MissingAddr,
    /// It has no `token=`.
    MissingToken,
}

impl OfferError {
    /// The message shown to the user.
    pub fn message(self) -> (s: &'static str)
        ensures
            s@ == match self {
                OfferError::BadPrefix => "offer must start with 'unhosted://pair?'"@,
                OfferError::MissingAddr => "offer missing addr="@,
                OfferError::MissingToken => "offer missing token="@,
            },
    {
        match self {
            OfferError::BadPrefix => "offer must start with 'unhosted://pair?'",
            OfferError::MissingAddr => "offer missing addr=",
            OfferError::MissingToken => "offer missing token=",
        }
    }
}

/// The query part of an offer, after its prefix (the `?` form is tried
/// first).
pub open spec fn offer_rest(s: Seq<char>) -> Option<Seq<char>> {
    let t = trim(s);
    if starts_with(t, "unhosted://pair?"@) {
        Some(t.skip(16))
    } else if starts_with(t, "unhosted://pair/"@) {
        Some(t.skip(16))
    } else {
        None
    }
}

/// A `key=value` piece split at its first `=` (no value without `=`).
pub open spec fn key_of(kv: Seq<char>) -> Seq<char> {
    match crate::text::first_occurrence(kv, seq!['=']) {
        Some(i) => kv.take(i),
        None => kv,
    }
}

/// The raw value of a `key=value` piece (empty without `=`).
pub open spec fn raw_value(kv: Seq<char>) -> Seq<char> {
    match crate::text::first_occurrence(kv, seq!['=']) {
        Some(i) => kv.skip(i + 1),
        None => Seq::empty(),
    }
}

/// The raw value of the last piece with the given key, if any.
pub open spec fn last_value(pieces: Seq<Seq<char>>, key: Seq<char>) -> Option<Seq<char>>
    decreases pieces.len(),
{
    if pieces.len() == 0 {
        None
    } else if key_of(pieces.last()) == key {
        Some(raw_value(pieces.last()))
    } else {
        last_value(pieces.drop_last(), key)
    }
}

/// The decoded value of the last piece with the given key, if any.
pub open spec fn decoded_value(pieces: Seq<Seq<char>>, key: Seq<char>) -> Option<Seq<char>> {
    match last_value(pieces, key) {
        Some(v) => Some(url_decoded(v)),
        None => None,
    }
}

fn split_kv(kv: &Vec<char>) -> (r: (String, String))
    ensures
        r.0@ == key_of(kv@),
        r.1@ == raw_value(kv@),
{
    let eq = vec!['='];
    assert(eq@ =~= seq!['=']);
    match crate::text::find_first(kv.as_slice(), eq.as_slice()) {
        Some(i) => {
            assert(crate::text::is_first_occurrence(kv@, eq@, i as int));
            assert(crate::text::occurs_at(kv@, eq@, i as int));
            let k = string_of_range(kv.as_slice(), 0, i);
            let n = kv.len();
            let v = string_of_range(kv.as_slice(), i + 1, n);
            assert(kv@.subrange(0, i as int) =~= kv@.take(i as int));
            assert(kv@.subrange(i + 1, n as int) =~= kv@.skip(i + 1));
            (k, v)
        },
        None => {
            let k = string_of_range(kv.as_slice(), 0, kv.len());
            assert(kv@.subrange(0, kv@.len() as int) =~= kv@);
            (k, String::new())
        },
    }
}

/// Reads a pairing offer `unhosted://pair?addr=...&token=...[&pk=...]
/// [&relay=...]` (parameters percent-decoded; a repeated key keeps its
/// last value; unknown keys are ignored). The address and token are
/// required.
pub fn parse_offer_uri(s: &str) -> (r: Result<ParsedOfferUri, OfferError>)
    ensures
        match offer_rest(s@) {
            None => r == Err::<ParsedOfferUri, OfferError>(OfferError::BadPrefix),
            Some(rest) => {
                let pieces = split_pieces(rest, '&');
                match (last_value(pieces, "addr"@), last_value(pieces, "token"@)) {
                    (None, _) => r == Err::<ParsedOfferUri, OfferError>(OfferError::MissingAddr),
                    (Some(_), None) => r == Err::<ParsedOfferUri, OfferError>(
                        OfferError::MissingToken,
                    ),
                    (Some(a), Some(t)) => r matches Ok(o) && o.addr@ == url_decoded(a) && o.token@
                        == url_decoded(t) && opt_view(o.pubkey) == decoded_value(
                        pieces,
                        "pk"@,
                    ) && opt_view(o.relay) == decoded_value(pieces, "relay"@),
                }
            },
        },
{
    let t = trim_chars(chars_of(s).as_slice());
    proof {
        reveal_strlit("unhosted://pair?");
        reveal_strlit("unhosted://pair/");
    }
    let rest: Vec<char> = if starts_with_str(t.as_slice(), "unhosted://pair?") || starts_with_str(
        t.as_slice(),
        "unhosted://pair/",
    ) {
        let n = t.len();
        let r = chars_of(string_of_range(t.as_slice(), 16, n).as_str());
        assert(t@.subrange(16, n as int) =~= t@.skip(16));
        r
    } else {
        return Err(OfferError::BadPrefix);
    };
    let pieces = split_chars(rest.as_slice(), '&');
    let ghost pv = split_pieces(rest@, '&');
    let mut addr: Option<String> = None;
    let mut token: Option<String> = None;
    let mut pubkey: Option<String> = None;
    let mut relay: Option<String> = None;
    let mut i: usize = 0;
    proof {
        reveal_strlit("addr");
        reveal_strlit("token");
        reveal_strlit("pk");
        reveal_strlit("relay");
    }
    while i < pieces.len()
        invariant
            i <= pieces@.len(),
            char_views(pieces@) == pv,
            opt_view(addr) == decoded_value(pv.take(i as int), "addr"@),
            opt_view(token) == decoded_value(pv.take(i as int), "token"@),
            opt_view(pubkey) == decoded_value(pv.take(i as int), "pk"@),
            opt_view(relay) == decoded_value(pv.take(i as int), "relay"@),
        decreases pieces@.len() - i,
    {
        proof {
            reveal_strlit("addr");
            reveal_strlit("token");
            reveal_strlit("pk");
            reveal_strlit("relay");
            assert("token"@[0] != "relay"@[0]);
            assert("addr"@.len() != "token"@.len() && "addr"@.len() != "pk"@.len() && "addr"@.len()
                != "relay"@.len() && "pk"@.len() != "token"@.len() && "pk"@.len() != "relay"@.len());
        }
        assert(pv.take(i + 1).drop_last() =~= pv.take(i as int));
        assert(pv.take(i + 1).last() == pieces@[i as int]@);
        let (k, raw) = split_kv(&pieces[i]);
        proof {
            let piece = pieces@[i as int]@;
            assert(forall|key: Seq<char>|
                #[trigger] decoded_value(pv.take(i + 1), key) == if key_of(piece) == key {
                    Some(url_decoded(raw_value(piece)))
                } else {
                    decoded_value(pv.take(i as int), key)
                });
        }
        let val = urldecode(raw.as_str());
        if str_eq(k.as_str(), "addr") {
            addr = Some(val);
        } else if str_eq(k.as_str(), "token") {
            token = Some(val);
        } else if str_eq(k.as_str(), "pk") {
            pubkey = Some(val);
        } else if str_eq(k.as_str(), "relay") {
            relay = Some(val);
        }
        i += 1;
    }
    assert(pv.take(i as int) =~= pv);
    let addr = match addr {
        Some(a) => a,
        None => return Err(OfferError::MissingAddr),
    };
    let token = match token {
        Some(t) => t,
        None => return Err(OfferError::MissingToken),
    };
    Ok(ParsedOfferUri { addr, token, pubkey, relay })
}

/// The raw value of the last `key=value` piece (one with an `=`) whose
/// key is the given one.
pub open spec fn last_param(pieces: Seq<Seq<char>>, key: Seq<char>) -> Option<Seq<char>>
    decreases pieces.len(),
{
    if pieces.len() == 0 {
        None
    } else if crate::text::first_occurrence(pieces.last(), seq!['=']) is Some && key_of(
        pieces.last(),
    ) == key {
        Some(raw_value(pieces.last()))
    } else {
        last_param(pieces.drop_last(), key)
    }
}

/// A pairing offer as the command line reads it: address and token only,
/// as written (no percent-decoding).
#[derive(Debug, Clone)]
pub struct ParsedOffer {
    /// `host:port`; the command line parses it as a socket address.
    pub addr: String,
    pub token: String,
}

/// Why the command line could not read an offer.
#[derive(Debug, Clone, Copy, PartialEq, Eq, Structural)]
pub enum CliOfferError {
    BadPrefix,
    MissingAddr,
    MissingToken,
}

impl CliOfferError {
    /// The message shown to the user.
    pub fn message(self) -> (s: &'static str)
        ensures
            s@ == match self {
                CliOfferError::BadPrefix => "offer must start with 'unhosted://pair?'"@,
                CliOfferError::MissingAddr => "offer missing addr= parameter"@,
                CliOfferError::MissingToken => "offer missing token= parameter"@,
            },
    {
        match self {
            CliOfferError::BadPrefix => "offer must start with 'unhosted://pair?'",
            CliOfferError::MissingAddr => "offer missing addr= parameter",
            CliOfferError::MissingToken => "offer missing token= parameter",
        }
    }
}

fn has_eq(kv: &Vec<char>) -> (r: bool)
    ensures
        r == (crate::text::first_occurrence(kv@, seq!['=']) is Some),
{
    let eq = vec!['='];
    assert(eq@ =~= seq!['=']);
    crate::text::find_first(kv.as_slice(), eq.as_slice()).is_some()
}

/// Reads an offer the way `unhosted pair accept` does: the same prefixes
/// as the daemon, `addr` and `token` taken from the last piece of each
/// that has an `=`, values kept as written.
pub fn parse_offer(s: &str) -> (r: Result<ParsedOffer, CliOfferError>)
    ensures
        match offer_rest(s@) {
            None => r == Err::<ParsedOffer, CliOfferError>(CliOfferError::BadPrefix),
            Some(rest) => {
                let pieces = split_pieces(rest, '&');
                match (last_param(pieces, "addr"@), last_param(pieces, "token"@)) {
                    (None, _) => r == Err::<ParsedOffer, CliOfferError>(CliOfferError::MissingAddr),
                    (Some(_), None) => r == Err::<ParsedOffer, CliOfferError>(
                        CliOfferError::MissingToken,
                    ),
                    (Some(a), Some(t)) => (r matches Ok(o) && o.addr@ == a && o.token@ == t),
                }
            },
        },
{
    let t = trim_chars(chars_of(s).as_slice());
    proof {
        reveal_strlit("unhosted://pair?");
        reveal_strlit("unhosted://pair/");
    }
    let rest: Vec<char> = if starts_with_str(t.as_slice(), "unhosted://pair?") || starts_with_str(
        t.as_slice(),
        "unhosted://pair/",
    ) {
        let n = t.len();
        let r = chars_of(string_of_range(t.as_slice(), 16, n).as_str());
        assert(t@.subrange(16, n as int) =~= t@.skip(16));
        r
    } else {
        return Err(CliOfferError::BadPrefix);
    };
    let pieces = split_chars(rest.as_slice(), '&');
    let ghost pv = split_pieces(rest@, '&');
    let mut addr: Option<String> = None;
    let mut token: Option<String> = None;
    let mut i: usize = 0;
    while i < pieces.len()
        invariant
            i <= pieces@.len(),
            char_views(pieces@) == pv,
            opt_view(addr) == last_param(pv.take(i as int), "addr"@),
            opt_view(token) == last_param(pv.take(i as int), "token"@),
        decreases pieces@.len() - i,
    {
        proof {
            reveal_strlit("addr");
            reveal_strlit("token");
            assert("addr"@.len() != "token"@.len());
        }
        assert(pv.take(i + 1).drop_last() =~= pv.take(i as int));
        assert(pv.take(i + 1).last() == pieces@[i as int]@);
        if has_eq(&pieces[i]) {
            let (k, v) = split_kv(&pieces[i]);
            if str_eq(k.as_str(), "addr") {
                addr = Some(v);
            } else if str_eq(k.as_str(), "token") {
                token = Some(v);
            }
        }
        i += 1;
    }
    assert(pv.take(i as int) =~= pv);
    let addr = match addr {
        Some(a) => a,
        None => return Err(CliOfferError::MissingAddr),
    };
    let token = match token {
        Some(t) => t,
        None => return Err(CliOfferError::MissingToken),
    };
    Ok(ParsedOffer { addr, token })
}

// ---------------------------------------------------------------------

// Status page
// ---------------------------------------------------------------------

/// How the status page reports the relay connection.
#[derive(Debug, Clone)]
pub struct RelayStatus {
    pub state: &'static str,
    pub url: Option<String>,
    pub error: Option<String>,
}

/// The relay's status: disabled shows no URL; connecting, registered and
/// error show the configured URL; an error carries its message.
pub fn relay_status(state: RelayState, relay_url: Option<String>) -> (r: RelayStatus)
    ensures
        match state {
            RelayState::Disabled => r.state@ == "disabled"@ && r.url is None && r.error is None,
            RelayState::Connecting => r.state@ == "connecting"@ && r.url == relay_url && r.error
                is None,
            RelayState::Registered => r.state@ == "registered"@ && r.url == relay_url && r.error
                is None,
            RelayState::Error(m) => r.state@ == "error"@ && r.url == relay_url && r.error == Some(
                m,
            ),
        },
{
    match state {
        RelayState::Disabled => RelayStatus { state: "disabled", url: None, error: None },
        RelayState::Connecting => RelayStatus { state: "connecting", url: relay_url, error: None },
        RelayState::Registered => RelayStatus { state: "registered", url: relay_url, error: None },
        RelayState::Error(msg) => RelayStatus { state: "error", url: relay_url, error: Some(msg) },
    }
}

/// A paired peer as the status page and the registry know it.
#[derive(Debug, Clone)]
pub struct PairedPeer {
    pub name: String,
    /// `host:port`.
    pub addr: String,
    pub pubkey: Option<String>,
}

/// A device found on the local network.
#[derive(Debug, Clone)]
pub struct DiscoveredDevice {
    pub name: String,
    /// `host:port`.
    pub addr: String,
    pub pubkey: Option<String>,
}

/// The view of an optional text.
pub open spec fn opt_view(o: Option<String>) -> Option<Seq<char>> {
    match o {
        Some(s) => Some(s@),
        None => None,
    }
}

/// Peer `k` is the first paired peer with its (known) public key.
pub open spec fn first_with_key(peers: Seq<PairedPeer>, k: int) -> bool {
    &&& 0 <= k < peers.len()
    &&& opt_view(peers[k].pubkey) is Some
    &&& forall|j: int| 0 <= j < k ==> opt_view(#[trigger] peers[j].pubkey) != opt_view(peers[k].pubkey)
}

/// The address a paired peer has after discovery: that of the last
/// discovered device advertising the peer's public key, if any.
pub open spec fn restored_addr(p: PairedPeer, found: Seq<DiscoveredDevice>) -> Seq<char>
    decreases found.len(),
{
    if found.len() == 0 {
        p.addr@
    } else if opt_view(p.pubkey) is Some && opt_view(found.last().pubkey) == opt_view(p.pubkey) {
        found.last().addr@
    } else {
        restored_addr(p, found.drop_last())
    }
}

/// Peer `p` is peer `k` of `orig` after the devices `found` were seen:
/// same name and key; the restored address when it is the first peer
/// with its key, else the old address.
pub open spec fn restored_peer(orig: Seq<PairedPeer>, k: int, p: PairedPeer, found: Seq<DiscoveredDevice>) -> bool {
    &&& p.name == orig[k].name
    &&& p.pubkey == orig[k].pubkey
    &&& p.addr@ == if first_with_key(orig, k) {
        restored_addr(orig[k], found)
    } else {
        orig[k].addr@
    }
}

/// Discovered device `j` moves a paired peer: the first peer with the
/// device's key had another address just before.
pub open spec fn step_moves(peers: Seq<PairedPeer>, found: Seq<DiscoveredDevice>, j: int) -> bool {
    opt_view(found[j].pubkey) is Some && exists|i: int|
        #[trigger] first_with_key(peers, i) && opt_view(peers[i].pubkey) == opt_view(found[j].pubkey)
            && restored_addr(peers[i], found.take(j)) != found[j].addr@
}

/// The index of the first peer with the given key, if any.
fn first_peer_with_key(peers: &Vec<PairedPeer>, key: &str) -> (r: Option<usize>)
    ensures
        match r {
            Some(i) => i < peers@.len() && opt_view(peers@[i as int].pubkey) == Some(key@) && forall|
                k: int,
            | 0 <= k < i ==> opt_view(#[trigger] peers@[k].pubkey) != Some(key@),
            None => forall|k: int|
                0 <= k < peers@.len() ==> opt_view(#[trigger] peers@[k].pubkey) != Some(key@),
        },
{
    let mut i: usize = 0;
    while i < peers.len()
        invariant
            i <= peers@.len(),
            forall|k: int| 0 <= k < i ==> opt_view(#[trigger] peers@[k].pubkey) != Some(key@),
        decreases peers@.len() - i,
    {
        let hit = match &peers[i].pubkey {
            Some(pk) => str_eq(pk.as_str(), key),
            None => false,
        };
        if hit {
            return Some(i);
        }
        i += 1;
    }
    None
}

/// Auto-restore after an address change: for each discovered device
/// with a public key, in discovery order, the first paired peer with that
/// key takes the device's address when it differs. Names and keys stay;
/// returns whether any address was rewritten.
pub fn restore_peer_addrs(peers: &mut Vec<PairedPeer>, found: &Vec<DiscoveredDevice>) -> (changed: bool)
    ensures
        final(peers)@.len() == old(peers)@.len(),
        forall|k: int|
            0 <= k < final(peers)@.len() ==> restored_peer(old(peers)@, k, #[trigger] final(peers)@[k], found@),
        changed == exists|j: int| 0 <= j < found@.len() && #[trigger] step_moves(old(peers)@, found@, j),
{
    let ghost orig = peers@;
    let mut changed = false;
    let mut j: usize = 0;
    while j < found.len()
        invariant
            j <= found@.len(),
            orig == old(peers)@,
            peers@.len() == orig.len(),
            forall|k: int|
                0 <= k < peers@.len() ==> restored_peer(orig, k, #[trigger] peers@[k], found@.take(j as int)),
            changed == exists|jj: int| 0 <= jj < j && #[trigger] step_moves(orig, found@, jj),
        decreases found@.len() - j,
    {
        let ghost before = peers@;
        let ghost was = changed;
        let ghost fj = found@.take(j as int);
        let ghost fj1 = found@.take(j + 1);
        proof {
            assert(fj1.drop_last() =~= fj);
            assert(fj1.last() == found@[j as int]);
            assert forall|k: int| 0 <= k < orig.len() implies #[trigger] opt_view(before[k].pubkey)
                == opt_view(orig[k].pubkey) by {
                assert(restored_peer(orig, k, before[k], fj));
            }
        }
        let mut moved = false;
        if let Some(dpk) = &found[j].pubkey {
            if let Some(i) = first_peer_with_key(peers, dpk.as_str()) {
                proof {
                    assert(restored_peer(orig, i as int, before[i as int], fj));
                    assert forall|jj: int| 0 <= jj < i implies opt_view(#[trigger] orig[jj].pubkey)
                        != opt_view(orig[i as int].pubkey) by {
                        assert(restored_peer(orig, jj, before[jj], fj));
                    }
                    assert(first_with_key(orig, i as int));
                }
                if !str_eq(peers[i].addr.as_str(), found[j].addr.as_str()) {
                    let mut p = peers.remove(i);
                    p.addr = owned(found[j].addr.as_str());
                    peers.insert(i, p);
                    changed = true;
                    moved = true;
                    proof {
                        assert(peers@ =~= before.update(i as int, p));
                    }
                }
                proof {
                    assert forall|k: int| 0 <= k < orig.len() && first_with_key(orig, k) && k != i
                        implies opt_view(#[trigger] orig[k].pubkey) != opt_view(found@[j as int].pubkey) by {
                        if opt_view(orig[k].pubkey) == opt_view(found@[j as int].pubkey) {
                            if k < i {
                                assert(restored_peer(orig, k, before[k], fj));
                                assert(opt_view(before[k].pubkey) != Some(dpk@));
                            } else {
                                assert(opt_view(orig[i as int].pubkey) != opt_view(orig[k].pubkey));
                            }
                        }
                    }
                    if moved {
                        assert(step_moves(orig, found@, j as int));
                    } else {
                        assert forall|ii: int| #[trigger] first_with_key(orig, ii) && opt_view(orig[ii].pubkey)
                            == opt_view(found@[j as int].pubkey) implies restored_addr(orig[ii], fj)
                            == found@[j as int].addr@ by {
                            if ii < i {
                                assert(restored_peer(orig, ii, before[ii], fj));
                                assert(opt_view(peers@[ii].pubkey) != Some(dpk@));
                            } else if ii > i {
                                assert(opt_view(orig[i as int].pubkey) != opt_view(orig[ii].pubkey));
                            }
                        }
                        assert(!step_moves(orig, found@, j as int));
                    }
                }
            } else {
                proof {
                    assert forall|k: int| 0 <= k < orig.len() implies opt_view(#[trigger] orig[k].pubkey)
                        != opt_view(found@[j as int].pubkey) by {
                        assert(restored_peer(orig, k, before[k], fj));
                        assert(opt_view(peers@[k].pubkey) != Some(dpk@));
                    }
                    assert(!step_moves(orig, found@, j as int));
                }
            }
        } else {
            proof {
                assert(!step_moves(orig, found@, j as int));
            }
        }
        proof {
            assert forall|k: int| 0 <= k < peers@.len() implies restored_peer(orig, k, #[trigger] peers@[k], fj1) by {
                assert(restored_peer(orig, k, before[k], fj));
            }
            assert((exists|jj: int| 0 <= jj < j + 1 && #[trigger] step_moves(orig, found@, jj)) == (was
                || step_moves(orig, found@, j as int)));
        }
        j += 1;
    }
    assert(found@.take(j as int) =~= found@);
    changed
}

/// A discovered device is already paired: a paired peer has its name, or
/// its advertised key.
pub open spec fn already_paired(d: DiscoveredDevice, peers: Seq<PairedPeer>) -> bool {
    exists|i: int|
        0 <= i < peers.len() && #[trigger] paired_with(d, peers[i])
}

/// A paired peer has the device's name or its advertised key.
pub open spec fn paired_with(d: DiscoveredDevice, p: PairedPeer) -> bool {
    p.name@ == d.name@ || (opt_view(d.pubkey) is Some && opt_view(p.pubkey) == opt_view(d.pubkey))
}

/// The devices not yet paired with any of `peers`.
pub open spec fn unpaired(peers: Seq<PairedPeer>) -> spec_fn(DiscoveredDevice) -> bool {
    |d: DiscoveredDevice| !already_paired(d, peers)
}

/// The discovered devices worth a pair button: those not already paired,
/// in discovery order.
pub fn hide_paired(found: Vec<DiscoveredDevice>, peers: &Vec<PairedPeer>) -> (r: Vec<DiscoveredDevice>)
    ensures
        r@ == found@.filter(unpaired(peers@)),
{
    let ghost orig = found@;
    let mut rest = found;
    let total: usize = rest.len();
    let mut out: Vec<DiscoveredDevice> = Vec::new();
    let mut n: usize = 0;
    while rest.len() > 0
        invariant
            n + rest@.len() == orig.len(),
            orig.len() == total,
            rest@ == orig.subrange(n as int, orig.len() as int),
            out@ == orig.take(n as int).filter(unpaired(peers@)),
        decreases rest@.len(),
    {
        let d = rest.remove(0);
        let mut paired = false;
        let mut i: usize = 0;
        while i < peers.len() && !paired
            invariant
                i <= peers@.len(),
                paired ==> already_paired(d, peers@),
                !paired ==> forall|k: int| 0 <= k < i ==> !#[trigger] paired_with(d, peers@[k]),
            decreases peers@.len() - i,
        {
            let same_name = str_eq(peers[i].name.as_str(), d.name.as_str());
            let mut same_key = false;
            if let Some(a) = &d.pubkey {
                if let Some(b) = &peers[i].pubkey {
                    same_key = str_eq(a.as_str(), b.as_str());
                }
            }
            if same_name || same_key {
                assert(paired_with(d, peers@[i as int]));
                paired = true;
            }
            i += 1;
        }
        proof {
            reveal(Seq::filter);
            assert(orig.take(n + 1).drop_last() =~= orig.take(n as int));
            assert(orig.take(n + 1).last() == d);
            assert(unpaired(peers@)(d) == !paired);
        }
        if !paired {
            out.push(d);
        }
        n += 1;
        assert(rest@ =~= orig.subrange(n as int, orig.len() as int));
    }
    assert(orig.take(n as int) =~= orig);
    out
}

/// What the request's `model` field holds.
#[derive(Debug, Clone)]
pub enum ModelField {
    Absent,
    Text(String),
    /// Present but not a string.
    Other,
}

/// Whether the request's model must be replaced by the upstream's real
/// model id: only when that id is known, and the field is absent or one
/// of the placeholders `local`, `default`, `auto` or empty.
pub fn needs_model_swap(field: &ModelField, upstream_model_known: bool) -> (r: bool)
    ensures
        r == (upstream_model_known && match field {
            ModelField::Absent => true,
            ModelField::Text(s) => s@ == "local"@ || s@ == "default"@ || s@ == "auto"@ || s@.len()
                == 0,
            ModelField::Other => false,
        }),
{
    if !upstream_model_known {
        return false;
    }
    match field {
        ModelField::Absent => true,
        ModelField::Text(s) => str_eq(s.as_str(), "local") || str_eq(s.as_str(), "default")
            || str_eq(s.as_str(), "auto") || chars_of(s.as_str()).len() == 0,
        ModelField::Other => false,
    }
}

// ---------------------------------------------------------------------
// Command-line text helpers
// ---------------------------------------------------------------------

/// Line breaks as spaces.
pub open spec fn one_line(s: Seq<char>) -> Seq<char> {
    s.map_values(|c: char| if c == '\n' || c == '\r' {
        ' '
    } else {
        c
    })
}

/// A text on one line, cut to `max` characters plus `…` when longer.
pub open spec fn display_text(s: Seq<char>, max: nat) -> Seq<char> {
    if one_line(s).len() <= max {
        one_line(s)
    } else {
        one_line(s).take(max as int).push('\u{2026}')
    }
}

/// Shortens a text for one terminal line.
pub fn trim_for_display(s: &str, max: usize) -> (r: String)
    ensures
        r@ == display_text(s@, max as nat),
{
    let v = chars_of(s);
    let mut line: Vec<char> = Vec::new();
    let mut i: usize = 0;
    while i < v.len()
        invariant
            i <= v@.len(),
            line@ == one_line(v@.take(i as int)),
        decreases v@.len() - i,
    {
        let c = v[i];
        line.push(if c == '\n' || c == '\r' {
            ' '
        } else {
            c
        });
        assert(line@ =~= one_line(v@.take(i + 1)));
        i += 1;
    }
    assert(v@.take(v@.len() as int) =~= v@);
    if line.len() <= max {
        string_of_range(line.as_slice(), 0, line.len())
    } else {
        let mut r = string_of_range(line.as_slice(), 0, max);
        push_char(&mut r, '\u{2026}');
        assert(line@.subrange(0, max as int) =~= line@.take(max as int));
        r
    }
}

/// A relative age: seconds under a minute, minutes under an hour, hours
/// under a day, else days.
pub open spec fn ago_text(secs: nat) -> Seq<char> {
    if secs < 60 {
        decimal(secs) + "s ago"@
    } else if secs < 3600 {
        decimal(secs / 60) + "m ago"@
    } else if secs < 86400 {
        decimal(secs / 3600) + "h ago"@
    } else {
        decimal(secs / 86400) + "d ago"@
    }
}

/// How long ago a Unix time was, from `now`, as `Ns/m/h/d ago` (times in
/// the future count as 0 seconds ago).
pub fn relative_ago(now: i64, unix: i64) -> (r: String)
    requires
        i64::MIN <= now - unix <= i64::MAX,
    ensures
        r@ == ago_text(if now - unix > 0 {
            (now - unix) as nat
        } else {
            0
        }),
{
    let d = now - unix;
    let secs: u64 = if d > 0 {
        d as u64
    } else {
        0
    };
    let mut r = String::new();
    if secs < 60 {
        push_u64(&mut r, secs);
        push_str(&mut r, "s ago");
    } else if secs < 3600 {
        push_u64(&mut r, secs / 60);
        push_str(&mut r, "m ago");
    } else if secs < 86400 {
        push_u64(&mut r, secs / 3600);
        push_str(&mut r, "h ago");
    } else {
        push_u64(&mut r, secs / 86400);
        push_str(&mut r, "d ago");
    }
    r
}

/// `s` with every leading copy of `p` removed (`str::trim_start_matches`).
pub open spec fn trim_prefix_all(s: Seq<char>, p: Seq<char>) -> Seq<char>
    decreases s.len(),
{
    if p.len() > 0 && starts_with(s, p) {
        trim_prefix_all(s.skip(p.len() as int), p)
    } else {
        s
    }
}

fn trim_prefix_all_exec(s: Vec<char>, p: &str) -> (r: Vec<char>)
    requires
        p@.len() > 0,
    ensures
        r@ == trim_prefix_all(s@, p@),
{
    let mut cur = s;
    let pv = chars_of(p);
    while crate::text::occurs_at_exec(cur.as_slice(), pv.as_slice(), 0)
        invariant
            pv@ == p@,
            pv@.len() > 0,
            trim_prefix_all(cur@, p@) == trim_prefix_all(s@, p@),
        decreases cur@.len(),
    {
        let n = cur.len();
        let next = chars_of(string_of_range(cur.as_slice(), pv.len(), n).as_str());
        assert(cur@.subrange(pv@.len() as int, n as int) =~= cur@.skip(pv@.len() as int));
        cur = next;
    }
    cur
}

/// The listen address text from the daemon URL the command line talks
/// to: leading `http://`s, then leading `https://`s, then trailing
/// slashes removed. The runtime parses the result as a socket address.
pub fn listen_addr_text(node_url: &str) -> (r: String)
    ensures
        r@ == crate::upstream::trim_trailing(
            trim_prefix_all(trim_prefix_all(node_url@, "http://"@), "https://"@),
            '/',
        ),
{
    proof {
        reveal_strlit("http://");
        reveal_strlit("https://");
    }
    let a = trim_prefix_all_exec(chars_of(node_url), "http://");
    let b = trim_prefix_all_exec(a, "https://");
    let s = string_of_range(b.as_slice(), 0, b.len());
    assert(b@.subrange(0, b@.len() as int) =~= b@);
    crate::upstream::trim_trailing_slashes(s.as_str())
}

/// One step of an agent run, as the command line reads it from the
/// daemon's answer.
#[derive(Debug, Clone)]
pub enum TraceStep {
    ModelMessage { step: u64, content: String, tool_calls_made: u64 },
    ToolCall { step: u64, tool: String, args_hash: String, result_chars: u64, error: Option<String> },
    /// A step of another kind, by its kind's name.
    Other { step: u64, kind: String },
}

/// The line printed for one step.
pub open spec fn trace_text(s: TraceStep) -> Seq<char> {
    match s {
        TraceStep::ModelMessage { step, content, tool_calls_made } => if content@.len() == 0 {
            "  [step "@ + decimal(step as nat) + "] model: ("@ + decimal(tool_calls_made as nat)
                + " tool call"@ + (if tool_calls_made == 1 {
                ""@
            } else {
                "s"@
            }) + ")"@
        } else {
            "  [step "@ + decimal(step as nat) + "] model: "@ + display_text(content@, 200)
        },
        TraceStep::ToolCall { step, tool, args_hash, result_chars, error } => match error {
            Some(e) => "  [step "@ + decimal(step as nat) + "] tool "@ + tool@ + "  args#"@
                + args_hash@ + "  ERROR  "@ + display_text(e@, 120),
            None => "  [step "@ + decimal(step as nat) + "] tool "@ + tool@ + "  args#"@
                + args_hash@ + "  "@ + decimal(result_chars as nat) + " chars  ok"@,
        },
        TraceStep::Other { step, kind } => "  [step "@ + decimal(step as nat) + "] "@ + kind@,
    }
}

/// Formats one step of a run's trace.
pub fn trace_line(s: &TraceStep) -> (r: String)
    ensures
        r@ == trace_text(*s),
{
    let mut r = owned("  [step ");
    match s {
        TraceStep::ModelMessage { step, content, tool_calls_made } => {
            push_u64(&mut r, *step);
            if chars_of(content.as_str()).len() == 0 {
                push_str(&mut r, "] model: (");
                push_u64(&mut r, *tool_calls_made);
                push_str(&mut r, " tool call");
                if *tool_calls_made == 1 {
                    push_str(&mut r, "");
                } else {
                    push_str(&mut r, "s");
                }
                push_str(&mut r, ")");
            } else {
                push_str(&mut r, "] model: ");
                let t = trim_for_display(content.as_str(), 200);
                push_str(&mut r, t.as_str());
            }
        },
        TraceStep::ToolCall { step, tool, args_hash, result_chars, error } => {
            push_u64(&mut r, *step);
            push_str(&mut r, "] tool ");
            push_str(&mut r, tool.as_str());
            push_str(&mut r, "  args#");
            push_str(&mut r, args_hash.as_str());
            match error {
                Some(e) => {
                    push_str(&mut r, "  ERROR  ");
                    let t = trim_for_display(e.as_str(), 120);
                    push_str(&mut r, t.as_str());
                },
                None => {
                    push_str(&mut r, "  ");
                    push_u64(&mut r, *result_chars);
                    push_str(&mut r, " chars  ok");
                },
            }
        },
        TraceStep::Other { step, kind } => {
            push_u64(&mut r, *step);
            push_str(&mut r, "] ");
            push_str(&mut r, kind.as_str());
        },
    }
    r
}

/// The closing line of a run's trace.
pub fn trace_summary(stopped: &str, tokens: u64, run_id: &str) -> (r: String)
    ensures
        r@ == "stopped: "@ + stopped@ + "   tokens: "@ + decimal(tokens as nat) + "   run: "@
            + run_id@,
{
    let mut r = owned("stopped: ");
    push_str(&mut r, stopped);
    push_str(&mut r, "   tokens: ");
    push_u64(&mut r, tokens);
    push_str(&mut r, "   run: ");
    push_str(&mut r, run_id);
    r
}

/// Which browser origins may call the daemon.
#[derive(Debug, Clone)]
pub enum CorsPolicy {
    /// Only origins on this machine (the default).
    Loopback,
    /// Every origin (`*`).
    Any,
    /// The listed origins, each taken only when it is a valid header
    /// value.
    Listed(Vec<String>),
}

/// The non-empty trimmed pieces of a comma-separated list, in order.
pub open spec fn list_items(pieces: Seq<Seq<char>>) -> Seq<Seq<char>>
    decreases pieces.len(),
{
    if pieces.len() == 0 {
        Seq::empty()
    } else {
        let r = list_items(pieces.drop_last());
        if trim(pieces.last()).len() > 0 {
            r.push(trim(pieces.last()))
        } else {
            r
        }
    }
}

/// The policy `UNHOSTED_CORS_ORIGINS` sets (its value, empty when unset):
/// empty after trimming is loopback only, `*` is any origin, anything
/// else a comma-separated list.
pub fn cors_policy(raw: &str) -> (p: CorsPolicy)
    ensures
        trim(raw@).len() == 0 ==> p is Loopback,
        trim(raw@) == "*"@ ==> p is Any,
        trim(raw@).len() > 0 && trim(raw@) != "*"@ ==> (p matches CorsPolicy::Listed(v)
            && crate::text::string_views(v@) == list_items(split_pieces(trim(raw@), ','))),
{
    proof {
        reveal_strlit("*");
    }
    let t = trim_chars(chars_of(raw).as_slice());
    if t.len() == 0 {
        return CorsPolicy::Loopback;
    }
    let ts = string_of_range(t.as_slice(), 0, t.len());
    assert(t@.subrange(0, t@.len() as int) =~= t@);
    if str_eq(ts.as_str(), "*") {
        return CorsPolicy::Any;
    }
    let pieces = split_chars(t.as_slice(), ',');
    let ghost pv = split_pieces(t@, ',');
    let mut out: Vec<String> = Vec::new();
    let mut i: usize = 0;
    while i < pieces.len()
        invariant
            i <= pieces@.len(),
            char_views(pieces@) == pv,
            crate::text::string_views(out@) == list_items(pv.take(i as int)),
        decreases pieces@.len() - i,
    {
        assert(pv.take(i + 1).drop_last() =~= pv.take(i as int));
        assert(pv.take(i + 1).last() == pieces@[i as int]@);
        let item = trim_chars(pieces[i].as_slice());
        if item.len() > 0 {
            let ghost before = crate::text::string_views(out@);
            out.push(string_of_range(item.as_slice(), 0, item.len()));
            assert(item@.subrange(0, item@.len() as int) =~= item@);
            assert(crate::text::string_views(out@) =~= before.push(item@));
        }
        i += 1;
    }
    assert(pv.take(i as int) =~= pv);
    CorsPolicy::Listed(out)
}

/// The origin prefixes the default policy lets through.
pub open spec fn loopback_prefixes() -> Seq<Seq<char>> {
    seq![
        "http://127.0.0.1"@,
        "http://localhost"@,
        "https://127.0.0.1"@,
        "https://localhost"@,
        "tauri://"@,
        "file://"@,
    ]
}

/// Whether the default policy lets an origin through: it starts with one
/// of the loopback, desktop-shell or file prefixes.
pub fn loopback_origin(origin: &str) -> (r: bool)
    ensures
        r == exists|i: int| 0 <= i < 6 && starts_with(origin@, #[trigger] loopback_prefixes()[i]),
{
    let v = chars_of(origin);
    let prefixes: Vec<&str> = vec![
        "http://127.0.0.1",
        "http://localhost",
        "https://127.0.0.1",
        "https://localhost",
        "tauri://",
        "file://",
    ];
    let mut i: usize = 0;
    while i < prefixes.len()
        invariant
            i <= 6,
            prefixes@.len() == 6,
            forall|k: int| 0 <= k < 6 ==> #[trigger] prefixes@[k]@ == loopback_prefixes()[k],
            forall|k: int| 0 <= k < i ==> !starts_with(v@, #[trigger] loopback_prefixes()[k]),
            v@ == origin@,
        decreases 6 - i,
    {
        if starts_with_str(v.as_slice(), prefixes[i]) {
            return true;
        }
        i += 1;
    }
    false
}

} // verus!
