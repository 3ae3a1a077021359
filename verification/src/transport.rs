//! The peer-to-peer transport's trust check: a peer's certificate *is*
//! its identity. The Ed25519 key is located in the certificate's DER
//! bytes and must belong to a paired peer. The QUIC endpoint and the TLS
//! machinery run outside the library.

use vstd::prelude::*;
use crate::text::{owned, push_str, str_eq};

verus! {

/// The DER encoding of the Ed25519 algorithm identifier (OID 1.3.101.112).
pub open spec fn ed25519_oid() -> Seq<u8> {
    seq![0x06u8, 0x03u8, 0x2bu8, 0x65u8, 0x70u8]
}

/// The first position at or after `i` where `needle` occurs in `hay`.
pub open spec fn find_bytes_from(hay: Seq<u8>, needle: Seq<u8>, i: int) -> Option<int>
    decreases hay.len() + 1 - i,
{
    if i < 0 || i > hay.len() || i + needle.len() > hay.len() {
        None
    } else if hay.subrange(i, i + needle.len()) == needle {
        Some(i)
    } else {
        find_bytes_from(hay, needle, i + 1)
    }
}

/// The first position at or after `i` holding the byte `v`.
pub open spec fn find_byte_from(hay: Seq<u8>, v: u8, i: int) -> Option<int>
    decreases hay.len() - i,
{
    if i < 0 || i >= hay.len() {
        None
    } else if hay[i] == v {
        Some(i)
    } else {
        find_byte_from(hay, v, i + 1)
    }
}

/// The key a BIT STRING found after an algorithm identifier ending at
/// `abs` holds: tag `03`, length `21`, no unused bits, 32 key bytes.
pub open spec fn key_after(b: Seq<u8>, abs: int) -> Option<Seq<u8>> {
    if abs + 2 < b.len() {
        match find_byte_from(b, 0x03, abs) {
            Some(bs) => if bs + 35 <= b.len() && b[bs + 1] == 0x21 && b[bs + 2] == 0x00 {
                Some(b.subrange(bs + 3, bs + 35))
            } else {
                None
            },
            None => None,
        }
    } else {
        None
    }
}

/// The Ed25519 key found scanning the DER bytes from `start`: after each
/// occurrence of the algorithm identifier, the next BIT STRING is tried.
pub open spec fn key_scan(b: Seq<u8>, start: int) -> Option<Seq<u8>>
    decreases b.len() - start,
{
    match find_bytes_from(b, ed25519_oid(), start) {
        None => None,
        Some(p) => {
            let abs = p + 5;
            match key_after(b, abs) {
                Some(k) => Some(k),
                None => if start < abs <= b.len() {
                    key_scan(b, abs)
                } else {
                    None
                },
            }
        },
    }
}

fn oid_at(hay: &[u8], i: usize) -> (r: bool)
    requires
        i + 5 <= hay@.len(),
    ensures
        r == (hay@.subrange(i as int, i + 5) == ed25519_oid()),
{
    let r = hay[i] == 0x06 && hay[i + 1] == 0x03 && hay[i + 2] == 0x2b && hay[i + 3] == 0x65
        && hay[i + 4] == 0x70;
    if r {
        assert(hay@.subrange(i as int, i + 5) =~= ed25519_oid());
    } else {
        assert(hay@.subrange(i as int, i + 5) != ed25519_oid()) by {
            let s = hay@.subrange(i as int, i + 5);
            if s == ed25519_oid() {
                assert(s[0] == hay@[i as int] && s[1] == hay@[i + 1] && s[2] == hay@[i + 2] && s[3]
                    == hay@[i + 3] && s[4] == hay@[i + 4]);
            }
        }
    }
    r
}

fn find_oid_from(hay: &[u8], start: usize) -> (r: Option<usize>)
    requires
        start <= hay@.len(),
    ensures
        match find_bytes_from(hay@, ed25519_oid(), start as int) {
            Some(p) => r == Some(p as usize) && start <= p && p + 5 <= hay@.len(),
            None => r is None,
        },
{
    let mut i = start;
    while hay.len() >= 5 && i <= hay.len() - 5
        invariant
            start <= i,
            i <= hay@.len(),
            find_bytes_from(hay@, ed25519_oid(), start as int) == find_bytes_from(
                hay@,
                ed25519_oid(),
                i as int,
            ),
        decreases hay@.len() - i,
    {
        if oid_at(hay, i) {
            return Some(i);
        }
        i += 1;
    }
    None
}

fn find_byte(hay: &[u8], v: u8, start: usize) -> (r: Option<usize>)
    ensures
        match find_byte_from(hay@, v, start as int) {
            Some(p) => r == Some(p as usize) && start <= p < hay@.len(),
            None => r is None,
        },
{
    let mut i = start;
    while i < hay.len()
        invariant
            start <= i,
            find_byte_from(hay@, v, start as int) == find_byte_from(hay@, v, i as int),
        decreases hay@.len() - i,
    {
        if hay[i] == v {
            return Some(i);
        }
        i += 1;
    }
    None
}

/// Finds the Ed25519 public key embedded in a certificate's DER bytes:
/// the 32 bytes of the BIT STRING that follows the Ed25519 algorithm
/// identifier.
pub fn extract_ed25519_pubkey(cert: &[u8]) -> (r: Option<[u8; 32]>)
    ensures
        match key_scan(cert@, 0) {
            Some(k) => r matches Some(a) && a@ == k,
            None => r is None,
        },
{
    let mut start: usize = 0;
    while start <= cert.len()
        invariant
            key_scan(cert@, 0) == key_scan(cert@, start as int),
        decreases cert@.len() + 1 - start,
    {
        let pos = match find_oid_from(cert, start) {
            Some(p) => p,
            None => return None,
        };
        let abs = pos + 5;
        if cert.len() > 2 && abs < cert.len() - 2 {
            if let Some(bs) = find_byte(cert, 0x03, abs) {
                if cert.len() >= 35 && bs <= cert.len() - 35 && cert[bs + 1] == 0x21 && cert[bs
                    + 2] == 0x00 {
                    let mut out = [0u8; 32];
                    let mut j: usize = 0;
                    while j < 32
                        invariant
                            j <= 32,
                            bs + 35 <= cert.len(),
                            forall|k: int| 0 <= k < j ==> out@[k] == cert@[bs + 3 + k],
                        decreases 32 - j,
                    {
                        out[j] = cert[bs + 3 + j];
                        j += 1;
                    }
                    assert(out@ =~= cert@.subrange(bs + 3, bs + 35));
                    return Some(out);
                }
            }
        }
        start = abs;
    }
    None
}

/// The standard Base64 text (no padding) of a key.
pub open spec fn key_text(k: Seq<u8>) -> Seq<char> {
    crate::identity::b64_encode(k)
}

/// Whether `ed25519_dalek::VerifyingKey::from_bytes` accepts some bytes.
pub uninterp spec fn ed25519_valid_key(pk: Seq<u8>) -> bool;

/// `VerifyingKey::from_bytes`: whether the bytes are a valid Ed25519
/// public key (named by `ed25519_valid_key`), with the library's error
/// text when not. The text is not stated.
#[verifier::external_body]
fn check_ed25519_key(pk: &[u8; 32]) -> (r: Result<(), String>)
    ensures
        r is Ok == ed25519_valid_key(pk@),
{
    match ed25519_dalek::VerifyingKey::from_bytes(pk) {
        Ok(_) => Ok(()),
        Err(e) => Err(format!("{e}")),
    }
}

/// Why a peer's certificate is refused.
#[derive(Debug, Clone, PartialEq, Eq)]
pub enum PeerCertError {
    /// No Ed25519 key was found in it.
    NotEd25519,
    /// The key is not a valid Ed25519 point; the key library's text.
    InvalidKey(String),
    /// The key (as Base64 text) belongs to no paired peer.
    NotPaired(String),
}

impl PeerCertError {
    /// The message the TLS layer reports.
    pub fn message(&self) -> (s: String)
        ensures
            s@ == match self {
                PeerCertError::NotEd25519 => "peer cert is not Ed25519 \u{2014} refusing"@,
                PeerCertError::InvalidKey(e) => "peer cert Ed25519 key invalid: "@ + e@,
                PeerCertError::NotPaired(k) => "peer cert key "@ + k@ + " is not a paired peer"@,
            },
    {
        match self {
            PeerCertError::NotEd25519 => owned("peer cert is not Ed25519 \u{2014} refusing"),
            PeerCertError::InvalidKey(e) => {
                let mut s = owned("peer cert Ed25519 key invalid: ");
                push_str(&mut s, e.as_str());
                s
            },
            PeerCertError::NotPaired(k) => {
                let mut s = owned("peer cert key ");
                push_str(&mut s, k.as_str());
                push_str(&mut s, " is not a paired peer");
                s
            },
        }
    }
}

/// Some paired peer has this key text.
pub open spec fn paired_key(keys: Seq<Option<String>>, k: Seq<char>) -> bool {
    exists|i: int| 0 <= i < keys.len() && #[trigger] key_is(keys[i], k)
}

/// A recorded key is the given text.
pub open spec fn key_is(o: Option<String>, k: Seq<char>) -> bool {
    match o {
        Some(t) => t@ == k,
        None => false,
    }
}

/// Accepts a peer's certificate only when it carries a valid Ed25519 key
/// that one of the paired peers (given by their recorded keys) has.
pub fn check_known_peer(cert: &[u8], peer_keys: &Vec<Option<String>>) -> (r: Result<(), PeerCertError>)
    ensures
        match key_scan(cert@, 0) {
            None => r == Err::<(), PeerCertError>(PeerCertError::NotEd25519),
            Some(k) => if !ed25519_valid_key(k) {
                r matches Err(PeerCertError::InvalidKey(_))
            } else if paired_key(peer_keys@, key_text(k)) {
                r is Ok
            } else {
                r matches Err(PeerCertError::NotPaired(t)) && t@ == key_text(k)
            },
        },
{
    let pk = match extract_ed25519_pubkey(cert) {
        Some(k) => k,
        None => return Err(PeerCertError::NotEd25519),
    };
    if let Err(e) = check_ed25519_key(&pk) {
        return Err(PeerCertError::InvalidKey(e));
    }
    let text = crate::identity::b64_encode_exec(&pk);
    let mut i: usize = 0;
    while i < peer_keys.len()
        invariant
            i <= peer_keys@.len(),
            text@ == key_text(pk@),
            ed25519_valid_key(pk@),
            key_scan(cert@, 0) == Some(pk@),
            forall|j: int| 0 <= j < i ==> !#[trigger] key_is(peer_keys@[j], text@),
        decreases peer_keys@.len() - i,
    {
        let hit = match &peer_keys[i] {
            Some(t) => str_eq(t.as_str(), text.as_str()),
            None => false,
        };
        if hit {
            assert(key_is(peer_keys@[i as int], key_text(pk@)));
            assert(paired_key(peer_keys@, key_text(pk@)));
            return Ok(());
        }
        i += 1;
    }
    Err(PeerCertError::NotPaired(text))
}

/// The fixed PKCS#8 prefix of an Ed25519 private key.
pub open spec fn pkcs8_prefix() -> Seq<u8> {
    seq![0x30u8, 0x2eu8, 0x02u8, 0x01u8, 0x00u8, 0x30u8, 0x05u8, 0x06u8, 0x03u8, 0x2bu8, 0x65u8, 0x70u8, 0x04u8, 0x22u8, 0x04u8, 0x20u8]
}

/// The PKCS#8 DER encoding of an Ed25519 secret key, as the certificate
/// builder takes it: the fixed 16-byte prefix, then the 32 secret bytes.
pub fn ed25519_pkcs8_der(secret: &[u8; 32]) -> (der: Vec<u8>)
    ensures
        der@ == pkcs8_prefix() + secret@,
{
    let mut der: Vec<u8> = vec![0x30, 0x2e, 0x02, 0x01, 0x00, 0x30, 0x05, 0x06, 0x03, 0x2b, 0x65, 0x70, 0x04, 0x22, 0x04, 0x20];
    assert(der@ =~= pkcs8_prefix());
    let mut i: usize = 0;
    while i < 32
        invariant
            i <= 32,
            der@ == pkcs8_prefix() + secret@.take(i as int),
        decreases 32 - i,
    {
        der.push(secret[i]);
        assert(der@ =~= pkcs8_prefix() + secret@.take(i + 1));
        i += 1;
    }
    assert(secret@.take(32) =~= secret@);
    der
}

/// The longest header line a QUIC stream may open with, in bytes.
pub const MAX_HEADER_BYTES: usize = 4096;

/// What one more byte of a stream's header line does.
#[derive(Debug, Clone, PartialEq, Eq)]
pub enum HeaderStep {
    /// Keep reading.
    More,
    /// The line is complete (without its `\n`).
    Line(Vec<u8>),
    /// The line grew past the limit; the stream is dropped.
    TooLong,
}

/// The header line of an incoming QUIC stream, read byte by byte.
#[derive(Debug)]
pub struct HeaderLine {
    bytes: Vec<u8>,
}

impl View for HeaderLine {
    type V = Seq<u8>;

    closed spec fn view(&self) -> Seq<u8> {
        self.bytes@
    }
}

impl HeaderLine {
    /// Nothing read yet.
    pub fn new() -> (h: Self)
        ensures
            h@ == Seq::<u8>::empty(),
    {
        HeaderLine { bytes: Vec::new() }
    }

    /// Takes the next byte: a newline completes the line; any other byte
    /// is kept, and the line is refused once it holds more than
    /// `MAX_HEADER_BYTES` bytes.
    pub fn push(&mut self, b: u8) -> (step: HeaderStep)
        requires
            old(self)@.len() <= MAX_HEADER_BYTES,
        ensures
            b == 10 ==> (step matches HeaderStep::Line(l) && l@ == old(self)@),
            b != 10 ==> final(self)@ == old(self)@.push(b) && if old(self)@.len() + 1 > MAX_HEADER_BYTES {
                step == HeaderStep::TooLong
            } else {
                step == HeaderStep::More
            },
            step is More ==> final(self)@.len() <= MAX_HEADER_BYTES,
    {
        if b == 10 {
            let mut line: Vec<u8> = Vec::new();
            std::mem::swap(&mut line, &mut self.bytes);
            return HeaderStep::Line(line);
        }
        self.bytes.push(b);
        if self.bytes.len() > MAX_HEADER_BYTES {
            HeaderStep::TooLong
        } else {
            HeaderStep::More
        }
    }
}

/// The only stream kind the node serves over QUIC.
pub fn is_run_stream(kind: &str) -> (r: bool)
    ensures
        r == (kind@ == "run"@),
{
    str_eq(kind, "run")
}

} // verus!
