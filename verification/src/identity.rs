//! Per-node Ed25519 identity and signed requests.
//!
//! The keypair is the stable name of this daemon. Requests between paired
//! peers carry an `X-Unhosted-Auth` header `<pubkey>:<unix_ts>:<sig>`, where
//! the signature covers `<ts>\n<body>` and the pubkey and signature are
//! base64 (standard alphabet, no padding). Ed25519 comes from
//! `ed25519-dalek` and base64 from the `base64` crate; Ed25519's results
//! are named by spec functions below, base64 is spelled out.

use vstd::prelude::*;
use vstd::string::StringSliceAdditionalSpecFns;
use crate::clock::unix_now_secs_checked;
use crate::text::{chars_of, decimal, parse_uint, parse_uint_exec, push_char,
    push_str, push_u64, string_from_chars};

verus! {

/// The Ed25519 public key of a 32-byte secret.
pub uninterp spec fn ed25519_public(secret: Seq<u8>) -> Seq<u8>;

/// The Ed25519 signature of `msg` under a 32-byte secret.
pub uninterp spec fn ed25519_signature(secret: Seq<u8>, msg: Seq<u8>) -> Seq<u8>;

/// Whether the public key bytes are a valid key that accepts `sig` on `msg`.
pub uninterp spec fn ed25519_accepts(public: Seq<u8>, msg: Seq<u8>, sig: Seq<u8>) -> bool;

/// The base64 digit for a 6-bit value: `A-Z`, `a-z`, `0-9`, then `+` and
/// `/` (standard) or `-` and `_` (URL-safe).
pub open spec fn b64_digit(v: nat, url_safe: bool) -> char {
    if v < 26 {
        (('A' as u32) + v) as char
    } else if v < 52 {
        (('a' as u32) + (v - 26)) as char
    } else if v < 62 {
        (('0' as u32) + (v - 52)) as char
    } else if v == 62 {
        if url_safe {
            '-'
        } else {
            '+'
        }
    } else if url_safe {
        '_'
    } else {
        '/'
    }
}

/// Base64 text without padding: each group of three bytes becomes four
/// digits; a last group of one or two bytes becomes two or three.
pub open spec fn b64_text(b: Seq<u8>, url_safe: bool) -> Seq<char>
    decreases b.len(),
{
    if b.len() == 0 {
        Seq::empty()
    } else if b.len() == 1 {
        seq![b64_digit((b[0] / 4) as nat, url_safe), b64_digit(((b[0] % 4) * 16) as nat, url_safe)]
    } else if b.len() == 2 {
        seq![
            b64_digit((b[0] / 4) as nat, url_safe),
            b64_digit(((b[0] % 4) * 16 + b[1] / 16) as nat, url_safe),
            b64_digit(((b[1] % 16) * 4) as nat, url_safe),
        ]
    } else {
        seq![
            b64_digit((b[0] / 4) as nat, url_safe),
            b64_digit(((b[0] % 4) * 16 + b[1] / 16) as nat, url_safe),
            b64_digit(((b[1] % 16) * 4 + b[2] / 64) as nat, url_safe),
            b64_digit((b[2] % 64) as nat, url_safe),
        ] + b64_text(b.subrange(3, b.len() as int), url_safe)
    }
}

/// Standard base64 (no padding) text of some bytes.
pub open spec fn b64_encode(bytes: Seq<u8>) -> Seq<char> {
    b64_text(bytes, false)
}

/// What standard base64 (no padding) decoding yields for some text: the
/// bytes whose encoding the text is (the crate accepts no padding and no
/// stray trailing bits, so only canonical text decodes).
pub open spec fn b64_decode(text: Seq<char>) -> Option<Seq<u8>> {
    if exists|b: Seq<u8>| #[trigger] b64_text(b, false) == text {
        Some(choose|b: Seq<u8>| #[trigger] b64_text(b, false) == text)
    } else {
        None
    }
}

proof fn lemma_b64_digit_code(v: nat, url_safe: bool)
    requires
        v < 64,
    ensures
        b64_digit(v, url_safe) as u32 == if v < 26 {
            65 + v as int
        } else if v < 52 {
            97 + v - 26
        } else if v < 62 {
            48 + v - 52
        } else if v == 62 {
            if url_safe {
                45int
            } else {
                43int
            }
        } else if url_safe {
            95int
        } else {
            47int
        },
{
}

proof fn lemma_b64_digit_injective(v: nat, w: nat, url_safe: bool)
    requires
        v < 64,
        w < 64,
        b64_digit(v, url_safe) == b64_digit(w, url_safe),
    ensures
        v == w,
{
    lemma_b64_digit_code(v, url_safe);
    lemma_b64_digit_code(w, url_safe);
}

proof fn lemma_b64_text_len(b: Seq<u8>, url_safe: bool)
    ensures
        b64_text(b, url_safe).len() == 4 * (b.len() / 3) + if b.len() % 3 == 0 {
            0int
        } else {
            (b.len() % 3 + 1) as int
        },
    decreases b.len(),
{
    if b.len() >= 3 {
        lemma_b64_text_len(b.subrange(3, b.len() as int), url_safe);
    }
}

proof fn lemma_b64_text_injective(a: Seq<u8>, b: Seq<u8>, url_safe: bool)
    requires
        b64_text(a, url_safe) == b64_text(b, url_safe),
    ensures
        a == b,
    decreases a.len(),
{
    let t = b64_text(a, url_safe);
    lemma_b64_text_len(a, url_safe);
    lemma_b64_text_len(b, url_safe);
    assert(a.len() == b.len()) by {
        assert(a.len() == 3 * (a.len() / 3) + a.len() % 3);
        assert(b.len() == 3 * (b.len() / 3) + b.len() % 3);
    }
    if a.len() == 0 {
        assert(a =~= b);
    } else {
        let n = a.len();
        // The first digits name the first bytes.
        assert(t[0] == b64_digit((a[0] / 4) as nat, url_safe));
        assert(t[0] == b64_digit((b[0] / 4) as nat, url_safe));
        lemma_b64_digit_injective((a[0] / 4) as nat, (b[0] / 4) as nat, url_safe);
        if n == 1 {
            lemma_b64_digit_injective(((a[0] % 4) * 16) as nat, ((b[0] % 4) * 16) as nat, url_safe);
            assert(a[0] == b[0]);
            assert(a =~= b);
        } else {
            assert(t[1] == b64_digit(((a[0] % 4) * 16 + a[1] / 16) as nat, url_safe));
            assert(t[1] == b64_digit(((b[0] % 4) * 16 + b[1] / 16) as nat, url_safe));
            lemma_b64_digit_injective(
                ((a[0] % 4) * 16 + a[1] / 16) as nat,
                ((b[0] % 4) * 16 + b[1] / 16) as nat,
                url_safe,
            );
            assert(a[0] % 4 == b[0] % 4 && a[1] / 16 == b[1] / 16);
            assert(a[0] == b[0]);
            if n == 2 {
                lemma_b64_digit_injective(((a[1] % 16) * 4) as nat, ((b[1] % 16) * 4) as nat, url_safe);
                assert(a[1] == b[1]);
                assert(a =~= b);
            } else {
                assert(t[2] == b64_digit(((a[1] % 16) * 4 + a[2] / 64) as nat, url_safe));
                assert(t[2] == b64_digit(((b[1] % 16) * 4 + b[2] / 64) as nat, url_safe));
                assert(t[3] == b64_digit((a[2] % 64) as nat, url_safe));
                assert(t[3] == b64_digit((b[2] % 64) as nat, url_safe));
                lemma_b64_digit_injective(
                    ((a[1] % 16) * 4 + a[2] / 64) as nat,
                    ((b[1] % 16) * 4 + b[2] / 64) as nat,
                    url_safe,
                );
                lemma_b64_digit_injective((a[2] % 64) as nat, (b[2] % 64) as nat, url_safe);
                assert(a[1] % 16 == b[1] % 16 && a[2] / 64 == b[2] / 64);
                assert(a[1] == b[1]);
                assert(a[2] == b[2]);
                let ra = a.subrange(3, n as int);
                let rb = b.subrange(3, n as int);
                assert(b64_text(ra, url_safe) =~= t.subrange(4, t.len() as int));
                assert(b64_text(rb, url_safe) =~= t.subrange(4, t.len() as int));
                lemma_b64_text_injective(ra, rb, url_safe);
                assert(a =~= seq![a[0], a[1], a[2]] + ra);
                assert(b =~= seq![b[0], b[1], b[2]] + rb);
            }
        }
    }
}

/// Decoding undoes encoding: standard base64 text of some bytes decodes
/// to exactly those bytes.
pub proof fn b64_round_trips(b: Seq<u8>)
    ensures
        b64_decode(b64_encode(b)) == Some(b),
{
    let t = b64_text(b, false);
    assert(b64_text(b, false) == t);
    let c = choose|x: Seq<u8>| #[trigger] b64_text(x, false) == t;
    lemma_b64_text_injective(c, b, false);
}

/// A character of the standard base64 alphabet.
pub open spec fn is_b64_char(c: char) -> bool {
    ('A' <= c && c <= 'Z') || ('a' <= c && c <= 'z') || ('0' <= c && c <= '9') || c == '+' || c
        == '/'
}

/// `SigningKey::from_bytes(secret).verifying_key().to_bytes()`: the
/// public key of a secret, named by `ed25519_public`.
#[verifier::external_body]
fn ed25519_public_key(secret: &[u8; 32]) -> (pk: [u8; 32])
    ensures
        pk@ == ed25519_public(secret@),
{
    ed25519_dalek::SigningKey::from_bytes(secret).verifying_key().to_bytes()
}

/// `Signer::sign` with `SigningKey::from_bytes(secret)`: an Ed25519
/// signature, named by `ed25519_signature` (Ed25519 signing is
/// deterministic). The signature verifies under the secret's public key.
#[verifier::external_body]
fn ed25519_sign(secret: &[u8; 32], msg: &[u8]) -> (sig: [u8; 64])
    ensures
        sig@ == ed25519_signature(secret@, msg@),
        ed25519_accepts(ed25519_public(secret@), msg@, sig@),
{
    let key = ed25519_dalek::SigningKey::from_bytes(secret);
    ed25519_dalek::Signer::sign(&key, msg).to_bytes()
}

/// `VerifyingKey::from_bytes` then `Verifier::verify`: whether the key is
/// valid and accepts the signature.
#[verifier::external_body]
fn ed25519_verify(pk: &[u8; 32], msg: &[u8], sig: &[u8; 64]) -> (ok: bool)
    ensures
        ok == ed25519_accepts(pk@, msg@, sig@),
{
    let Ok(key) = ed25519_dalek::VerifyingKey::from_bytes(pk) else {
        return false;
    };
    let signature = ed25519_dalek::Signature::from_bytes(sig);
    ed25519_dalek::Verifier::verify(&key, msg, &signature).is_ok()
}

/// `STANDARD_NO_PAD.encode`: base64 text of the bytes, as `b64_encode`
/// spells it out; it uses only the standard alphabet.
#[verifier::external_body]
pub(crate) fn b64_encode_exec(bytes: &[u8]) -> (s: String)
    ensures
        s@ == b64_encode(bytes@),
        forall|i: int| 0 <= i < s@.len() ==> is_b64_char(#[trigger] s@[i]),
{
    base64::Engine::encode(&base64::engine::general_purpose::STANDARD_NO_PAD, bytes)
}

/// `STANDARD_NO_PAD.decode`: the bytes of base64 text, or `None` unless
/// the text is the canonical encoding of some bytes (as `b64_decode`
/// states).
#[verifier::external_body]
fn b64_decode_exec(text: &str) -> (r: Option<Vec<u8>>)
    ensures
        match b64_decode(text@) {
            Some(b) => r matches Some(v) && v@ == b,
            None => r is None,
        },
{
    base64::Engine::decode(&base64::engine::general_purpose::STANDARD_NO_PAD, text.as_bytes()).ok()
}

/// 32 bytes from the operating system's random source (`rand::rngs::OsRng`).
/// Nothing is stated about the bytes.
#[verifier::external_body]
fn random_secret() -> [u8; 32] {
    let mut buf = [0u8; 32];
    rand::RngCore::fill_bytes(&mut rand::rngs::OsRng, &mut buf);
    buf
}

/// In-memory identity: the 32-byte Ed25519 secret.
#[derive(Clone)]
pub struct Identity {
    secret: [u8; 32],
}

/// Whether a base64 public key and signature verify `msg`.
pub open spec fn verify_spec(pubkey_b64: Seq<char>, msg: Seq<u8>, sig_b64: Seq<char>) -> bool {
    match (b64_decode(pubkey_b64), b64_decode(sig_b64)) {
        (Some(pk), Some(sig)) => pk.len() == 32 && sig.len() == 64 && ed25519_accepts(pk, msg, sig),
        _ => false,
    }
}

/// The position of the first `:` at or after `from`.
pub open spec fn colon_from(h: Seq<char>, from: int) -> Option<int>
    decreases h.len() - from,
{
    if from < 0 || from >= h.len() {
        None
    } else if h[from] == ':' {
        Some(from)
    } else {
        colon_from(h, from + 1)
    }
}

/// `splitn(3, ':')` with all three parts present: the text before the
/// first colon, between the first and second, and after the second.
pub open spec fn split3(h: Seq<char>) -> Option<(Seq<char>, Seq<char>, Seq<char>)> {
    match colon_from(h, 0) {
        None => None,
        Some(i) => match colon_from(h, i + 1) {
            None => None,
            Some(j) => Some((h.subrange(0, i), h.subrange(i + 1, j), h.subrange(j + 1, h.len() as int))),
        },
    }
}

/// The bytes a request signature covers: the timestamp text, a newline,
/// then the body.
pub open spec fn signed_message(ts_text: Seq<char>, body: Seq<u8>) -> Seq<u8> {
    vstd::utf8::encode_utf8(ts_text) + seq![10u8] + body
}

/// The verdict on an `X-Unhosted-Auth` header at time `now` (`None` when
/// the clock reads before the epoch): the sender's pubkey when the header
/// splits into three parts, the timestamp parses, lies within 300 seconds
/// of now, and the signature verifies.
pub open spec fn verify_request_spec(header: Seq<char>, body: Seq<u8>, now: Option<u64>) -> Option<
    Seq<char>,
> {
    match split3(header) {
        None => None,
        Some((pk, ts_text, sig)) => match parse_uint(ts_text, u64::MAX as nat) {
            None => None,
            Some(ts) => match now {
                None => None,
                Some(n) => if (if n >= ts {
                    n - ts
                } else {
                    ts - n
                }) > 300 {
                    None
                } else if verify_spec(pk, signed_message(ts_text, body), sig) {
                    Some(pk)
                } else {
                    None
                },
            },
        },
    }
}

/// The header `sign_request` produces for a secret, body and timestamp.
pub open spec fn signed_header(secret: Seq<u8>, body: Seq<u8>, ts: u64) -> Seq<char> {
    b64_encode(ed25519_public(secret)) + seq![':'] + decimal(ts as nat) + seq![':'] + b64_encode(
        ed25519_signature(secret, signed_message(decimal(ts as nat), body)),
    )
}

fn colon_at_or_after(h: &[char], from: usize) -> (r: Option<usize>)
    ensures
        match colon_from(h@, from as int) {
            Some(i) => r == Some(i as usize),
            None => r is None,
        },
    decreases h@.len() - from,
{
    if from >= h.len() {
        return None;
    }
    if h[from] == ':' {
        return Some(from);
    }
    colon_at_or_after(h, from + 1)
}

/// Splits a header into its three colon-separated parts (`splitn(3, ':')`
/// with all three present).
pub fn split3_exec(h: &[char]) -> (r: Option<(String, String, String)>)
    ensures
        match split3(h@) {
            Some((a, b, c)) => r matches Some((x, y, z)) && x@ == a && y@ == b && z@ == c,
            None => r is None,
        },
{
    proof {
        lemma_colon_from_range(h@, 0);
    }
    let i = match colon_at_or_after(h, 0) {
        Some(i) => i,
        None => {
            return None;
        },
    };
    let n = h.len();
    assert(i < n);
    proof {
        lemma_colon_from_range(h@, i + 1);
    }
    let j = match colon_at_or_after(h, i + 1) {
        Some(j) => j,
        None => {
            return None;
        },
    };
    assert(i + 1 <= j < h@.len());
    let pk = subrange_string(h, 0, i);
    let ts_text = subrange_string(h, i + 1, j);
    let sig = subrange_string(h, j + 1, h.len());
    Some((pk, ts_text, sig))
}

fn subrange_string(h: &[char], a: usize, b: usize) -> (s: String)
    requires
        a <= b <= h@.len(),
    ensures
        s@ == h@.subrange(a as int, b as int),
{
    let mut v: Vec<char> = Vec::new();
    let mut i = a;
    while i < b
        invariant
            a <= i <= b <= h@.len(),
            v@ == h@.subrange(a as int, i as int),
        decreases b - i,
    {
        v.push(h[i]);
        assert(h@.subrange(a as int, i + 1) =~= h@.subrange(a as int, i as int).push(h@[i as int]));
        i += 1;
    }
    string_from_chars(v.as_slice())
}

proof fn lemma_colon_from_range(h: Seq<char>, from: int)
    requires
        0 <= from,
    ensures
        colon_from(h, from) matches Some(i) ==> from <= i < h.len() && h[i] == ':' && forall|k: int|
            from <= k < i ==> h[k] != ':',
        colon_from(h, from) is None ==> forall|k: int| from <= k < h.len() ==> h[k] != ':',
    decreases h.len() - from,
{
    if from >= 0 && from < h.len() && h[from] != ':' {
        lemma_colon_from_range(h, from + 1);
    }
}

fn message_bytes(ts_text: &str, body: &[u8]) -> (m: Vec<u8>)
    ensures
        m@ == ts_text.spec_bytes() + seq![10u8] + body@,
{
    let mut m: Vec<u8> = Vec::new();
    let t = ts_text.as_bytes();
    let mut i: usize = 0;
    while i < t.len()
        invariant
            i <= t@.len(),
            m@ == t@.take(i as int),
        decreases t@.len() - i,
    {
        m.push(t[i]);
        assert(t@.take(i + 1) =~= t@.take(i as int).push(t@[i as int]));
        i += 1;
    }
    assert(t@.take(t@.len() as int) =~= t@);
    m.push(10u8);
    let mut j: usize = 0;
    let ghost base = m@;
    while j < body.len()
        invariant
            j <= body@.len(),
            base == t@ + seq![10u8],
            m@ == base + body@.take(j as int),
        decreases body@.len() - j,
    {
        m.push(body[j]);
        assert(body@.take(j + 1) =~= body@.take(j as int).push(body@[j as int]));
        j += 1;
    }
    assert(body@.take(body@.len() as int) =~= body@);
    m
}

impl Identity {
    /// The secret bytes, as a sequence.
    pub closed spec fn secret_view(&self) -> Seq<u8> {
        self.secret@
    }

    /// An identity from stored secret bytes.
    pub fn from_secret(secret: [u8; 32]) -> (id: Self)
        ensures
            id.secret_view() == secret@,
    {
        Identity { secret }
    }

    /// A fresh identity from the operating system's random source.
    pub fn generate() -> (id: Self)
        ensures
            id.secret_view().len() == 32,
    {
        Identity { secret: random_secret() }
    }

    /// The public key, base64 (standard, no padding).
    pub fn public_b64(&self) -> (s: String)
        ensures
            s@ == b64_encode(ed25519_public(self.secret_view())),
            b64_decode(s@) == Some(ed25519_public(self.secret_view())),
            ed25519_public(self.secret_view()).len() == 32,
    {
        let pk = ed25519_public_key(&self.secret);
        proof {
            b64_round_trips(pk@);
        }
        b64_encode_exec(&pk)
    }

    /// The secret, base64 (standard, no padding), as it is stored on disk.
    pub fn secret_b64(&self) -> (s: String)
        ensures
            s@ == b64_encode(self.secret_view()),
    {
        b64_encode_exec(&self.secret)
    }

    /// An identity from its stored base64 secret; `None` when the text is
    /// not base64 or does not hold exactly 32 bytes.
    pub fn from_secret_b64(text: &str) -> (r: Option<Self>)
        ensures
            match b64_decode(text@) {
                Some(b) => if b.len() == 32 {
                    r matches Some(id) && id.secret_view() == b
                } else {
                    r is None
                },
                None => r is None,
            },
    {
        let bytes = b64_decode_exec(text)?;
        if bytes.len() != 32 {
            return None;
        }
        let mut secret = [0u8; 32];
        let mut i: usize = 0;
        while i < 32
            invariant
                bytes@.len() == 32,
                i <= 32,
                secret@.len() == 32,
                forall|j: int| 0 <= j < i ==> secret@[j] == bytes@[j],
            decreases 32 - i,
        {
            secret.set(i, bytes[i]);
            i += 1;
        }
        assert(secret@ =~= bytes@);
        Some(Identity { secret })
    }

    /// The raw 32-byte secret.
    pub fn secret_bytes(&self) -> (r: [u8; 32])
        ensures
            r@ == self.secret_view(),
    {
        self.secret
    }

    /// Signs a message; the signature in base64.
    pub fn sign(&self, message: &[u8]) -> (s: String)
        ensures
            s@ == b64_encode(ed25519_signature(self.secret_view(), message@)),
            verify_spec(b64_encode(ed25519_public(self.secret_view())), message@, s@),
    {
        let pk_text = self.public_b64();
        let sig = ed25519_sign(&self.secret, message);
        let s = b64_encode_exec(&sig);
        proof {
            b64_round_trips(sig@);
        }
        assert(pk_text@ == b64_encode(ed25519_public(self.secret_view())));
        s
    }

    /// The `X-Unhosted-Auth` header for a body, signed at timestamp `ts`.
    /// Verifying it at any time within 300 seconds of `ts` accepts it and
    /// names this identity's public key.
    pub fn sign_request_at(&self, body: &[u8], ts: u64) -> (h: String)
        ensures
            h@ == signed_header(self.secret_view(), body@, ts),
            forall|now: u64|
                (if now >= ts {
                    now - ts
                } else {
                    ts - now
                }) <= 300 ==> #[trigger] verify_request_spec(h@, body@, Some(now)) == Some(
                    b64_encode(ed25519_public(self.secret_view())),
                ),
    {
        let mut t = String::new();
        push_u64(&mut t, ts);
        assert(t@ =~= decimal(ts as nat));
        let msg = message_bytes(t.as_str(), body);
        let pk_raw = ed25519_public_key(&self.secret);
        let sig_raw = ed25519_sign(&self.secret, msg.as_slice());
        let sig = b64_encode_exec(&sig_raw);
        let mut h = b64_encode_exec(&pk_raw);
        proof {
            b64_round_trips(pk_raw@);
            b64_round_trips(sig_raw@);
        }
        let ghost pk_text = h@;
        push_char(&mut h, ':');
        push_str(&mut h, t.as_str());
        push_char(&mut h, ':');
        push_str(&mut h, sig.as_str());
        assert(h@ =~= signed_header(self.secret_view(), body@, ts));
        proof {
            assert forall|now: u64|
                (if now >= ts {
                    now - ts
                } else {
                    ts - now
                }) <= 300 implies #[trigger] verify_request_spec(h@, body@, Some(now)) == Some(
                pk_text,
            ) by {
                lemma_signed_request_verifies(h@, pk_text, pk_raw@, t@, sig@, sig_raw@, body@, ts, now);
            }
        }
        h
    }

    /// The `X-Unhosted-Auth` header for a body, signed now.
    pub fn sign_request(&self, body: &[u8]) -> (h: String)
        ensures
            exists|ts: u64| h@ == signed_header(self.secret_view(), body@, ts),
    {
        let ts = crate::clock::unix_now_secs();
        self.sign_request_at(body, ts)
    }

    /// Verifies a base64 signature against a base64 public key and a message.
    pub fn verify(pubkey_b64: &str, message: &[u8], sig_b64: &str) -> (ok: bool)
        ensures
            ok == verify_spec(pubkey_b64@, message@, sig_b64@),
    {
        let Some(pk_bytes) = b64_decode_exec(pubkey_b64) else {
            return false;
        };
        if pk_bytes.len() != 32 {
            return false;
        }
        let Some(sig_bytes) = b64_decode_exec(sig_b64) else {
            return false;
        };
        if sig_bytes.len() != 64 {
            return false;
        }
        let mut pk = [0u8; 32];
        let mut i: usize = 0;
        while i < 32
            invariant
                pk_bytes@.len() == 32,
                i <= 32,
                pk@.len() == 32,
                forall|j: int| 0 <= j < i ==> pk@[j] == pk_bytes@[j],
            decreases 32 - i,
        {
            pk.set(i, pk_bytes[i]);
            i += 1;
        }
        let mut sig = [0u8; 64];
        let mut k: usize = 0;
        while k < 64
            invariant
                sig_bytes@.len() == 64,
                k <= 64,
                sig@.len() == 64,
                forall|j: int| 0 <= j < k ==> sig@[j] == sig_bytes@[j],
            decreases 64 - k,
        {
            sig.set(k, sig_bytes[k]);
            k += 1;
        }
        assert(pk@ =~= pk_bytes@);
        assert(sig@ =~= sig_bytes@);
        ed25519_verify(&pk, message, &sig)
    }

    /// Verifies an `X-Unhosted-Auth` header at time `now` (seconds since the
    /// epoch, `None` when the clock reads before it). Returns the sender's
    /// pubkey on success.
    pub fn verify_request_at(header: &str, body: &[u8], now: Option<u64>) -> (r: Option<String>)
        ensures
            match verify_request_spec(header@, body@, now) {
                Some(pk) => r matches Some(s) && s@ == pk,
                None => r is None,
            },
    {
        let h = chars_of(header);
        let (pk, ts_text, sig) = split3_exec(h.as_slice())?;
        let ts_chars = chars_of(ts_text.as_str());
        let ts = parse_uint_exec(ts_chars.as_slice(), u64::MAX)?;
        let n = now?;
        let skew = if n >= ts {
            n - ts
        } else {
            ts - n
        };
        if skew > 300 {
            return None;
        }
        let msg = message_bytes(ts_text.as_str(), body);
        if Self::verify(pk.as_str(), msg.as_slice(), sig.as_str()) {
            Some(pk)
        } else {
            None
        }
    }

    /// Verifies an `X-Unhosted-Auth` header against the system clock.
    pub fn verify_request(header: &str, body: &[u8]) -> (r: Option<String>)
        ensures
            exists|now: Option<u64>|
                match #[trigger] verify_request_spec(header@, body@, now) {
                    Some(pk) => r matches Some(s) && s@ == pk,
                    None => r is None,
                },
    {
        let now = unix_now_secs_checked();
        Self::verify_request_at(header, body, now)
    }
}

proof fn lemma_signed_request_verifies(
    h: Seq<char>,
    pk: Seq<char>,
    pk_raw: Seq<u8>,
    t: Seq<char>,
    sig: Seq<char>,
    sig_raw: Seq<u8>,
    body: Seq<u8>,
    ts: u64,
    now: u64,
)
    requires
        h == pk + seq![':'] + t + seq![':'] + sig,
        t == decimal(ts as nat),
        forall|c: int| 0 <= c < pk.len() ==> is_b64_char(#[trigger] pk[c]),
        b64_decode(pk) == Some(pk_raw),
        b64_decode(sig) == Some(sig_raw),
        pk_raw.len() == 32,
        sig_raw.len() == 64,
        ed25519_accepts(pk_raw, signed_message(t, body), sig_raw),
        (if now >= ts {
            now - ts
        } else {
            ts - now
        }) <= 300,
    ensures
        verify_request_spec(h, body, Some(now)) == Some(pk),
{
    crate::text::lemma_decimal_parses(ts as nat);
    assert forall|k: int| 0 <= k < pk.len() implies h[k] != ':' by {
        assert(h[k] == pk[k]);
        assert(is_b64_char(pk[k]));
    }
    assert(h[pk.len() as int] == ':');
    lemma_colon_first(h, 0, pk.len() as int);
    let j: int = (pk.len() + 1 + t.len()) as int;
    let a: int = (pk.len() + 1) as int;
    assert forall|k: int| a <= k < j implies h[k] != ':' by {
        assert(h[k] == t[k - pk.len() - 1]);
        assert('0' <= t[k - pk.len() - 1] <= '9');
    }
    assert(h[j] == ':');
    lemma_colon_first(h, a, j);
    assert(h.subrange(0, pk.len() as int) =~= pk);
    assert(h.subrange(a, j) =~= t);
    assert(h.subrange(j + 1, h.len() as int) =~= sig);
    assert(t.len() > 0 && t[0] != '+');
    assert(parse_uint(t, u64::MAX as nat) == Some(ts as nat));
}

proof fn lemma_colon_first(h: Seq<char>, from: int, i: int)
    requires
        0 <= from <= i < h.len(),
        h[i] == ':',
        forall|k: int| from <= k < i ==> h[k] != ':',
    ensures
        colon_from(h, from) == Some(i),
    decreases i - from,
{
    if from < i {
        lemma_colon_first(h, from + 1, i);
    }
}

} // verus!
