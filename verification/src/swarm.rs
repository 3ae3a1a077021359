//! Content-addressed model distribution: manifest and chunk verification.
//!
//! A GGUF file is identified by the SHA-256 of its whole content and
//! carries a per-chunk SHA-256 list, so bytes fetched from any source can
//! be trusted by the math rather than by the source. SHA-256 itself comes
//! from the `sha2` crate; its result is named by [`sha256_of`].

use vstd::prelude::*;
use crate::text::{chars_of, hex_byte, lemma_hex_of_len, hex_chars, hex_digit, hex_of, push_str, str_eq,
    string_from_chars};

verus! {

/// Fixed chunk size: 4 MiB.
pub const CHUNK_SIZE: usize = 4 * 1024 * 1024;

/// The prefix every rendered digest carries.
pub const DIGEST_PREFIX: &'static str = "sha256:";

/// What SHA-256 (`sha2::Sha256`) yields for the given bytes.
pub uninterp spec fn sha256_of(data: Seq<u8>) -> Seq<u8>;

/// SHA-256 of a whole byte slice, raw 32 bytes (`sha2::Sha256::digest`).
/// The result is the value named by `sha256_of`.
#[verifier::external_body]
pub(crate) fn sha256_bytes(data: &[u8]) -> (r: [u8; 32])
    ensures
        r@ == sha256_of(data@),
{
    <sha2::Sha256 as sha2::Digest>::digest(data).into()
}

/// Number of `cs`-sized chunks (the last possibly short) in `len` bytes.
pub open spec fn chunk_count_for(len: nat, cs: nat) -> nat {
    if len == 0 || cs == 0 {
        0
    } else {
        ((len - 1) as nat / cs + 1) as nat
    }
}

/// Chunk `i` of `data` at chunk size `cs`.
pub open spec fn chunk_of(data: Seq<u8>, cs: nat, i: int) -> Seq<u8> {
    let start = i * cs;
    let end = if (i + 1) * cs <= data.len() {
        (i + 1) * cs
    } else {
        data.len() as int
    };
    data.subrange(start, end)
}

proof fn lemma_chunk_count_step(len: nat, i: nat)
    requires
        i * 4194304 < len,
    ensures
        i < chunk_count_for(len, 4194304),
        (i + 1 < chunk_count_for(len, 4194304)) <==> ((i + 1) * 4194304 < len),
{
    let c = chunk_count_for(len, 4194304);
    assert(c == (len - 1) as nat / 4194304 + 1);
    assert((i < c) && ((i + 1 < c) <==> ((i + 1) * 4194304 < len))) by (nonlinear_arith)
        requires
            i * 4194304 < len,
            c == (len - 1) as nat / 4194304 + 1,
    ;
}

/// The SHA-256 of every chunk of `data`, in file order.
pub open spec fn chunk_hashes(data: Seq<u8>, cs: nat) -> Seq<Seq<u8>> {
    Seq::new(chunk_count_for(data.len(), cs), |i: int| sha256_of(chunk_of(data, cs, i)))
}

/// The rendered form of a raw digest: `sha256:` and 64 lowercase hex digits.
pub open spec fn digest_text(raw: Seq<u8>) -> Seq<char> {
    "sha256:"@ + hex_of(raw)
}

/// A lowercase hexadecimal digit.
pub open spec fn is_lower_hex(c: char) -> bool {
    ('0' <= c && c <= '9') || ('a' <= c && c <= 'f')
}

/// A well-formed `sha256:<64 lowercase hex>` digest.
pub open spec fn valid_digest(d: Seq<char>) -> bool {
    &&& d.len() == 71
    &&& d.subrange(0, 7) == "sha256:"@
    &&& forall|i: int| 7 <= i < 71 ==> is_lower_hex(#[trigger] d[i])
}

/// A model's content-addressed manifest.
#[derive(Clone, Debug, PartialEq, Eq)]
pub struct ModelManifest {
    /// `sha256:<hex>` of the entire file.
    pub digest: String,
    /// Total file size in bytes.
    pub size_bytes: u64,
    /// Chunk size the hashes were computed at.
    pub chunk_size: u32,
    /// SHA-256 of each chunk, in file order.
    pub chunks: Vec<[u8; 32]>,
}

impl ModelManifest {
    /// The chunk hashes as byte sequences.
    pub open spec fn chunk_views(&self) -> Seq<Seq<u8>> {
        self.chunks@.map_values(|c: [u8; 32]| c@)
    }

    /// Builds a manifest by hashing `data` in `CHUNK_SIZE` pieces.
    pub fn from_bytes(data: &[u8]) -> (m: Self)
        ensures
            m.digest@ == digest_text(sha256_of(data@)),
            m.size_bytes == data@.len(),
            m.chunk_size == CHUNK_SIZE,
            m.chunk_views() == chunk_hashes(data@, CHUNK_SIZE as nat),
    {
        let mut chunks: Vec<[u8; 32]> = Vec::new();
        let len = data.len();
        let ghost count = chunk_count_for(len as nat, CHUNK_SIZE as nat);
        let mut start: u128 = 0;
        let mut i: usize = 0;
        while start < len as u128
            invariant
                len == data@.len(),
                count == chunk_count_for(len as nat, CHUNK_SIZE as nat),
                start == i * CHUNK_SIZE,
                i <= count,
                (i < count) <==> (start < len),
                chunks@.len() == i,
                forall|j: int|
                    0 <= j < i ==> (#[trigger] chunks@[j])@ == sha256_of(
                        chunk_of(data@, CHUNK_SIZE as nat, j),
                    ),
            decreases count - i,
        {
            assert(CHUNK_SIZE == 4194304);
            let s = start as usize;
            let end = if len - s > CHUNK_SIZE {
                s + CHUNK_SIZE
            } else {
                len
            };
            let h = sha256_bytes(&data[s..end]);
            assert(data@.subrange(s as int, end as int) == chunk_of(
                data@,
                CHUNK_SIZE as nat,
                i as int,
            ));
            chunks.push(h);
            proof {
                lemma_chunk_count_step(len as nat, i as nat);
            }
            i += 1;
            start = start + CHUNK_SIZE as u128;
        }
        let raw = sha256_bytes(data);
        let m = ModelManifest {
            digest: format_digest(&raw),
            size_bytes: len as u64,
            chunk_size: CHUNK_SIZE as u32,
            chunks,
        };
        assert(m.chunk_views() =~= chunk_hashes(data@, CHUNK_SIZE as nat));
        m
    }

    /// Number of chunks this manifest describes.
    pub fn chunk_count(&self) -> (n: usize)
        ensures
            n == self.chunks@.len(),
    {
        self.chunks.len()
    }

    /// Verifies a single chunk's bytes against the expected hash at
    /// `index`; `false` for an out-of-range index.
    pub fn verify_chunk(&self, index: usize, bytes: &[u8]) -> (r: bool)
        ensures
            r == (index < self.chunks@.len() && sha256_of(bytes@) == self.chunks@[index as int]@),
    {
        if index >= self.chunks.len() {
            return false;
        }
        let got = sha256_bytes(bytes);
        digest_bytes_eq(&got, &self.chunks[index])
    }

    /// Verifies a reassembled file against the size and the whole-file
    /// digest.
    pub fn verify_whole(&self, data: &[u8]) -> (r: bool)
        ensures
            r == (data@.len() == self.size_bytes && digest_text(sha256_of(data@))
                == self.digest@),
    {
        if data.len() as u64 != self.size_bytes {
            return false;
        }
        let d = format_digest(&sha256_bytes(data));
        str_eq(d.as_str(), self.digest.as_str())
    }

    /// Whether this manifest's digest is exactly `digest`.
    pub fn has_digest(&self, digest: &str) -> (r: bool)
        ensures
            r == (self.digest@ == digest@),
    {
        str_eq(self.digest.as_str(), digest)
    }
}

fn digest_bytes_eq(a: &[u8; 32], b: &[u8; 32]) -> (r: bool)
    ensures
        r == (a@ == b@),
{
    let mut i: usize = 0;
    while i < 32
        invariant
            i <= 32,
            a@.len() == 32,
            b@.len() == 32,
            forall|j: int| 0 <= j < i ==> a@[j] == b@[j],
        decreases 32 - i,
    {
        if a[i] != b[i] {
            return false;
        }
        i += 1;
    }
    assert(a@ =~= b@);
    true
}

/// Renders a raw 32-byte digest as `sha256:<64 lowercase hex>`.
pub fn format_digest(raw: &[u8; 32]) -> (s: String)
    ensures
        s@ == digest_text(raw@),
{
    let mut s = String::new();
    push_str(&mut s, DIGEST_PREFIX);
    let hex = hex_chars(raw);
    let h = string_from_chars(hex.as_slice());
    push_str(&mut s, h.as_str());
    assert(s@ =~= digest_text(raw@));
    s
}

/// True when `digest` is a well-formed `sha256:<64 lowercase hex>` string.
pub fn is_valid_digest(digest: &str) -> (r: bool)
    ensures
        r == valid_digest(digest@),
{
    proof {
        reveal_strlit("sha256:");
    }
    let c = chars_of(digest);
    let p = chars_of("sha256:");
    if c.len() != 71 {
        return false;
    }
    let mut i: usize = 0;
    while i < 7
        invariant
            c@ == digest@,
            c@.len() == 71,
            p@ == "sha256:"@,
            p@.len() == 7,
            i <= 7,
            forall|j: int| 0 <= j < i ==> c@[j] == p@[j],
        decreases 7 - i,
    {
        if c[i] != p[i] {
            assert(c@.subrange(0, 7)[i as int] != "sha256:"@[i as int]);
            assert(c@.subrange(0, 7) != "sha256:"@);
            return false;
        }
        i += 1;
    }
    assert(c@.subrange(0, 7) =~= "sha256:"@);
    while i < 71
        invariant
            c@ == digest@,
            c@.len() == 71,
            7 <= i <= 71,
            forall|j: int| 7 <= j < i ==> is_lower_hex(#[trigger] c@[j]),
        decreases 71 - i,
    {
        let ch = c[i];
        if !(('0' <= ch && ch <= '9') || ('a' <= ch && ch <= 'f')) {
            assert(!is_lower_hex(c@[i as int]));
            return false;
        }
        i += 1;
    }
    true
}

proof fn lemma_hex_of_props(bytes: Seq<u8>)
    ensures
        hex_of(bytes).len() == 2 * bytes.len(),
        forall|i: int| 0 <= i < hex_of(bytes).len() ==> is_lower_hex(#[trigger] hex_of(bytes)[i]),
    decreases bytes.len(),
{
    if bytes.len() > 0 {
        lemma_hex_of_props(bytes.drop_last());
        let b = bytes.last();
        let prev = hex_of(bytes.drop_last());
        assert(hex_of(bytes) == prev + hex_byte(b));
        assert forall|i: int| 0 <= i < hex_of(bytes).len() implies is_lower_hex(
            #[trigger] hex_of(bytes)[i],
        ) by {
            if i >= prev.len() {
                let d: nat = if i == prev.len() {
                    (b / 16) as nat
                } else {
                    (b % 16) as nat
                };
                assert(hex_of(bytes)[i] == hex_digit(d));
            } else {
                assert(hex_of(bytes)[i] == prev[i]);
            }
        }
    }
}

/// Every digest produced by [`format_digest`] is well formed.
pub proof fn format_digest_is_valid(raw: Seq<u8>)
    requires
        raw.len() == 32,
    ensures
        valid_digest(digest_text(raw)),
{
    reveal_strlit("sha256:");
    lemma_hex_of_props(raw);
    let d = digest_text(raw);
    assert(d.subrange(0, 7) =~= "sha256:"@);
    assert forall|i: int| 7 <= i < 71 implies is_lower_hex(#[trigger] d[i]) by {
        assert(d[i] == hex_of(raw)[i - 7]);
    }
}

proof fn lemma_hex_digit_code(d: nat)
    requires
        d < 16,
    ensures
        hex_digit(d) as u32 == if d < 10 {
            48 + d
        } else {
            87 + d
        },
{
}

proof fn lemma_hex_byte_injective(x: u8, y: u8)
    requires
        hex_byte(x) == hex_byte(y),
    ensures
        x == y,
{
    assert(hex_byte(x)[0] == hex_byte(y)[0]);
    assert(hex_byte(x)[1] == hex_byte(y)[1]);
    lemma_hex_digit_code((x / 16) as nat);
    lemma_hex_digit_code((y / 16) as nat);
    lemma_hex_digit_code((x % 16) as nat);
    lemma_hex_digit_code((y % 16) as nat);
    assert(x / 16 == y / 16);
    assert(x % 16 == y % 16);
}

proof fn lemma_hex_of_injective(a: Seq<u8>, b: Seq<u8>)
    requires
        hex_of(a) == hex_of(b),
    ensures
        a == b,
    decreases a.len(),
{
    lemma_hex_of_len(a);
    lemma_hex_of_len(b);
    if a.len() > 0 {
        let pa = hex_of(a.drop_last());
        let pb = hex_of(b.drop_last());
        lemma_hex_of_len(a.drop_last());
        lemma_hex_of_len(b.drop_last());
        assert(hex_of(a) == pa + hex_byte(a.last()));
        assert(hex_of(b) == pb + hex_byte(b.last()));
        assert(pa =~= hex_of(a).subrange(0, pa.len() as int));
        assert(pb =~= hex_of(b).subrange(0, pb.len() as int));
        assert(hex_byte(a.last()) =~= hex_of(a).subrange(pa.len() as int, hex_of(a).len() as int));
        assert(hex_byte(b.last()) =~= hex_of(b).subrange(pb.len() as int, hex_of(b).len() as int));
        lemma_hex_of_injective(a.drop_last(), b.drop_last());
        lemma_hex_byte_injective(a.last(), b.last());
        assert(a =~= a.drop_last().push(a.last()));
        assert(b =~= b.drop_last().push(b.last()));
    } else {
        assert(a =~= b);
    }
}

/// Digests name raw hashes one to one: two raw values with the same digest
/// text are equal, and a 32-byte value's digest is well formed.
pub proof fn format_digest_is_injective_and_valid(a: Seq<u8>, b: Seq<u8>)
    ensures
        digest_text(a) == digest_text(b) ==> a == b,
        a.len() == 32 ==> valid_digest(digest_text(a)),
{
    if digest_text(a) == digest_text(b) {
        let p = "sha256:"@;
        assert(hex_of(a) =~= digest_text(a).subrange(p.len() as int, digest_text(a).len() as int));
        assert(hex_of(b) =~= digest_text(b).subrange(p.len() as int, digest_text(b).len() as int));
        lemma_hex_of_injective(a, b);
    }
    if a.len() == 32 {
        format_digest_is_valid(a);
    }
}

/// The whole-file check of a manifest built from `orig` accepts exactly
/// the data of the same size with the same SHA-256 value.
pub proof fn verify_whole_is_hash_equality(orig: Seq<u8>, data: Seq<u8>, digest: Seq<char>, size: u64)
    requires
        digest == digest_text(sha256_of(orig)),
        size == orig.len(),
    ensures
        (data.len() == size && digest_text(sha256_of(data)) == digest) <==> (data.len() == orig.len()
            && sha256_of(data) == sha256_of(orig)),
{
    format_digest_is_injective_and_valid(sha256_of(data), sha256_of(orig));
}

/// A manifest built from some bytes accepts those bytes: the whole file
/// passes the size and digest check, and every chunk passes its hash check.
pub proof fn manifest_accepts_its_own_bytes(data: Seq<u8>, digest: Seq<char>, size: u64, chunks: Seq<Seq<u8>>)
    requires
        digest == digest_text(sha256_of(data)),
        size == data.len(),
        chunks == chunk_hashes(data, CHUNK_SIZE as nat),
    ensures
        data.len() == size && digest_text(sha256_of(data)) == digest,
        forall|i: int|
            0 <= i < chunks.len() ==> sha256_of(#[trigger] chunk_of(data, CHUNK_SIZE as nat, i))
                == chunks[i],
{
}

/// Which bytes of a file of `len` bytes chunk `index` covers: its start
/// offset and length, or `None` when the index is past the end of file.
pub fn chunk_span(len: u64, index: u32) -> (r: Option<(u64, usize)>)
    ensures
        (index as int) * (CHUNK_SIZE as int) >= len ==> r is None,
        (index as int) * (CHUNK_SIZE as int) < len ==> r == Some(
            (
                (index as int * CHUNK_SIZE as int) as u64,
                if len - index as int * CHUNK_SIZE as int <= CHUNK_SIZE as int {
                    (len - index as int * CHUNK_SIZE as int) as usize
                } else {
                    CHUNK_SIZE
                },
            ),
        ),
{
    assert((index as u64) * 4194304 <= 18014398509481984) by (nonlinear_arith)
        requires
            index <= u32::MAX,
    ;
    let start: u64 = (index as u64) * (CHUNK_SIZE as u64);
    if start >= len {
        return None;
    }
    let rest = len - start;
    let want: usize = if rest <= CHUNK_SIZE as u64 {
        rest as usize
    } else {
        CHUNK_SIZE
    };
    Some((start, want))
}

/// `HaveManifest` request body: which model, by content digest.
#[derive(Clone, Debug)]
pub struct HaveManifestRequest {
    pub digest: String,
}

/// `GetChunk` request body: which model and which chunk index.
#[derive(Clone, Debug)]
pub struct GetChunkRequest {
    pub digest: String,
    pub index: u32,
}

/// One entry in a peer's seedable-model list.
#[derive(Clone, Debug, PartialEq, Eq)]
pub struct SeedableModel {
    pub digest: String,
    pub file: String,
    pub size_bytes: u64,
}

/// `ListModels` response body.
#[derive(Clone, Debug)]
pub struct ListModelsResponse {
    pub models: Vec<SeedableModel>,
}

/// Header line of a `GetChunk` response; `found: true` is followed by
/// exactly `len` raw bytes.
#[derive(Clone, Debug)]
pub struct ChunkResponseHeader {
    pub found: bool,
    pub index: u32,
    pub len: u32,
}

/// The digests a `ListModels` answer offers.
pub open spec fn offered_digests(resp: ListModelsResponse) -> Seq<Seq<char>> {
    resp.models@.map_values(|m: SeedableModel| m.digest@)
}

/// The names, in order, of the peers whose answer offers `digest`.
pub open spec fn holders(catalogs: Seq<(String, ListModelsResponse)>, digest: Seq<char>) -> Seq<
    Seq<char>,
>
    decreases catalogs.len(),
{
    if catalogs.len() == 0 {
        Seq::empty()
    } else {
        let rest = holders(catalogs.drop_last(), digest);
        if offered_digests(catalogs.last().1).contains(digest) {
            rest.push(catalogs.last().0@)
        } else {
            rest
        }
    }
}

fn offers(resp: &ListModelsResponse, digest: &str) -> (r: bool)
    ensures
        r == offered_digests(*resp).contains(digest@),
{
    let mut i: usize = 0;
    while i < resp.models.len()
        invariant
            i <= resp.models@.len(),
            forall|j: int| 0 <= j < i ==> resp.models@[j].digest@ != digest@,
        decreases resp.models@.len() - i,
    {
        if str_eq(resp.models[i].digest.as_str(), digest) {
            assert(offered_digests(*resp)[i as int] == digest@);
            return true;
        }
        i += 1;
    }
    assert forall|j: int| 0 <= j < offered_digests(*resp).len() implies offered_digests(
        *resp,
    )[j] != digest@ by {
        assert(offered_digests(*resp)[j] == resp.models@[j].digest@);
    }
    false
}

/// Given several peers' `ListModels` answers, the peers that can seed
/// `digest`, in the order given.
pub fn peers_with_digest<'a>(catalogs: &'a [(String, ListModelsResponse)], digest: &str) -> (r:
    Vec<&'a str>)
    ensures
        r@.map_values(|s: &str| s@) == holders(catalogs@, digest@),
{
    let mut out: Vec<&'a str> = Vec::new();
    let mut i: usize = 0;
    while i < catalogs.len()
        invariant
            i <= catalogs@.len(),
            out@.map_values(|s: &str| s@) == holders(catalogs@.take(i as int), digest@),
        decreases catalogs@.len() - i,
    {
        let ghost before = out@.map_values(|s: &str| s@);
        assert(catalogs@.take(i + 1).drop_last() =~= catalogs@.take(i as int));
        if offers(&catalogs[i].1, digest) {
            out.push(catalogs[i].0.as_str());
            assert(out@.map_values(|s: &str| s@) =~= before.push(catalogs@[i as int].0@));
        }
        i += 1;
    }
    assert(catalogs@.take(catalogs@.len() as int) =~= catalogs@);
    out
}

/// The `.gguf` files of a directory listing with their sizes, in listing
/// order (regular files only, the extension in any case).
pub open spec fn gguf_files(entries: Seq<crate::model_manager::FileEntry>) -> Seq<(Seq<char>, u64)>
    decreases entries.len(),
{
    if entries.len() == 0 {
        Seq::empty()
    } else {
        let r = gguf_files(entries.drop_last());
        let e = entries.last();
        if e.is_file && crate::model_manager::is_gguf_name(e.name@) {
            r.push((e.name@, e.size_bytes))
        } else {
            r
        }
    }
}

/// File names and sizes as plain values.
pub open spec fn file_views(v: Seq<(String, u64)>) -> Seq<(Seq<char>, u64)> {
    v.map_values(|f: (String, u64)| (f.0@, f.1))
}

/// A recorded digest is the given one.
pub open spec fn digest_is(o: Option<String>, d: Seq<char>) -> bool {
    match o {
        Some(x) => x@ == d,
        None => false,
    }
}

/// Picks the model files out of a directory listing.
pub fn gguf_files_in(entries: &Vec<crate::model_manager::FileEntry>) -> (r: Vec<(String, u64)>)
    ensures
        file_views(r@) == gguf_files(entries@),
{
    let mut out: Vec<(String, u64)> = Vec::new();
    let mut i: usize = 0;
    while i < entries.len()
        invariant
            i <= entries@.len(),
            file_views(out@) == gguf_files(entries@.take(i as int)),
        decreases entries@.len() - i,
    {
        let e = &entries[i];
        assert(entries@.take(i + 1).drop_last() =~= entries@.take(i as int));
        assert(entries@.take(i + 1).last() == *e);
        if e.is_file && crate::model_manager::is_gguf_file_name(e.name.as_str()) {
            let ghost before = out@;
            out.push((crate::text::owned(e.name.as_str()), e.size_bytes));
            assert(file_views(out@) =~= file_views(before).push((e.name@, e.size_bytes)));
        }
        i += 1;
    }
    assert(entries@.take(i as int) =~= entries@);
    out
}

/// The seedable models among hashed files: those whose content could be
/// read and hashed (digest present), in order.
pub open spec fn seedable(found: Seq<(String, u64, Option<String>)>) -> Seq<SeedableModel>
    decreases found.len(),
{
    if found.len() == 0 {
        Seq::empty()
    } else {
        let r = seedable(found.drop_last());
        let f = found.last();
        match f.2 {
            Some(d) => r.push(SeedableModel { digest: d, file: f.0, size_bytes: f.1 }),
            None => r,
        }
    }
}

/// The models this node can seed, keyed by content digest: each model
/// file (name, size) with the digest of its content, `None` when it could
/// not be read.
pub fn seedable_models_in(found: Vec<(String, u64, Option<String>)>) -> (r: Vec<SeedableModel>)
    ensures
        r@ == seedable(found@),
{
    let mut rest = found;
    let ghost orig = rest@;
    let total: usize = rest.len();
    let mut out: Vec<SeedableModel> = Vec::new();
    let mut n: usize = 0;
    while rest.len() > 0
        invariant
            n + rest@.len() == orig.len(),
            orig.len() == total,
            rest@ == orig.subrange(n as int, orig.len() as int),
            out@ == seedable(orig.take(n as int)),
        decreases rest@.len(),
    {
        let f = rest.remove(0);
        assert(orig.take(n + 1).drop_last() =~= orig.take(n as int));
        assert(orig.take(n + 1).last() == f);
        let (file, size_bytes, digest) = f;
        if let Some(d) = digest {
            out.push(SeedableModel { digest: d, file, size_bytes });
        }
        n += 1;
        assert(rest@ =~= orig.subrange(n as int, orig.len() as int));
    }
    assert(orig.take(n as int) =~= orig);
    out
}

/// The first hashed file whose content has the digest: its index.
pub fn find_model_by_digest_in(found: &Vec<(String, Option<String>)>, digest: &str) -> (r: Option<usize>)
    ensures
        match r {
            Some(i) => i < found@.len() && digest_is(found@[i as int].1, digest@) && forall|j: int|
                0 <= j < i ==> !#[trigger] digest_is(found@[j].1, digest@),
            None => forall|j: int| 0 <= j < found@.len() ==> !#[trigger] digest_is(found@[j].1, digest@),
        },
{
    let mut i: usize = 0;
    while i < found.len()
        invariant
            i <= found@.len(),
            forall|j: int| 0 <= j < i ==> !#[trigger] digest_is(found@[j].1, digest@),
        decreases found@.len() - i,
    {
        let hit = match &found[i].1 {
            Some(d) => str_eq(d.as_str(), digest),
            None => false,
        };
        if hit {
            return Some(i);
        }
        i += 1;
    }
    None
}

} // verus!
