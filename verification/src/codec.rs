//! PNG iTXt embed/extract for Mermaid source.
//!
//! A chunk-level PNG reader and writer: the Mermaid source travels inside the
//! image as an uncompressed iTXt chunk keyed `scrybe-mermaid`, whose text is
//! the JSON object `{ "source", "sha256", "uuid" }`. Extraction recomputes
//! the SHA-256 of the stored source and refuses a mismatch.

use crate::digest::{source_digest, source_sha256};
use crate::text::{owned, push_str, string_of};
use vstd::prelude::*;
use vstd::utf8::{decode_utf8, encode_utf8, valid_utf8};

verus! {

// ── Types ───────────────────────────────────────────────────────────────────

/// The raw stored fields of an embedded payload, exactly as read from the
/// PNG — no verification has been performed.
#[derive(Debug, Clone)]
pub struct MermaidPayload {
    /// The Mermaid diagram source text.
    pub source: String,
    /// SHA-256 of the source bytes as stored at embed time (empty when the
    /// payload carries no digest). Not checked against `source`.
    pub sha256: String,
    /// Per-artifact UUID of this embed (empty for payloads that carry none).
    pub uuid: String,
}

/// Outcome of the digest check [`extract`] performs. A mismatch is not a
/// status: it is [`MermaidError::VerificationFailed`].
#[derive(Debug, Clone, PartialEq, Eq)]
pub enum VerificationStatus {
    /// The stored digest was recomputed from the extracted source and matched.
    Verified {
        /// Digest algorithm used ("sha256").
        algorithm: &'static str,
        /// The verified hex digest (stored == recomputed).
        digest: String,
    },
    /// The payload carries no digest, so there was nothing to verify.
    NoDigest,
}

impl VerificationStatus {
    /// True only when a stored digest was recomputed and matched.
    pub fn is_verified(&self) -> (r: bool)
        ensures
            r == (self is Verified),
    {
        match self {
            VerificationStatus::Verified { .. } => true,
            VerificationStatus::NoDigest => false,
        }
    }

    /// The verified digest, when one was present and matched.
    pub fn digest(&self) -> (r: Option<&str>)
        ensures
            match self {
                VerificationStatus::Verified { digest, .. } => r matches Some(d) && d@ == digest@,
                VerificationStatus::NoDigest => r is None,
            },
    {
        match self {
            VerificationStatus::Verified { digest, .. } => Some(digest.as_str()),
            VerificationStatus::NoDigest => None,
        }
    }
}

/// An extracted payload whose digest check has been performed.
#[derive(Debug, Clone)]
pub struct VerifiedPayload {
    /// The Mermaid diagram source text.
    pub source: String,
    /// Per-artifact UUID of this embed (empty for pre-UUID payloads).
    pub uuid: String,
    /// How the digest check went.
    pub verification: VerificationStatus,
}

impl VerifiedPayload {
    /// True only when the stored digest was recomputed and matched.
    pub fn is_verified(&self) -> (r: bool)
        ensures
            r == (self.verification is Verified),
    {
        self.verification.is_verified()
    }

    /// The verified SHA-256 hex digest, when one was present and matched.
    pub fn sha256(&self) -> (r: Option<&str>)
        ensures
            match self.verification {
                VerificationStatus::Verified { digest, .. } => r matches Some(d) && d@ == digest@,
                VerificationStatus::NoDigest => r is None,
            },
    {
        self.verification.digest()
    }
}

#[verifier::external_type_specification]
#[verifier::external_body]
pub struct ExJsonError(serde_json::Error);

/// Codec failures.
#[derive(Debug)]
pub enum MermaidError {
    /// The bytes are not a well-formed PNG chunk stream, or the iTXt chunk is
    /// malformed.
    Png(String),
    /// No `scrybe-mermaid` iTXt chunk is present.
    NotFound,
    /// The stored digest does not match the digest recomputed from the
    /// stored source.
    VerificationFailed {
        /// Digest algorithm used ("sha256").
        algorithm: &'static str,
        /// The digest stored in the payload at embed time.
        expected: String,
        /// The digest recomputed from the extracted source.
        actual: String,
    },
    /// The iTXt text is not valid JSON.
    Json(serde_json::Error),
}

// ── Byte-level model ────────────────────────────────────────────────────────

/// The eight-byte PNG signature `\x89PNG\r\n\x1a\n`.
pub open spec fn png_signature() -> Seq<u8> {
    seq![0x89u8, 0x50u8, 0x4eu8, 0x47u8, 0x0du8, 0x0au8, 0x1au8, 0x0au8]
}

/// Chunk type `iTXt`.
pub open spec fn itxt_tag() -> Seq<u8> {
    seq![0x69u8, 0x54u8, 0x58u8, 0x74u8]
}

/// Chunk type `IEND`.
pub open spec fn iend_tag() -> Seq<u8> {
    seq![0x49u8, 0x45u8, 0x4eu8, 0x44u8]
}

/// The iTXt keyword `scrybe-mermaid`.
pub open spec fn itxt_key() -> Seq<u8> {
    seq![
        0x73u8, 0x63u8, 0x72u8, 0x79u8, 0x62u8, 0x65u8, 0x2du8, 0x6du8, 0x65u8, 0x72u8, 0x6du8,
        0x61u8, 0x69u8, 0x64u8,
    ]
}

/// Big-endian four-byte encoding of `n` modulo 2^32.
pub open spec fn be32(n: nat) -> Seq<u8> {
    let m = n % 0x1_0000_0000;
    seq![
        (m / 0x100_0000) as u8,
        ((m / 0x1_0000) % 0x100) as u8,
        ((m / 0x100) % 0x100) as u8,
        (m % 0x100) as u8,
    ]
}

/// The number encoded big-endian by the first four bytes of `b`.
pub open spec fn be32_value(b: Seq<u8>) -> nat {
    (b[0] as nat) * 0x100_0000 + (b[1] as nat) * 0x1_0000 + (b[2] as nat) * 0x100 + (b[3] as nat)
}

/// A chunk as the model sees it: (type, data).
pub type ChunkModel = (Seq<u8>, Seq<u8>);

/// The chunk list read from a byte stream that follows the signature:
/// `None` when the stream is truncated.
pub open spec fn parse_stream(b: Seq<u8>) -> Option<Seq<ChunkModel>>
    decreases b.len(),
{
    if b.len() == 0 {
        Some(seq![])
    } else if b.len() < 12 {
        None
    } else {
        let n = be32_value(b) as int;
        if n + 12 > b.len() {
            None
        } else {
            match parse_stream(b.skip(n + 12)) {
                Some(rest) => Some(seq![(b.subrange(4, 8), b.subrange(8, 8 + n))] + rest),
                None => None,
            }
        }
    }
}

/// The chunk list of a PNG: `None` for a bad signature or a truncated stream.
pub open spec fn parse_png(b: Seq<u8>) -> Option<Seq<ChunkModel>> {
    if b.len() < 8 || b.take(8) != png_signature() {
        None
    } else {
        parse_stream(b.skip(8))
    }
}

/// The message for a chunk stream that stops short: the first chunk whose
/// header or data runs past the end decides which.
pub open spec fn stream_error(b: Seq<u8>) -> Seq<char>
    decreases b.len(),
{
    if b.len() == 0 {
        seq![]
    } else if b.len() < 12 {
        "truncated chunk header"@
    } else {
        let n = be32_value(b) as int;
        if n + 12 > b.len() {
            "truncated chunk data"@
        } else {
            stream_error(b.skip(n + 12))
        }
    }
}

/// The message for bytes that are not a PNG chunk stream.
pub open spec fn png_parse_error(b: Seq<u8>) -> Seq<char> {
    if b.len() < 8 || b.take(8) != png_signature() {
        "invalid PNG signature"@
    } else {
        stream_error(b.skip(8))
    }
}

/// The model of an executable chunk list.
pub open spec fn chunks_model(v: Seq<([u8; 4], Vec<u8>)>) -> Seq<ChunkModel> {
    Seq::new(v.len(), |i: int| (v[i].0@, v[i].1@))
}

// ── CRC-32 ──────────────────────────────────────────────────────────────────

/// One shift of the reflected CRC-32 register (polynomial 0xEDB88320).
pub open spec fn crc_step(c: u32) -> u32 {
    if c & 1 != 0 {
        0xEDB8_8320u32 ^ (c >> 1)
    } else {
        c >> 1
    }
}

/// Eight shifts of the register: the effect of one byte.
pub open spec fn crc_rounds(c: u32) -> u32 {
    crc_step(crc_step(crc_step(crc_step(crc_step(crc_step(crc_step(crc_step(c))))))))
}

/// The register after feeding `data` into the initial value `0xFFFFFFFF`.
pub open spec fn crc_register(data: Seq<u8>) -> u32
    decreases data.len(),
{
    if data.len() == 0 {
        0xFFFF_FFFFu32
    } else {
        crc_rounds(crc_register(data.drop_last()) ^ (data.last() as u32))
    }
}

/// The standard CRC-32 (as used by PNG) of `data`.
pub open spec fn crc32_spec(data: Seq<u8>) -> u32 {
    crc_register(data) ^ 0xFFFF_FFFFu32
}

proof fn lemma_crc_step_split(c: u32)
    ensures
        crc_rounds(c) == crc_rounds(c & 0xff) ^ (c >> 8),
{
    assert(crc_rounds(c) == crc_rounds(c & 0xff) ^ (c >> 8)) by (bit_vector);
}

/// CRC-32 of `data`, table-driven.
pub fn crc32(data: &[u8]) -> (r: u32)
    ensures
        r == crc32_spec(data@),
{
    let mut table: Vec<u32> = Vec::new();
    let mut i: u32 = 0;
    while i < 256
        invariant
            i <= 256,
            table@.len() == i,
            forall|j: int| 0 <= j < i ==> #[trigger] table@[j] == crc_rounds(j as u32),
        decreases 256 - i,
    {
        let mut c = i;
        c = if c & 1 != 0 { 0xEDB8_8320u32 ^ (c >> 1) } else { c >> 1 };
        c = if c & 1 != 0 { 0xEDB8_8320u32 ^ (c >> 1) } else { c >> 1 };
        c = if c & 1 != 0 { 0xEDB8_8320u32 ^ (c >> 1) } else { c >> 1 };
        c = if c & 1 != 0 { 0xEDB8_8320u32 ^ (c >> 1) } else { c >> 1 };
        c = if c & 1 != 0 { 0xEDB8_8320u32 ^ (c >> 1) } else { c >> 1 };
        c = if c & 1 != 0 { 0xEDB8_8320u32 ^ (c >> 1) } else { c >> 1 };
        c = if c & 1 != 0 { 0xEDB8_8320u32 ^ (c >> 1) } else { c >> 1 };
        c = if c & 1 != 0 { 0xEDB8_8320u32 ^ (c >> 1) } else { c >> 1 };
        table.push(c);
        i = i + 1;
    }
    let mut crc: u32 = 0xFFFF_FFFF;
    let mut k: usize = 0;
    while k < data.len()
        invariant
            k <= data.len(),
            table@.len() == 256,
            forall|j: int| 0 <= j < 256 ==> #[trigger] table@[j] == crc_rounds(j as u32),
            crc == crc_register(data@.take(k as int)),
        decreases data.len() - k,
    {
        let b = data[k];
        let x: u32 = crc ^ (b as u32);
        let idx: u32 = x & 0xFF;
        assert(idx < 256) by (bit_vector)
            requires
                idx == x & 0xFF,
        ;
        proof {
            lemma_crc_step_split(x);
            assert(x >> 8 == crc >> 8) by (bit_vector)
                requires
                    x == crc ^ (b as u32),
            ;
            assert(data@.take(k + 1).drop_last() =~= data@.take(k as int));
        }
        crc = table[idx as usize] ^ (crc >> 8);
        k = k + 1;
    }
    assert(data@.take(data.len() as int) =~= data@);
    crc ^ 0xFFFF_FFFF
}

// ── Encoding ────────────────────────────────────────────────────────────────

/// The bytes of one chunk: length, type, data, CRC of type and data.
pub open spec fn chunk_bytes(t: Seq<u8>, d: Seq<u8>) -> Seq<u8> {
    be32(d.len()) + t + d + be32(crc32_spec(t + d) as nat)
}

/// The bytes of a chunk list.
pub open spec fn stream_bytes(cs: Seq<ChunkModel>) -> Seq<u8>
    decreases cs.len(),
{
    if cs.len() == 0 {
        seq![]
    } else {
        chunk_bytes(cs[0].0, cs[0].1) + stream_bytes(cs.drop_first())
    }
}

/// Appends `src` to `dst`.
fn append_bytes(dst: &mut Vec<u8>, src: &[u8])
    ensures
        final(dst)@ == old(dst)@ + src@,
{
    let mut i: usize = 0;
    while i < src.len()
        invariant
            i <= src.len(),
            dst@ == old(dst)@ + src@.take(i as int),
        decreases src.len() - i,
    {
        dst.push(src[i]);
        i = i + 1;
        assert(src@.take(i as int) =~= src@.take(i - 1) + seq![src@[i - 1]]);
    }
    assert(src@.take(src.len() as int) =~= src@);
}

/// Appends the big-endian encoding of `n` to `dst`.
fn append_be32(dst: &mut Vec<u8>, n: u32)
    ensures
        final(dst)@ == old(dst)@ + be32(n as nat),
{
    dst.push((n / 0x100_0000) as u8);
    dst.push(((n / 0x1_0000) % 0x100) as u8);
    dst.push(((n / 0x100) % 0x100) as u8);
    dst.push((n % 0x100) as u8);
    assert(final(dst)@ =~= old(dst)@ + be32(n as nat)) by {
        assert((n as nat) % 0x1_0000_0000 == n as nat);
    }
}

/// Encodes one chunk. The length field holds `data.len()` modulo 2^32.
pub fn encode_chunk(chunk_type: &[u8; 4], data: &[u8]) -> (r: Vec<u8>)
    ensures
        r@ == chunk_bytes(chunk_type@, data@),
{
    let len32: u32 = ((data.len() as u64) % 0x1_0000_0000) as u32;
    let mut crc_input: Vec<u8> = Vec::new();
    append_bytes(&mut crc_input, chunk_type);
    append_bytes(&mut crc_input, data);
    let crc = crc32(crc_input.as_slice());
    let mut out: Vec<u8> = Vec::new();
    append_be32(&mut out, len32);
    append_bytes(&mut out, chunk_type);
    append_bytes(&mut out, data);
    append_be32(&mut out, crc);
    proof {
        assert(len32 as nat % 0x1_0000_0000 == data@.len() % 0x1_0000_0000);
        assert(be32(len32 as nat) =~= be32(data@.len()));
    }
    out
}

/// The data of the iTXt chunk carrying `text` under `scrybe-mermaid`:
/// keyword, NUL, no compression, empty language tag and translated keyword.
pub open spec fn itxt_data(text: Seq<char>) -> Seq<u8> {
    itxt_key() + seq![0u8, 0u8, 0u8, 0u8, 0u8] + encode_utf8(text)
}

fn itxt_tag_bytes() -> (r: [u8; 4])
    ensures
        r@ == itxt_tag(),
{
    let r: [u8; 4] = [0x69, 0x54, 0x58, 0x74];
    assert(r@ =~= itxt_tag());
    r
}

fn itxt_key_bytes() -> (r: Vec<u8>)
    ensures
        r@ == itxt_key(),
{
    let r: Vec<u8> = vec![
        0x73u8, 0x63u8, 0x72u8, 0x79u8, 0x62u8, 0x65u8, 0x2du8, 0x6du8, 0x65u8, 0x72u8, 0x6du8,
        0x61u8, 0x69u8, 0x64u8,
    ];
    assert(r@ =~= itxt_key());
    r
}

/// Encodes the `scrybe-mermaid` iTXt chunk carrying `text`.
pub fn encode_itxt(text: &str) -> (r: Vec<u8>)
    ensures
        r@ == chunk_bytes(itxt_tag(), itxt_data(text@)),
{
    let mut data = itxt_key_bytes();
    data.push(0);
    data.push(0);
    data.push(0);
    data.push(0);
    data.push(0);
    append_bytes(&mut data, text.as_bytes());
    assert(data@ =~= itxt_data(text@));
    encode_chunk(&itxt_tag_bytes(), data.as_slice())
}

// ── Parsing ─────────────────────────────────────────────────────────────────

fn png_error(msg: &str) -> (e: MermaidError)
    ensures
        e matches MermaidError::Png(m) && m@ == msg@,
{
    MermaidError::Png(owned(msg))
}

/// `bytes` begins with the PNG signature.
fn has_png_signature(bytes: &[u8]) -> (b: bool)
    ensures
        b == (bytes@.len() >= 8 && bytes@.take(8) == png_signature()),
{
    if bytes.len() < 8 {
        return false;
    }
    let ok = bytes[0] == 0x89 && bytes[1] == 0x50 && bytes[2] == 0x4e && bytes[3] == 0x47
        && bytes[4] == 0x0d && bytes[5] == 0x0a && bytes[6] == 0x1a && bytes[7] == 0x0a;
    if ok {
        assert(bytes@.take(8) =~= png_signature());
    } else {
        assert(bytes@.take(8) != png_signature()) by {
            if bytes@.take(8) == png_signature() {
                assert(bytes@.take(8)[0] == bytes@[0]);
                assert(bytes@.take(8)[1] == bytes@[1]);
                assert(bytes@.take(8)[2] == bytes@[2]);
                assert(bytes@.take(8)[3] == bytes@[3]);
                assert(bytes@.take(8)[4] == bytes@[4]);
                assert(bytes@.take(8)[5] == bytes@[5]);
                assert(bytes@.take(8)[6] == bytes@[6]);
                assert(bytes@.take(8)[7] == bytes@[7]);
            }
        }
    }
    ok
}

/// Splits a PNG into its chunks (type, data); CRCs are not checked.
pub fn parse_chunks(bytes: &[u8]) -> (r: Result<Vec<([u8; 4], Vec<u8>)>, MermaidError>)
    ensures
        match r {
            Ok(cs) => parse_png(bytes@) == Some(chunks_model(cs@)),
            Err(e) => parse_png(bytes@) is None && (e matches MermaidError::Png(m) && m@
                == png_parse_error(bytes@)),
        },
{
    if !has_png_signature(bytes) {
        return Err(png_error("invalid PNG signature"));
    }
    let mut chunks: Vec<([u8; 4], Vec<u8>)> = Vec::new();
    let mut pos: usize = 8;
    let ghost whole = bytes@.skip(8);
    assert(bytes@.skip(8) =~= bytes@.skip(pos as int));
    while pos < bytes.len()
        invariant
            8 <= pos <= bytes.len(),
            whole == bytes@.skip(8),
            bytes@.len() >= 8 && bytes@.take(8) == png_signature(),
            stream_error(whole) == stream_error(bytes@.skip(pos as int)),
            parse_stream(whole) == match parse_stream(bytes@.skip(pos as int)) {
                Some(rest) => Some(chunks_model(chunks@) + rest),
                None => None::<Seq<ChunkModel>>,
            },
        decreases bytes.len() - pos,
    {
        let ghost b = bytes@.skip(pos as int);
        if bytes.len() - pos < 12 {
            assert(parse_stream(b) is None);
            return Err(png_error("truncated chunk header"));
        }
        let n64: u64 = (bytes[pos] as u64) * 0x100_0000 + (bytes[pos + 1] as u64) * 0x1_0000
            + (bytes[pos + 2] as u64) * 0x100 + (bytes[pos + 3] as u64);
        assert(n64 == be32_value(b));
        let ty: [u8; 4] = [bytes[pos + 4], bytes[pos + 5], bytes[pos + 6], bytes[pos + 7]];
        if n64 > (bytes.len() - pos - 12) as u64 {
            assert(parse_stream(b) is None);
            return Err(png_error("truncated chunk data"));
        }
        let n: usize = n64 as usize;
        let data_start = pos + 8;
        let mut data: Vec<u8> = Vec::new();
        let mut j: usize = 0;
        while j < n
            invariant
                j <= n,
                data_start + n + 4 <= bytes.len(),
                data@ == bytes@.subrange(data_start as int, data_start + j),
            decreases n - j,
        {
            data.push(bytes[data_start + j]);
            j = j + 1;
        }
        proof {
            assert(ty@ =~= b.subrange(4, 8));
            assert(data@ =~= b.subrange(8, 8 + n));
            assert(b.skip(n + 12) =~= bytes@.skip(pos + n + 12));
        }
        let ghost old_chunks = chunks@;
        chunks.push((ty, data));
        proof {
            assert(chunks_model(chunks@) =~= chunks_model(old_chunks) + seq![(b.subrange(4, 8), b.subrange(8, 8 + n))]);
            match parse_stream(b.skip(n + 12)) {
                Some(rest) => {
                    assert(chunks_model(old_chunks) + (seq![(b.subrange(4, 8), b.subrange(8, 8 + n))] + rest)
                        =~= chunks_model(chunks@) + rest);
                },
                None => {},
            }
        }
        pos = pos + n + 12;
    }
    proof {
        assert(bytes@.skip(pos as int) =~= Seq::<u8>::empty());
        assert(chunks_model(chunks@) + Seq::<ChunkModel>::empty() =~= chunks_model(chunks@));
    }
    Ok(chunks)
}

// ── Outside calls: JSON payload, UTF-8, UUID ────────────────────────────────

/// The JSON text `serde_json` writes for the object
/// `{ "sha256": .., "source": .., "uuid": .. }`.
pub uninterp spec fn payload_json(source: Seq<char>, sha256: Seq<char>, uuid: Seq<char>) -> Seq<char>;

/// What `serde_json` reads from `text`: `None` when `text` is not JSON;
/// otherwise the members `source`, `sha256`, `uuid`, each `Some` of its
/// text when it is a string and `None` when it is absent or not a string.
pub uninterp spec fn payload_members(text: Seq<char>) -> Option<
    (Option<Seq<char>>, Option<Seq<char>>, Option<Seq<char>>),
>;

/// A payload member as the library reads it: an absent or non-string
/// member reads as empty.
pub open spec fn member_or_empty(m: Option<Seq<char>>) -> Seq<char> {
    match m {
        Some(t) => t,
        None => seq![],
    }
}

/// The payload fields (source, sha256, uuid) of the JSON text `text`, or
/// `None` when it is not JSON.
pub open spec fn payload_fields(text: Seq<char>) -> Option<(Seq<char>, Seq<char>, Seq<char>)> {
    match payload_members(text) {
        Some(m) => Some((member_or_empty(m.0), member_or_empty(m.1), member_or_empty(m.2))),
        None => None,
    }
}

/// A payload member, empty when absent or not a string.
fn or_empty(m: Option<String>) -> (r: String)
    ensures
        r@ == member_or_empty(match m {
            Some(t) => Some(t@),
            None => None,
        }),
{
    match m {
        Some(t) => t,
        None => string_of(Vec::<char>::new().as_slice()),
    }
}

/// Calls `serde_json::Value::to_string` on the object of the three members.
/// Claims that the text is `payload_json` of the arguments and that
/// `serde_json` parses it back to the same three string members.
#[verifier::external_body]
fn encode_payload(source: &str, sha256: &str, uuid: &str) -> (r: String)
    ensures
        r@ == payload_json(source@, sha256@, uuid@),
        payload_members(r@) == Some((Some(source@), Some(sha256@), Some(uuid@))),
{
    let mut m = serde_json::Map::new();
    m.insert("source".to_string(), serde_json::Value::String(source.to_string()));
    m.insert("sha256".to_string(), serde_json::Value::String(sha256.to_string()));
    m.insert("uuid".to_string(), serde_json::Value::String(uuid.to_string()));
    serde_json::Value::Object(m).to_string()
}

/// The view of an optional string.
pub open spec fn opt_str_v(o: Option<String>) -> Option<Seq<char>> {
    match o {
        Some(t) => Some(t@),
        None => None,
    }
}

/// Calls `serde_json::from_str::<Value>` and reads the members `source`,
/// `sha256`, `uuid` with `Value::get` and `Value::as_str`. Claims that the
/// result is `payload_members` of the text, and that parsing fails exactly
/// when `payload_members` is `None`.
#[verifier::external_body]
fn decode_payload(text: &str) -> (r: Result<(Option<String>, Option<String>, Option<String>), serde_json::Error>)
    ensures
        match r {
            Ok(f) => payload_members(text@) == Some((opt_str_v(f.0), opt_str_v(f.1), opt_str_v(f.2))),
            Err(_) => payload_members(text@) is None,
        },
{
    let v: serde_json::Value = serde_json::from_str(text)?;
    let source = v.get("source").and_then(serde_json::Value::as_str).map(str::to_string);
    let sha256 = v.get("sha256").and_then(serde_json::Value::as_str).map(str::to_string);
    let uuid = v.get("uuid").and_then(serde_json::Value::as_str).map(str::to_string);
    Ok((source, sha256, uuid))
}

/// Calls `std::str::from_utf8`: succeeds exactly on well-formed UTF-8 and
/// then yields the decoded characters.
#[verifier::external_body]
pub(crate) fn utf8_text(bytes: &[u8]) -> (r: Option<String>)
    ensures
        r is Some <==> valid_utf8(bytes@),
        r matches Some(s) ==> s@ == decode_utf8(bytes@),
{
    std::str::from_utf8(bytes).ok().map(|s| s.to_string())
}

/// Calls `uuid::Uuid::new_v4` and formats it hyphenated. The value is random:
/// only its documented 36-character length is claimed.
#[verifier::external_body]
pub(crate) fn new_uuid() -> (r: String)
    ensures
        r@.len() == 36,
{
    uuid::Uuid::new_v4().to_string()
}

// ── Embedding ───────────────────────────────────────────────────────────────

/// The iTXt chunk that carries `source` with its digest and `uuid`.
pub open spec fn payload_chunk(source: Seq<char>, uuid: Seq<char>) -> ChunkModel {
    (itxt_tag(), itxt_data(payload_json(source, source_digest(source), uuid)))
}

/// What embedding writes for chunk `c`: nothing for an earlier payload
/// chunk (it is replaced), `extra` and then `c` for `IEND`, `c` otherwise.
pub open spec fn embed_piece(c: ChunkModel, extra: ChunkModel) -> Seq<ChunkModel> {
    if !(scan_itxt(c.0, c.1) is Skip) {
        seq![]
    } else if c.0 == iend_tag() {
        seq![extra, c]
    } else {
        seq![c]
    }
}

/// `cs` with every earlier `scrybe-mermaid` payload chunk removed and
/// `extra` inserted immediately before every `IEND` chunk.
pub open spec fn with_itxt(cs: Seq<ChunkModel>, extra: ChunkModel) -> Seq<ChunkModel>
    decreases cs.len(),
{
    if cs.len() == 0 {
        seq![]
    } else {
        embed_piece(cs[0], extra) + with_itxt(cs.drop_first(), extra)
    }
}

/// The PNG that embedding `source` under `uuid` into a PNG with chunks `cs`
/// produces.
pub open spec fn embedded_png(cs: Seq<ChunkModel>, source: Seq<char>, uuid: Seq<char>) -> Seq<u8> {
    png_signature() + stream_bytes(with_itxt(cs, payload_chunk(source, uuid)))
}

pub proof fn lemma_stream_bytes_append(x: Seq<ChunkModel>, y: Seq<ChunkModel>)
    ensures
        stream_bytes(x + y) == stream_bytes(x) + stream_bytes(y),
    decreases x.len(),
{
    if x.len() == 0 {
        assert(x + y =~= y);
    } else {
        lemma_stream_bytes_append(x.drop_first(), y);
        assert((x + y).drop_first() =~= x.drop_first() + y);
    }
}

pub proof fn lemma_with_itxt_push(cs: Seq<ChunkModel>, c: ChunkModel, extra: ChunkModel)
    ensures
        with_itxt(cs.push(c), extra) == with_itxt(cs, extra) + embed_piece(c, extra),
    decreases cs.len(),
{
    if cs.len() == 0 {
        assert(with_itxt(cs.push(c).drop_first(), extra) =~= Seq::<ChunkModel>::empty());
    } else {
        lemma_with_itxt_push(cs.drop_first(), c, extra);
        assert(cs.push(c).drop_first() =~= cs.drop_first().push(c));
    }
}

proof fn lemma_embed_step(prefix: Seq<ChunkModel>, cm: ChunkModel, extra: ChunkModel)
    ensures
        stream_bytes(with_itxt(prefix.push(cm), extra)) == stream_bytes(with_itxt(prefix, extra))
            + (if !(scan_itxt(cm.0, cm.1) is Skip) {
            seq![]
        } else if cm.0 == iend_tag() {
            chunk_bytes(extra.0, extra.1) + chunk_bytes(cm.0, cm.1)
        } else {
            chunk_bytes(cm.0, cm.1)
        }),
{
    lemma_with_itxt_push(prefix, cm, extra);
    reveal_with_fuel(stream_bytes, 3);
    if !(scan_itxt(cm.0, cm.1) is Skip) {
        assert(with_itxt(prefix, extra) + seq![] =~= with_itxt(prefix, extra));
    } else if cm.0 == iend_tag() {
        lemma_stream_bytes_append(with_itxt(prefix, extra), seq![extra, cm]);
        assert(seq![extra, cm].drop_first() =~= seq![cm]);
        assert(seq![cm].drop_first() =~= Seq::<ChunkModel>::empty());
        assert(stream_bytes(seq![extra, cm]) =~= chunk_bytes(extra.0, extra.1) + chunk_bytes(cm.0, cm.1));
    } else {
        lemma_stream_bytes_append(with_itxt(prefix, extra), seq![cm]);
        assert(seq![cm].drop_first() =~= Seq::<ChunkModel>::empty());
        assert(stream_bytes(seq![cm]) =~= chunk_bytes(cm.0, cm.1));
    }
}

/// Appends chunk `(t, d)` to `out`, preceded by `itxt` when it is `IEND`;
/// an earlier payload chunk is left out.
fn append_chunk_with_itxt(out: &mut Vec<u8>, itxt: &[u8], t: &[u8; 4], d: &[u8])
    ensures
        final(out)@ == old(out)@ + (if !(scan_itxt(t@, d@) is Skip) {
            seq![]
        } else if t@ == iend_tag() {
            itxt@ + chunk_bytes(t@, d@)
        } else {
            chunk_bytes(t@, d@)
        }),
{
    let sc = scan_chunk(t, d);
    if !matches!(sc, ItxtScan::Skip) {
        assert(final(out)@ =~= old(out)@ + Seq::<u8>::empty());
    } else if tag_is(t, 0x49, 0x45, 0x4e, 0x44) {
        append_bytes(out, itxt);
        let enc = encode_chunk(t, d);
        append_bytes(out, enc.as_slice());
        assert(final(out)@ =~= old(out)@ + (itxt@ + chunk_bytes(t@, d@)));
    } else {
        let enc = encode_chunk(t, d);
        append_bytes(out, enc.as_slice());
    }
}

/// The chunk type `t` equals `b`.
fn tag_is(t: &[u8; 4], b0: u8, b1: u8, b2: u8, b3: u8) -> (r: bool)
    ensures
        r == (t@ == seq![b0, b1, b2, b3]),
{
    let r = t[0] == b0 && t[1] == b1 && t[2] == b2 && t[3] == b3;
    if r {
        assert(t@ =~= seq![b0, b1, b2, b3]);
    } else {
        assert(t@ != seq![b0, b1, b2, b3]) by {
            if t@ == seq![b0, b1, b2, b3] {
                assert(t@[0] == b0 && t@[1] == b1 && t@[2] == b2 && t@[3] == b3);
            }
        }
    }
    r
}

/// Embeds Mermaid `source` into `png_bytes` as a `scrybe-mermaid` iTXt chunk
/// recording `uuid` and the source's SHA-256; the chunk is inserted
/// immediately before `IEND` and replaces any earlier payload chunk, every
/// other chunk is kept as it was. A PNG without `IEND` is refused.
pub fn embed_with_uuid(png_bytes: &[u8], source: &str, uuid: &str) -> (r: Result<Vec<u8>, MermaidError>)
    ensures
        match r {
            Ok(out) => parse_png(png_bytes@) matches Some(cs) && has_iend(cs) && out@ == embedded_png(
                cs,
                source@,
                uuid@,
            ),
            Err(e) => (parse_png(png_bytes@) is None || !has_iend(parse_png(png_bytes@).unwrap()))
                && e is Png,
        },
        r matches Ok(out) ==> (embeddable(png_bytes@, source@, uuid@) ==> reads_back(out@, source@, uuid@)),
        r is Ok ==> source_digest(source@).len() == 64,
{
    if !has_png_signature(png_bytes) {
        return Err(png_error("invalid PNG signature"));
    }
    let sha256 = source_sha256(source);
    let payload = encode_payload(source, sha256.as_str(), uuid);
    let chunks = parse_chunks(png_bytes)?;
    let ghost cs = chunks_model(chunks@);
    let ghost extra = payload_chunk(source@, uuid@);
    let itxt = encode_itxt(payload.as_str());
    let mut out: Vec<u8> = vec![0x89u8, 0x50u8, 0x4eu8, 0x47u8, 0x0du8, 0x0au8, 0x1au8, 0x0au8];
    assert(out@ =~= png_signature() + stream_bytes(with_itxt(cs.take(0), extra)));
    let mut i: usize = 0;
    let mut seen_iend = false;
    while i < chunks.len()
        invariant
            i <= chunks@.len(),
            cs == chunks_model(chunks@),
            itxt@ == chunk_bytes(extra.0, extra.1),
            out@ == png_signature() + stream_bytes(with_itxt(cs.take(i as int), extra)),
            seen_iend == has_iend(cs.take(i as int)),
        decreases chunks.len() - i,
    {
        let c = &chunks[i];
        proof {
            assert(cs.take(i + 1) =~= cs.take(i as int).push(cs[i as int]));
            lemma_embed_step(cs.take(i as int), cs[i as int], extra);
        }
        append_chunk_with_itxt(&mut out, itxt.as_slice(), &c.0, c.1.as_slice());
        let is_iend = tag_is(&c.0, 0x49, 0x45, 0x4e, 0x44);
        proof {
            let t = cs.take(i + 1);
            if is_iend {
                assert(t[i as int].0 == iend_tag());
            }
            if has_iend(t) {
                let j = choose|j: int| 0 <= j < t.len() && #[trigger] t[j].0 == iend_tag();
                if j < i {
                    assert(cs.take(i as int)[j] == t[j]);
                }
            }
            if has_iend(cs.take(i as int)) {
                let j = choose|j: int| 0 <= j < i && #[trigger] cs.take(i as int)[j].0 == iend_tag();
                assert(t[j] == cs.take(i as int)[j]);
            }
        }
        seen_iend = seen_iend || is_iend;
        i = i + 1;
    }
    assert(cs.take(chunks@.len() as int) =~= cs);
    if !seen_iend {
        return Err(png_error("PNG has no IEND chunk"));
    }
    proof {
        if embeddable(png_bytes@, source@, uuid@) {
            lemma_embed_reads_back(png_bytes@, source@, uuid@);
        }
    }
    Ok(out)
}

/// Embeds Mermaid `source` into `png_bytes`, minting a fresh random UUID for
/// the artifact.
pub fn embed(png_bytes: &[u8], source: &str) -> (r: Result<Vec<u8>, MermaidError>)
    ensures
        match r {
            Ok(out) => parse_png(png_bytes@) matches Some(cs) && has_iend(cs) && exists|u: Seq<char>|
                u.len() == 36 && out@ == #[trigger] embedded_png(cs, source@, u),
            Err(e) => (parse_png(png_bytes@) is None || !has_iend(parse_png(png_bytes@).unwrap()))
                && e is Png,
        },
{
    let uuid = new_uuid();
    embed_with_uuid(png_bytes, source, uuid.as_str())
}

/// A PNG stamped with a Mermaid payload: its bytes, the UUID minted for it,
/// and the SHA-256 digest of the source it carries.
#[derive(Debug)]
pub struct Stamped {
    pub bytes: Vec<u8>,
    pub uuid: String,
    pub sha256: String,
}

/// Embeds Mermaid `source` into `png_bytes` under a freshly minted UUID, and
/// reports that UUID and the source's digest with the stamped bytes.
pub fn stamp_png(png_bytes: &[u8], source: &str) -> (r: Result<Stamped, MermaidError>)
    ensures
        match r {
            Ok(s) => parse_png(png_bytes@) matches Some(cs) && has_iend(cs) && s.uuid@.len() == 36
                && s.bytes@ == embedded_png(cs, source@, s.uuid@) && s.sha256@ == source_digest(source@),
            Err(e) => (parse_png(png_bytes@) is None || !has_iend(parse_png(png_bytes@).unwrap()))
                && e is Png,
        },
{
    let uuid = new_uuid();
    match embed_with_uuid(png_bytes, source, uuid.as_str()) {
        Ok(bytes) => Ok(Stamped { bytes, uuid, sha256: source_sha256(source) }),
        Err(e) => Err(e),
    }
}

// ── Extraction ──────────────────────────────────────────────────────────────

/// How one chunk reads as a candidate payload.
#[derive(Debug, Clone, Copy, PartialEq, Eq)]
pub enum ItxtScan {
    /// Not an iTXt chunk with the `scrybe-mermaid` keyword.
    Skip,
    /// The keyword matches but the chunk ends before its compression fields.
    Truncated,
    /// No NUL ends the language tag.
    NoLangNull,
    /// No NUL ends the translated keyword.
    NoTranslatedNull,
    /// The payload text starts at this offset of the chunk data.
    Text(usize),
}

/// The first position at or after `from` where `d` holds a zero byte.
pub open spec fn first_zero_from(d: Seq<u8>, from: int) -> Option<int>
    decreases d.len() - from,
{
    if from < 0 || from >= d.len() {
        None
    } else if d[from] == 0 {
        Some(from)
    } else {
        first_zero_from(d, from + 1)
    }
}

/// How the chunk `(t, d)` reads as a candidate payload.
pub open spec fn scan_itxt(t: Seq<u8>, d: Seq<u8>) -> ItxtScan {
    if t != itxt_tag() || d.len() < 15 || d.take(14) != itxt_key() || d[14] != 0 {
        ItxtScan::Skip
    } else if d.len() < 17 {
        ItxtScan::Truncated
    } else {
        match first_zero_from(d, 17) {
            None => ItxtScan::NoLangNull,
            Some(a) => match first_zero_from(d, a + 1) {
                None => ItxtScan::NoTranslatedNull,
                Some(b) => ItxtScan::Text((b + 1) as usize),
            },
        }
    }
}

/// The first chunk of `cs` that is a candidate payload.
pub open spec fn first_payload(cs: Seq<ChunkModel>) -> Option<ChunkModel>
    decreases cs.len(),
{
    if cs.len() == 0 {
        None
    } else if !(scan_itxt(cs[0].0, cs[0].1) is Skip) {
        Some(cs[0])
    } else {
        first_payload(cs.drop_first())
    }
}

/// The scan and data of the first candidate payload chunk of a PNG.
pub open spec fn stored_itxt(png: Seq<u8>) -> Option<(ItxtScan, Seq<u8>)> {
    match parse_png(png) {
        Some(cs) => match first_payload(cs) {
            Some(c) => Some((scan_itxt(c.0, c.1), c.1)),
            None => None,
        },
        None => None,
    }
}

/// Reading the payload would index past the end of a truncated iTXt chunk.
pub open spec fn itxt_truncated(png: Seq<u8>) -> bool {
    stored_itxt(png) matches Some((sc, _)) && sc is Truncated
}

/// The stored fields (source, sha256, uuid) when the PNG carries a readable
/// payload.
pub open spec fn stored_payload(png: Seq<u8>) -> Option<(Seq<char>, Seq<char>, Seq<char>)> {
    match stored_itxt(png) {
        Some((ItxtScan::Text(k), d)) => if valid_utf8(d.skip(k as int)) {
            payload_fields(decode_utf8(d.skip(k as int)))
        } else {
            None
        },
        _ => None,
    }
}

/// The error reading the payload of `png` yields, when it has no readable
/// payload.
pub open spec fn read_error(png: Seq<u8>, e: MermaidError) -> bool {
    if parse_png(png) is None {
        e matches MermaidError::Png(m) && m@ == png_parse_error(png)
    } else {
        match stored_itxt(png) {
            None => e is NotFound,
            Some((ItxtScan::Text(k), d)) => if valid_utf8(d.skip(k as int)) {
                e is Json
            } else {
                e matches MermaidError::Png(m) && m@ == "iTXt text is not valid UTF-8"@
            },
            Some((ItxtScan::Truncated, _)) => e matches MermaidError::Png(m) && m@
                == "malformed iTXt: truncated header"@,
            Some((ItxtScan::NoLangNull, _)) => e matches MermaidError::Png(m) && m@
                == "malformed iTXt: no lang null"@,
            Some((ItxtScan::NoTranslatedNull, _)) => e matches MermaidError::Png(m) && m@
                == "malformed iTXt: no translated null"@,
            Some((ItxtScan::Skip, _)) => false,
        }
    }
}

/// The first zero byte of `d` at or after `from`.
fn find_zero(d: &[u8], from: usize) -> (r: Option<usize>)
    ensures
        r matches Some(i) ==> first_zero_from(d@, from as int) == Some(i as int),
        r is None ==> first_zero_from(d@, from as int) is None,
    decreases d.len() - from,
{
    if from >= d.len() {
        None
    } else if d[from] == 0 {
        Some(from)
    } else {
        find_zero(d, from + 1)
    }
}

proof fn lemma_first_zero_bound(d: Seq<u8>, from: int)
    ensures
        first_zero_from(d, from) matches Some(i) ==> from <= i < d.len(),
    decreases d.len() - from,
{
    if 0 <= from < d.len() && d[from] != 0 {
        lemma_first_zero_bound(d, from + 1);
    }
}

/// Reads chunk `(t, d)` as a candidate payload.
fn scan_chunk(t: &[u8; 4], d: &[u8]) -> (r: ItxtScan)
    ensures
        r == scan_itxt(t@, d@),
{
    if !tag_is(t, 0x69, 0x54, 0x58, 0x74) || d.len() < 15 {
        return ItxtScan::Skip;
    }
    let key = itxt_key_bytes();
    let mut i: usize = 0;
    while i < 14
        invariant
            i <= 14,
            d@.len() >= 15,
            key@ == itxt_key(),
            forall|j: int| 0 <= j < i ==> d@[j] == key@[j],
        decreases 14 - i,
    {
        if d[i] != key[i] {
            assert(d@.take(14)[i as int] != itxt_key()[i as int]);
            return ItxtScan::Skip;
        }
        i = i + 1;
    }
    assert(d@.take(14) =~= itxt_key());
    if d[14] != 0 {
        return ItxtScan::Skip;
    }
    if d.len() < 17 {
        return ItxtScan::Truncated;
    }
    match find_zero(d, 17) {
        None => ItxtScan::NoLangNull,
        Some(a) => {
            proof {
                lemma_first_zero_bound(d@, 17);
            }
            match find_zero(d, a + 1) {
                None => ItxtScan::NoTranslatedNull,
                Some(b) => {
                    proof {
                        lemma_first_zero_bound(d@, a + 1);
                    }
                    ItxtScan::Text(b + 1)
                },
            }
        },
    }
}

/// A copy of `d[from..]`.
fn tail_bytes(d: &[u8], from: usize) -> (r: Vec<u8>)
    requires
        from <= d.len(),
    ensures
        r@ == d@.skip(from as int),
{
    let mut r: Vec<u8> = Vec::new();
    let mut i = from;
    while i < d.len()
        invariant
            from <= i <= d.len(),
            r@ == d@.subrange(from as int, i as int),
        decreases d.len() - i,
    {
        r.push(d[i]);
        i = i + 1;
    }
    r
}

/// Whether reading the payload of `png_bytes` would meet a truncated
/// `scrybe-mermaid` iTXt chunk (the case extraction cannot read).
pub fn payload_truncated(png_bytes: &[u8]) -> (b: bool)
    ensures
        b == itxt_truncated(png_bytes@),
{
    let chunks = match parse_chunks(png_bytes) {
        Ok(c) => c,
        Err(_) => {
            return false;
        },
    };
    let ghost cs = chunks_model(chunks@);
    let mut i: usize = 0;
    assert(cs.skip(0) =~= cs);
    while i < chunks.len()
        invariant
            i <= chunks@.len(),
            cs == chunks_model(chunks@),
            parse_png(png_bytes@) == Some(cs),
            first_payload(cs) == first_payload(cs.skip(i as int)),
        decreases chunks.len() - i,
    {
        let c = &chunks[i];
        let sc = scan_chunk(&c.0, c.1.as_slice());
        assert(cs.skip(i as int).drop_first() =~= cs.skip(i + 1));
        assert(cs.skip(i as int)[0] == cs[i as int]);
        match sc {
            ItxtScan::Skip => {},
            ItxtScan::Truncated => {
                return true;
            },
            _ => {
                return false;
            },
        }
        i = i + 1;
    }
    assert(cs.skip(i as int) =~= Seq::<ChunkModel>::empty());
    false
}

/// Extracts the raw stored payload WITHOUT verifying the digest — for
/// forensics on tampered or foreign payloads.
pub fn extract_unverified(png_bytes: &[u8]) -> (r: Result<MermaidPayload, MermaidError>)
    ensures
        match stored_payload(png_bytes@) {
            Some(f) => r matches Ok(p) && p.source@ == f.0 && p.sha256@ == f.1 && p.uuid@ == f.2,
            None => r matches Err(e) && read_error(png_bytes@, e),
        },
{
    if !has_png_signature(png_bytes) {
        return Err(png_error("invalid PNG signature"));
    }
    let chunks = match parse_chunks(png_bytes) {
        Ok(c) => c,
        Err(e) => {
            return Err(e);
        },
    };
    let ghost cs = chunks_model(chunks@);
    let mut i: usize = 0;
    assert(cs.skip(0) =~= cs);
    while i < chunks.len()
        invariant
            i <= chunks@.len(),
            cs == chunks_model(chunks@),
            parse_png(png_bytes@) == Some(cs),
            first_payload(cs) == first_payload(cs.skip(i as int)),
        decreases chunks.len() - i,
    {
        let c = &chunks[i];
        let sc = scan_chunk(&c.0, c.1.as_slice());
        assert(cs.skip(i as int).drop_first() =~= cs.skip(i + 1));
        assert(cs.skip(i as int)[0] == cs[i as int]);
        match sc {
            ItxtScan::Skip => {},
            ItxtScan::Truncated => {
                return Err(png_error("malformed iTXt: truncated header"));
            },
            ItxtScan::NoLangNull => {
                return Err(png_error("malformed iTXt: no lang null"));
            },
            ItxtScan::NoTranslatedNull => {
                return Err(png_error("malformed iTXt: no translated null"));
            },
            ItxtScan::Text(k) => {
                proof {
                    lemma_first_zero_bound(c.1@, 17);
                    let a = first_zero_from(c.1@, 17).unwrap();
                    lemma_first_zero_bound(c.1@, a + 1);
                }
                let text_bytes = tail_bytes(c.1.as_slice(), k);
                let text = match utf8_text(text_bytes.as_slice()) {
                    Some(t) => t,
                    None => {
                        return Err(png_error("iTXt text is not valid UTF-8"));
                    },
                };
                return match decode_payload(text.as_str()) {
                    Ok(f) => Ok(MermaidPayload { source: or_empty(f.0), sha256: or_empty(f.1), uuid: or_empty(f.2) }),
                    Err(e) => Err(MermaidError::Json(e)),
                };
            },
        }
        i = i + 1;
    }
    assert(cs.skip(i as int) =~= Seq::<ChunkModel>::empty());
    Err(MermaidError::NotFound)
}

/// Extracts Mermaid source from a PNG's iTXt metadata, verifying its digest:
/// a matching stored digest gives `Verified`, a payload without a digest
/// gives `NoDigest`, and a mismatch is `VerificationFailed` carrying both
/// digests.
pub fn extract(png_bytes: &[u8]) -> (r: Result<VerifiedPayload, MermaidError>)
    ensures
        match stored_payload(png_bytes@) {
            Some(f) => if f.1.len() == 0 {
                r matches Ok(p) && p.source@ == f.0 && p.uuid@ == f.2
                    && p.verification is NoDigest
            } else if source_digest(f.0) == f.1 {
                r matches Ok(p) && p.source@ == f.0 && p.uuid@ == f.2 && (
                p.verification matches VerificationStatus::Verified { algorithm, digest }
                    && algorithm@ == "sha256"@ && digest@ == f.1)
            } else {
                r matches Err(MermaidError::VerificationFailed { algorithm, expected, actual })
                    && algorithm@ == "sha256"@ && expected@ == f.1 && actual@ == source_digest(f.0)
            },
            None => r matches Err(e) && read_error(png_bytes@, e),
        },
{
    match extract_unverified(png_bytes) {
        Ok(raw) => verify_payload(raw),
        Err(e) => Err(e),
    }
}

/// Checks a payload read without verification against its digest: no
/// stored digest gives `NoDigest`, a stored digest equal to the digest of
/// the stored source gives `Verified`, any other is `VerificationFailed`
/// with both digests.
pub fn verify_payload(raw: MermaidPayload) -> (r: Result<VerifiedPayload, MermaidError>)
    ensures
        if raw.sha256@.len() == 0 {
            r matches Ok(p) && p.source@ == raw.source@ && p.uuid@ == raw.uuid@
                && p.verification is NoDigest
        } else if source_digest(raw.source@) == raw.sha256@ {
            r matches Ok(p) && p.source@ == raw.source@ && p.uuid@ == raw.uuid@ && (
            p.verification matches VerificationStatus::Verified { algorithm, digest }
                && algorithm@ == "sha256"@ && digest@ == raw.sha256@)
        } else {
            r matches Err(MermaidError::VerificationFailed { algorithm, expected, actual })
                && algorithm@ == "sha256"@ && expected@ == raw.sha256@ && actual@ == source_digest(
                raw.source@,
            )
        },
{
    if raw.sha256.as_str().is_empty() {
        return Ok(VerifiedPayload {
            source: raw.source,
            uuid: raw.uuid,
            verification: VerificationStatus::NoDigest,
        });
    }
    let actual = source_sha256(raw.source.as_str());
    if !(actual == raw.sha256) {
        return Err(MermaidError::VerificationFailed {
            algorithm: "sha256",
            expected: raw.sha256,
            actual,
        });
    }
    Ok(VerifiedPayload {
        source: raw.source,
        uuid: raw.uuid,
        verification: VerificationStatus::Verified { algorithm: "sha256", digest: actual },
    })
}

// ── Laws ────────────────────────────────────────────────────────────────────

proof fn lemma_be32_roundtrip(n: nat)
    requires
        n < 0x1_0000_0000,
    ensures
        be32(n).len() == 4,
        be32_value(be32(n)) == n,
{
    let m = n % 0x1_0000_0000;
    assert(m == n);
    let a = m / 0x100_0000;
    let b = (m / 0x1_0000) % 0x100;
    let c = (m / 0x100) % 0x100;
    let d = m % 0x100;
    assert(a < 0x100 && b < 0x100 && c < 0x100 && d < 0x100);
    assert(a * 0x100_0000 + b * 0x1_0000 + c * 0x100 + d == m) by (nonlinear_arith)
        requires
            a == m / 0x100_0000,
            b == (m / 0x1_0000) % 0x100,
            c == (m / 0x100) % 0x100,
            d == m % 0x100,
            m < 0x1_0000_0000,
    ;
}

/// Every chunk type has four bytes and every chunk's data fits the 32-bit
/// length field.
pub open spec fn well_sized(cs: Seq<ChunkModel>) -> bool {
    forall|i: int| 0 <= i < cs.len() ==> (#[trigger] cs[i]).0.len() == 4 && cs[i].1.len()
        < 0x1_0000_0000
}

/// Law: reading back the bytes written for a chunk list gives that chunk
/// list, whenever every type has four bytes and every chunk's data fits the
/// 32-bit length field.
#[verifier::rlimit(40)]
#[verifier::spinoff_prover]
pub proof fn law_chunk_stream_roundtrip(cs: Seq<ChunkModel>)
    requires
        well_sized(cs),
    ensures
        parse_stream(stream_bytes(cs)) == Some(cs),
        parse_png(png_signature() + stream_bytes(cs)) == Some(cs),
    decreases cs.len(),
{
    let sig = png_signature();
    assert((sig + stream_bytes(cs)).take(8) =~= sig);
    assert((sig + stream_bytes(cs)).skip(8) =~= stream_bytes(cs));
    if cs.len() > 0 {
        let c = cs[0];
        let rest = cs.drop_first();
        assert(well_sized(rest)) by {
            assert forall|i: int| 0 <= i < rest.len() implies (#[trigger] rest[i]).0.len() == 4
                && rest[i].1.len() < 0x1_0000_0000 by {
                assert(rest[i] == cs[i + 1]);
            }
        }
        law_chunk_stream_roundtrip(rest);
        lemma_be32_roundtrip(c.1.len());
        let n = c.1.len() as int;
        let b = stream_bytes(cs);
        let cb = chunk_bytes(c.0, c.1);
        assert(b == cb + stream_bytes(rest));
        assert(cb.len() == n + 12);
        assert(b.take(4) =~= be32(c.1.len()));
        assert(be32_value(b) == be32_value(b.take(4)));
        assert(b.subrange(4, 8) =~= c.0);
        assert(b.subrange(8, 8 + n) =~= c.1);
        assert(b.skip(n + 12) =~= stream_bytes(rest));
        assert(seq![(c.0, c.1)] + rest =~= cs);
    }
}

/// Law: embedding keeps every chunk of the original PNG but earlier payload
/// chunks, in order, and adds exactly the payload chunk before `IEND` —
/// provided the payload's data fits the 32-bit length field.
pub proof fn law_embed_preserves_chunks(png: Seq<u8>, source: Seq<char>, uuid: Seq<char>)
    requires
        parse_png(png) is Some,
        itxt_data(payload_json(source, source_digest(source), uuid)).len() < 0x1_0000_0000,
    ensures
        parse_png(embedded_png(parse_png(png).unwrap(), source, uuid)) == Some(
            with_itxt(parse_png(png).unwrap(), payload_chunk(source, uuid)),
        ),
{
    let cs = parse_png(png).unwrap();
    let extra = payload_chunk(source, uuid);
    lemma_parse_stream_sized(png.skip(8));
    lemma_with_itxt_sized(cs, extra);
    law_chunk_stream_roundtrip(with_itxt(cs, extra));
}

proof fn lemma_parse_stream_sized(b: Seq<u8>)
    ensures
        parse_stream(b) matches Some(cs) ==> well_sized(cs),
    decreases b.len(),
{
    if b.len() >= 12 {
        let n = be32_value(b) as int;
        if n + 12 <= b.len() {
            lemma_parse_stream_sized(b.skip(n + 12));
            if let Some(rest) = parse_stream(b.skip(n + 12)) {
                let cs = seq![(b.subrange(4, 8), b.subrange(8, 8 + n))] + rest;
                assert(n < 0x1_0000_0000);
                assert forall|i: int| 0 <= i < cs.len() implies (#[trigger] cs[i]).0.len() == 4
                    && cs[i].1.len() < 0x1_0000_0000 by {
                    if i > 0 {
                        assert(cs[i] == rest[i - 1]);
                    }
                }
            }
        }
    }
}

proof fn lemma_with_itxt_sized(cs: Seq<ChunkModel>, extra: ChunkModel)
    requires
        well_sized(cs),
        extra.0.len() == 4,
        extra.1.len() < 0x1_0000_0000,
    ensures
        well_sized(with_itxt(cs, extra)),
    decreases cs.len(),
{
    if cs.len() > 0 {
        let rest = cs.drop_first();
        assert(well_sized(rest)) by {
            assert forall|i: int| 0 <= i < rest.len() implies (#[trigger] rest[i]).0.len() == 4
                && rest[i].1.len() < 0x1_0000_0000 by {
                assert(rest[i] == cs[i + 1]);
            }
        }
        lemma_with_itxt_sized(rest, extra);
        let head = embed_piece(cs[0], extra);
        let w = head + with_itxt(rest, extra);
        assert forall|i: int| 0 <= i < w.len() implies (#[trigger] w[i]).0.len() == 4
            && w[i].1.len() < 0x1_0000_0000 by {
            if i >= head.len() {
                assert(w[i] == with_itxt(rest, extra)[i - head.len()]);
            }
        }
    }
}

/// The chunk list has an `IEND` chunk.
pub open spec fn has_iend(cs: Seq<ChunkModel>) -> bool {
    exists|i: int| 0 <= i < cs.len() && #[trigger] cs[i].0 == iend_tag()
}

proof fn lemma_first_payload_with_itxt(cs: Seq<ChunkModel>, extra: ChunkModel)
    requires
        has_iend(cs),
        !(scan_itxt(extra.0, extra.1) is Skip),
    ensures
        first_payload(with_itxt(cs, extra)) == Some(extra),
    decreases cs.len(),
{
    let rest = cs.drop_first();
    let w = with_itxt(cs, extra);
    if scan_itxt(cs[0].0, cs[0].1) is Skip && cs[0].0 == iend_tag() {
        assert(w[0] == extra);
    } else {
        assert(cs[0].0 != iend_tag()) by {
            if cs[0].0 == iend_tag() {
                assert(cs[0].0 != itxt_tag()) by {
                    assert(cs[0].0[0] != itxt_tag()[0]);
                }
            }
        }
        assert(has_iend(rest)) by {
            let i = choose|i: int| 0 <= i < cs.len() && #[trigger] cs[i].0 == iend_tag();
            assert(i > 0);
            assert(rest[i - 1] == cs[i]);
        }
        lemma_first_payload_with_itxt(rest, extra);
        if scan_itxt(cs[0].0, cs[0].1) is Skip {
            assert(w.drop_first() =~= with_itxt(rest, extra));
            assert(w[0] == cs[0]);
        } else {
            assert(w =~= with_itxt(rest, extra));
        }
    }
}

proof fn lemma_payload_chunk_reads(text: Seq<char>)
    ensures
        scan_itxt(itxt_tag(), itxt_data(text)) == ItxtScan::Text(19),
        itxt_data(text).skip(19) == encode_utf8(text),
{
    let d = itxt_data(text);
    assert(d.take(14) =~= itxt_key());
    assert(d[14] == 0 && d[17] == 0 && d[18] == 0);
    assert(first_zero_from(d, 17) == Some(17int));
    assert(first_zero_from(d, 18) == Some(18int));
    assert(d.skip(19) =~= encode_utf8(text));
}

/// What reading back a freshly embedded payload must give: the PNG names no
/// truncated payload, and the stored fields are the source, its digest and
/// the UUID.
pub open spec fn reads_back(out: Seq<u8>, source: Seq<char>, uuid: Seq<char>) -> bool {
    &&& !itxt_truncated(out)
    &&& stored_payload(out) == Some((source, source_digest(source), uuid))
}

/// The PNG ends its image data with `IEND`, and the payload to embed fits a
/// chunk's 32-bit length field.
pub open spec fn embeddable(png: Seq<u8>, source: Seq<char>, uuid: Seq<char>) -> bool {
    &&& parse_png(png) matches Some(cs)
    &&& has_iend(cs)
    &&& itxt_data(payload_json(source, source_digest(source), uuid)).len() < 0x1_0000_0000
}

proof fn lemma_embed_reads_back(png: Seq<u8>, source: Seq<char>, uuid: Seq<char>)
    requires
        embeddable(png, source, uuid),
        payload_fields(payload_json(source, source_digest(source), uuid)) == Some(
            (source, source_digest(source), uuid),
        ),
    ensures
        reads_back(embedded_png(parse_png(png).unwrap(), source, uuid), source, uuid),
{
    broadcast use vstd::utf8::encode_utf8_valid_utf8, vstd::utf8::encode_utf8_decode_utf8;

    let cs = parse_png(png).unwrap();
    let extra = payload_chunk(source, uuid);
    let json = payload_json(source, source_digest(source), uuid);
    law_embed_preserves_chunks(png, source, uuid);
    lemma_payload_chunk_reads(json);
    lemma_first_payload_with_itxt(cs, extra);
    let e = embedded_png(cs, source, uuid);
    assert(stored_itxt(e) == Some((ItxtScan::Text(19), extra.1)));
    assert(extra.1.skip(19) == encode_utf8(json));
}

} // verus!
