//! SHA-256 digests rendered as lowercase hexadecimal — the provenance digest
//! shared by the PNG iTXt codec and the SVG metadata.

use sha2::Digest;
use vstd::prelude::*;

verus! {

/// The SHA-256 digest of `bytes` (32 bytes), as computed by the `sha2` crate.
pub uninterp spec fn sha256(bytes: Seq<u8>) -> Seq<u8>;

/// Calls `sha2::Sha256::digest`. Claims only that the result is the
/// SHA-256 digest of the argument (a function of the bytes alone) and that it
/// is 32 bytes long, as the `Sha256` output size states.
#[verifier::external_body]
fn sha256_bytes(bytes: &[u8]) -> (r: Vec<u8>)
    ensures
        r@ == sha256(bytes@),
        r@.len() == 32,
{
    sha2::Sha256::digest(bytes).to_vec()
}

/// The lowercase hexadecimal digit for `n < 16`.
pub open spec fn hex_digit(n: u8) -> char {
    if n < 10 {
        (('0' as u8) + n) as char
    } else {
        (('a' as u8) + n - 10) as char
    }
}

/// Lowercase hexadecimal text of `b`: two digits per byte, high nibble first.
pub open spec fn hex_lower(b: Seq<u8>) -> Seq<char>
    decreases b.len(),
{
    if b.len() == 0 {
        seq![]
    } else {
        seq![hex_digit(b[0] / 16), hex_digit(b[0] % 16)] + hex_lower(b.drop_first())
    }
}

pub proof fn lemma_hex_lower_len(b: Seq<u8>)
    ensures
        hex_lower(b).len() == 2 * b.len(),
    decreases b.len(),
{
    if b.len() > 0 {
        lemma_hex_lower_len(b.drop_first());
    }
}

/// Calls `hex::encode`, whose documented behaviour is the lowercase
/// two-digits-per-byte encoding that `hex_lower` states.
#[verifier::external_body]
fn hex_encode(bytes: &[u8]) -> (r: String)
    ensures
        r@ == hex_lower(bytes@),
{
    hex::encode(bytes)
}

/// The digest the codec and the SVG metadata record for a Mermaid source:
/// lowercase hex of the SHA-256 of its UTF-8 bytes.
pub open spec fn source_digest(source: Seq<char>) -> Seq<char> {
    hex_lower(sha256(vstd::utf8::encode_utf8(source)))
}

/// Lowercase hex SHA-256 of the UTF-8 bytes of `source`.
pub fn source_sha256(source: &str) -> (r: String)
    ensures
        r@ == source_digest(source@),
        r@.len() == 64,
{
    let bytes = source.as_bytes();
    let d = sha256_bytes(bytes);
    proof {
        lemma_hex_lower_len(d@);
    }
    hex_encode(d.as_slice())
}

} // verus!
