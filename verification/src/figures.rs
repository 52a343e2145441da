//! Exported figures: for a document `foo.md`, every Mermaid diagram becomes
//! a sibling `foo_fig_01.png`, `foo_fig_02.png`, … numbered 1-based in
//! document order, zero-padded to `max(2, digits(total))` so a listing sorts
//! the figures next to their document. Each PNG embeds its Mermaid source
//! (per-artifact UUID and SHA-256) and is read back before it is written.

use crate::codec::{
    embed_with_uuid, embeddable, embedded_png, extract, has_iend, itxt_truncated, new_uuid, parse_png,
    payload_truncated,
    read_error, stored_payload, MermaidError, VerificationStatus,
};
use crate::digest::{source_digest, source_sha256};
use crate::text::{chars_of, decimal, decimal_chars, ends_with, push_all, push_str, starts_with, string_of};
use vstd::prelude::*;
use vstd::string::StringSliceAdditionalSpecFns;

verus! {

// ── Naming ─────────────────────────────────────────────────────────────────

/// Zero-pad width for `total` figures: `max(2, digits(total))`.
pub open spec fn width_for(total: nat) -> nat {
    if decimal(total).len() < 2 {
        2
    } else {
        decimal(total).len()
    }
}

/// Zero-pad width for `total` figures: `max(2, digits(total))`.
pub fn figure_width(total: usize) -> (r: usize)
    ensures
        r == width_for(total as nat),
{
    let d = decimal_chars(total);
    if d.len() < 2 {
        2
    } else {
        d.len()
    }
}

/// `d` left-padded with zeros to `width` characters.
pub open spec fn zero_pad(d: Seq<char>, width: nat) -> Seq<char> {
    Seq::new(if width > d.len() { (width - d.len()) as nat } else { 0 }, |i: int| '0') + d
}

/// The file name of figure number `n` (1-based) of document `stem`, its
/// number zero-padded to `width`.
pub open spec fn figure_name_for(stem: Seq<char>, n: nat, width: nat) -> Seq<char> {
    stem + "_fig_"@ + zero_pad(decimal(n), width) + ".png"@
}

/// An ASCII digit.
pub open spec fn is_digit(c: char) -> bool {
    '0' <= c <= '9'
}

/// `name` is exactly `<stem>_fig_<NN>.png` with `NN` one or more ASCII
/// digits, of any width.
pub open spec fn figure_name_of(name: Seq<char>, stem: Seq<char>) -> bool {
    let rest = name.skip(stem.len() as int);
    let rest2 = rest.skip("_fig_"@.len() as int);
    let digits = rest2.take(rest2.len() - ".png"@.len());
    &&& starts_with(name, stem)
    &&& starts_with(rest, "_fig_"@)
    &&& ends_with(rest2, ".png"@)
    &&& digits.len() > 0
    &&& forall|i: int| 0 <= i < digits.len() ==> is_digit(#[trigger] digits[i])
}

/// The file name of figure number `n` (1-based) of document `stem`.
pub fn figure_name(stem: &str, n: usize, width: usize) -> (r: String)
    ensures
        r@ == figure_name_for(stem@, n as nat, width as nat),
{
    let mut out: Vec<char> = Vec::new();
    push_str(&mut out, stem);
    push_str(&mut out, "_fig_");
    let d = decimal_chars(n);
    let mut k = d.len();
    let ghost before = out@;
    while k < width
        invariant
            d.len() <= k <= width || (k == d.len() && width < d.len()),
            out@ == before + Seq::new((k - d.len()) as nat, |i: int| '0'),
        decreases width - k,
    {
        out.push('0');
        k = k + 1;
        assert(out@ =~= before + Seq::new((k - d.len()) as nat, |i: int| '0'));
    }
    push_all(&mut out, d.as_slice());
    push_str(&mut out, ".png");
    assert(out@ =~= figure_name_for(stem@, n as nat, width as nat));
    string_of(out.as_slice())
}

/// Whether `name` is an auto-generated figure of document `stem`: exactly
/// `<stem>_fig_<NN>.png` with `NN` one or more ASCII digits.
pub fn is_figure_name(name: &str, stem: &str) -> (b: bool)
    ensures
        b == figure_name_of(name@, stem@),
{
    let n = chars_of(name);
    let s = chars_of(stem);
    let mid = chars_of("_fig_");
    let ext = chars_of(".png");
    if !crate::text::has_prefix(n.as_slice(), s.as_slice()) {
        return false;
    }
    let rest = crate::text::slice_vec(n.as_slice(), s.len(), n.len());
    assert(rest@ =~= name@.skip(stem@.len() as int));
    if !crate::text::has_prefix(rest.as_slice(), mid.as_slice()) {
        return false;
    }
    let rest2 = crate::text::slice_vec(rest.as_slice(), mid.len(), rest.len());
    assert(rest2@ =~= rest@.skip("_fig_"@.len() as int));
    if ext.len() > rest2.len() {
        return false;
    }
    let cut = rest2.len() - ext.len();
    let tail = crate::text::slice_vec(rest2.as_slice(), cut, rest2.len());
    let is_png = tail.len() == ext.len() && crate::text::has_prefix(tail.as_slice(), ext.as_slice());
    proof {
        assert(tail@ =~= rest2@.skip(rest2@.len() - ".png"@.len()));
        if tail@.len() == ext@.len() {
            assert(tail@.take(tail@.len() as int) =~= tail@);
        }
    }
    if !is_png {
        return false;
    }
    let digits = crate::text::slice_vec(rest2.as_slice(), 0, cut);
    assert(digits@ =~= rest2@.take(rest2@.len() - ".png"@.len()));
    if digits.len() == 0 {
        return false;
    }
    let ghost want = figure_name_of(name@, stem@);
    let ghost nonempty_rest = starts_with(name@, stem@) && starts_with(
        name@.skip(stem@.len() as int),
        "_fig_"@,
    ) && ends_with(rest2@, ".png"@) && digits@.len() > 0;
    assert(want == (nonempty_rest && forall|j: int| 0 <= j < digits@.len() ==> is_digit(#[trigger] digits@[j])));
    let mut i: usize = 0;
    while i < digits.len()
        invariant
            i <= digits@.len(),
            want == (nonempty_rest && forall|j: int| 0 <= j < digits@.len() ==> is_digit(#[trigger] digits@[j])),
            nonempty_rest,
            want == figure_name_of(name@, stem@),
            forall|j: int| 0 <= j < i ==> is_digit(#[trigger] digits@[j]),
        decreases digits.len() - i,
    {
        let c = digits[i];
        if !('0' <= c && c <= '9') {
            assert(!is_digit(digits@[i as int]));
            return false;
        }
        i = i + 1;
    }
    true
}

proof fn lemma_decimal_digits(n: nat)
    ensures
        decimal(n).len() > 0,
        forall|i: int| 0 <= i < decimal(n).len() ==> is_digit(#[trigger] decimal(n)[i]),
    decreases n,
{
    if n >= 10 {
        lemma_decimal_digits(n / 10);
        let p = decimal(n / 10);
        let q = p.push(crate::text::digit_char((n % 10) as nat));
        assert forall|i: int| 0 <= i < q.len() implies is_digit(#[trigger] q[i]) by {
            if i < p.len() {
                assert(q[i] == p[i]);
            }
        }
    }
}

/// Law: every figure name the exporter writes is recognized as a figure of
/// its document, so re-exporting prunes exactly the document's own figures.
pub proof fn law_figure_names_recognized(stem: Seq<char>, n: nat, width: nat)
    ensures
        figure_name_of(figure_name_for(stem, n, width), stem),
{
    reveal_strlit("_fig_");
    reveal_strlit(".png");
    lemma_decimal_digits(n);
    let name = figure_name_for(stem, n, width);
    let digits = zero_pad(decimal(n), width);
    let rest = name.skip(stem.len() as int);
    assert(rest =~= "_fig_"@ + digits + ".png"@);
    let rest2 = rest.skip(5);
    assert(rest2 =~= digits + ".png"@);
    assert(rest2.take(rest2.len() - 4) =~= digits);
    assert(rest2.skip(rest2.len() - 4) =~= ".png"@);
    assert(name.take(stem.len() as int) =~= stem);
    assert(rest.take(5) =~= "_fig_"@);
    assert forall|i: int| 0 <= i < digits.len() implies is_digit(#[trigger] digits[i]) by {
        let z = if width > decimal(n).len() {
            (width - decimal(n).len()) as nat
        } else {
            0
        };
        if i >= z {
            assert(digits[i] == decimal(n)[i - z]);
        }
    }
}

/// A planned figure: where its PNG goes and the Mermaid source it renders.
#[derive(Debug, Clone, PartialEq, Eq)]
pub struct FigurePlan {
    /// Sibling PNG path, `<dir>/<stem>_fig_<NN>.png`.
    pub path: String,
    /// The Mermaid source of this figure.
    pub source: String,
}

/// The result of writing one figure.
#[derive(Debug, Clone)]
pub struct FigureResult {
    /// The PNG path that was written.
    pub path: String,
    /// The per-artifact UUID embedded in the PNG.
    pub uuid: String,
    /// SHA-256 of the Mermaid source.
    pub sha256: String,
    /// Size of the written PNG in bytes.
    pub bytes: usize,
}

/// Where figure `name` goes: beside the document in `dir`, or relative to
/// the current directory when the document path has no directory.
pub open spec fn figure_path(dir: Option<Seq<char>>, name: Seq<char>) -> Seq<char> {
    match dir {
        Some(d) => crate::rpc::join_path(d, name),
        None => name,
    }
}

/// The plans for the Mermaid blocks `blocks` of document `stem` in `dir`:
/// one per block, in document order, numbered from 1.
pub fn plan_figures(blocks: &[String], stem: &str, dir: Option<&str>) -> (r: Vec<FigurePlan>)
    ensures
        r@.len() == blocks@.len(),
        forall|i: int|
            0 <= i < r@.len() ==> (#[trigger] r@[i]).source@ == blocks@[i]@ && r@[i].path@
                == figure_path(
                match dir {
                    Some(d) => Some(d@),
                    None => None,
                },
                figure_name_for(stem@, (i + 1) as nat, width_for(blocks@.len() as nat)),
            ),
{
    let total = blocks.len();
    let mut out: Vec<FigurePlan> = Vec::new();
    if total == 0 {
        return out;
    }
    let width = figure_width(total);
    let mut i: usize = 0;
    while i < total
        invariant
            total == blocks@.len(),
            width == width_for(total as nat),
            i <= total,
            out@.len() == i,
            forall|j: int|
                0 <= j < i ==> (#[trigger] out@[j]).source@ == blocks@[j]@ && out@[j].path@
                    == figure_path(
                    match dir {
                        Some(d) => Some(d@),
                        None => None,
                    },
                    figure_name_for(stem@, (j + 1) as nat, width as nat),
                ),
        decreases total - i,
    {
        let name = figure_name(stem, i + 1, width);
        let path = match dir {
            Some(d) => {
                let dv = chars_of(d);
                let nv = chars_of(name.as_str());
                let mut p: Vec<char> = Vec::new();
                push_all(&mut p, dv.as_slice());
                if dv.len() > 0 && dv[dv.len() - 1] != '/' {
                    p.push('/');
                }
                push_all(&mut p, nv.as_slice());
                assert(p@ =~= crate::rpc::join_path(d@, name@));
                string_of(p.as_slice())
            },
            None => name,
        };
        out.push(FigurePlan { path, source: blocks[i].clone() });
        i = i + 1;
    }
    out
}

// ── Embedding a captured PNG ───────────────────────────────────────────────

/// Largest captured PNG accepted: 8 MiB.
pub const MAX_CAPTURED_PNG_BYTES: usize = 8388608;

/// Largest Mermaid source accepted, in UTF-8 bytes: 1 MiB.
pub const MAX_MERMAID_SOURCE_BYTES: usize = 1048576;

/// Largest source-bearing PNG written: 16 MiB.
pub const MAX_EMBEDDED_PNG_BYTES: usize = 16777216;

/// A PNG with its Mermaid source embedded and read back.
pub struct EmbeddedPng {
    pub uuid: String,
    pub sha256: String,
    pub bytes: Vec<u8>,
}

/// Which part of the payload did not read back as written.
#[derive(Debug, Clone, Copy, PartialEq, Eq)]
pub enum RoundTrip {
    Source,
    Uuid,
    Digest,
}

/// Why a captured PNG could not be given its source.
#[derive(Debug)]
pub enum FigureError {
    /// The captured PNG exceeds its limit.
    CapturedTooLarge { bytes: usize, limit: usize },
    /// The Mermaid source exceeds its limit.
    SourceTooLarge { bytes: usize, limit: usize },
    /// Embedding, or reading the payload back, failed.
    Embed(MermaidError),
    /// The embedded PNG holds a truncated payload chunk that cannot be read.
    Unreadable,
    /// The payload read back differs from what was embedded.
    NotRoundTripped(RoundTrip),
    /// The source-bearing PNG exceeds its limit.
    EmbeddedTooLarge { bytes: usize, limit: usize },
}

/// What embedding `source` under `uuid` into the PNG `png` and reading it
/// back gives, before the size limits: `Ok` with the output bytes, or the
/// error.
pub open spec fn prepared(png: Seq<u8>, source: Seq<char>, uuid: Seq<char>) -> Result<Seq<u8>, PrepareFault> {
    match parse_png(png) {
        None => Err(PrepareFault::Png),
        Some(cs) => if !has_iend(cs) {
            Err(PrepareFault::Png)
        } else {
            let out = embedded_png(cs, source, uuid);
            if itxt_truncated(out) {
                Err(PrepareFault::Unreadable)
            } else {
                match stored_payload(out) {
                    None => Err(PrepareFault::Read(out)),
                    Some(f) => if f.1.len() != 0 && source_digest(f.0) != f.1 {
                        Err(PrepareFault::DigestMismatch)
                    } else if f.0 != source {
                        Err(PrepareFault::Mismatch(RoundTrip::Source))
                    } else if f.2 != uuid {
                        Err(PrepareFault::Mismatch(RoundTrip::Uuid))
                    } else if f.1.len() == 0 {
                        Err(PrepareFault::Mismatch(RoundTrip::Digest))
                    } else {
                        Ok(out)
                    },
                }
            }
        },
    }
}

/// The failure cases of `prepared`.
pub enum PrepareFault {
    /// The input is not a PNG.
    Png,
    /// The output holds a truncated payload chunk.
    Unreadable,
    /// The output's payload cannot be read (the bytes of the output).
    Read(Seq<u8>),
    /// The stored digest does not match the stored source.
    DigestMismatch,
    /// A field read back differs.
    Mismatch(RoundTrip),
}

/// `e` is the error for the fault `f`.
pub open spec fn fault_error(f: PrepareFault, e: FigureError) -> bool {
    match f {
        PrepareFault::Png => e matches FigureError::Embed(m) && m is Png,
        PrepareFault::Unreadable => e is Unreadable,
        PrepareFault::Read(out) => e matches FigureError::Embed(m) && read_error(out, m),
        PrepareFault::DigestMismatch => e matches FigureError::Embed(m) && m is VerificationFailed,
        PrepareFault::Mismatch(w) => e == FigureError::NotRoundTripped(w),
    }
}

/// Embeds `source` under `uuid` into the PNG `png_bytes` and reads the
/// payload back, refusing any output whose source, UUID or digest do not
/// read back as written. A PNG that ends with `IEND` (and whose payload fits
/// a chunk) always succeeds.
#[verifier::rlimit(40)]
pub fn prepare_embedded_png_with_uuid(png_bytes: &[u8], source: &str, uuid: &str) -> (r: Result<
    EmbeddedPng,
    FigureError,
>)
    ensures
        match prepared(png_bytes@, source@, uuid@) {
            Ok(out) => r matches Ok(e) && e.bytes@ == out && e.uuid@ == uuid@ && e.sha256@
                == source_digest(source@),
            Err(f) => r matches Err(e) && fault_error(f, e),
        },
        embeddable(png_bytes@, source@, uuid@) ==> r is Ok,
{
    let bytes = match embed_with_uuid(png_bytes, source, uuid) {
        Ok(b) => b,
        Err(e) => {
            return Err(FigureError::Embed(e));
        },
    };
    if payload_truncated(bytes.as_slice()) {
        return Err(FigureError::Unreadable);
    }
    let payload = match extract(bytes.as_slice()) {
        Ok(p) => p,
        Err(e) => {
            return Err(FigureError::Embed(e));
        },
    };
    let want_source = crate::text::owned(source);
    let want_uuid = crate::text::owned(uuid);
    if !(payload.source == want_source) {
        return Err(FigureError::NotRoundTripped(RoundTrip::Source));
    }
    if !(payload.uuid == want_uuid) {
        return Err(FigureError::NotRoundTripped(RoundTrip::Uuid));
    }
    if !payload.is_verified() {
        return Err(FigureError::NotRoundTripped(RoundTrip::Digest));
    }
    Ok(EmbeddedPng { uuid: uuid.to_owned(), sha256: source_sha256(source), bytes })
}

/// `r` is the outcome of embedding `source` under `uuid` into the captured
/// PNG `png`: the prepared output within its limit, or the error.
pub open spec fn captured(png: Seq<u8>, source: Seq<char>, uuid: Seq<char>, r: Result<EmbeddedPng, FigureError>) -> bool {
    match prepared(png, source, uuid) {
        Ok(out) => if out.len() > MAX_EMBEDDED_PNG_BYTES {
            r matches Err(FigureError::EmbeddedTooLarge { bytes, limit }) && bytes == out.len() && limit
                == MAX_EMBEDDED_PNG_BYTES
        } else {
            r matches Ok(e) && e.bytes@ == out && e.uuid@ == uuid && e.sha256@ == source_digest(source)
        },
        Err(f) => r matches Err(e) && fault_error(f, e),
    }
}

/// Gives a captured PNG its Mermaid source: the captured PNG and the
/// source must be within their limits, the payload is embedded under a
/// fresh random UUID and read back, and the result must be within its
/// limit. Nothing is written; the caller writes the bytes only on `Ok`.
pub fn embed_captured_png(png_bytes: &[u8], source: &str) -> (r: Result<EmbeddedPng, FigureError>)
    ensures
        png_bytes@.len() > MAX_CAPTURED_PNG_BYTES ==> (r matches Err(
            FigureError::CapturedTooLarge { bytes, limit },
        ) && bytes == png_bytes@.len() && limit == MAX_CAPTURED_PNG_BYTES),
        png_bytes@.len() <= MAX_CAPTURED_PNG_BYTES && source.len()
            > MAX_MERMAID_SOURCE_BYTES ==> (r matches Err(FigureError::SourceTooLarge { bytes, limit })
            && bytes == source.len() && limit == MAX_MERMAID_SOURCE_BYTES),
        png_bytes@.len() <= MAX_CAPTURED_PNG_BYTES && source.len() <= MAX_MERMAID_SOURCE_BYTES
            ==> exists|u: Seq<char>|
            u.len() == 36 && #[trigger] captured(png_bytes@, source@, u, r) && (embeddable(
                png_bytes@,
                source@,
                u,
            ) ==> (r is Ok || r matches Err(FigureError::EmbeddedTooLarge { .. }))),
{
    if png_bytes.len() > MAX_CAPTURED_PNG_BYTES {
        return Err(FigureError::CapturedTooLarge { bytes: png_bytes.len(), limit: MAX_CAPTURED_PNG_BYTES });
    }
    if source.len() > MAX_MERMAID_SOURCE_BYTES {
        return Err(FigureError::SourceTooLarge { bytes: source.len(), limit: MAX_MERMAID_SOURCE_BYTES });
    }
    let uuid = new_uuid();
    let prepared_png = prepare_embedded_png_with_uuid(png_bytes, source, uuid.as_str());
    let ghost u = uuid@;
    let r = match prepared_png {
        Ok(e) => {
            if e.bytes.len() > MAX_EMBEDDED_PNG_BYTES {
                let n = e.bytes.len();
                Err(FigureError::EmbeddedTooLarge { bytes: n, limit: MAX_EMBEDDED_PNG_BYTES })
            } else {
                Ok(e)
            }
        },
        Err(e) => Err(e),
    };
    assert(captured(png_bytes@, source@, u, r));
    r
}

} // verus!
