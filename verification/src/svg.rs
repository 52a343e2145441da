//! Mermaid rendering with provenance: SVG output from `mermaid-rs-renderer`
//! carries a `<metadata>` element holding the original source (XML-escaped)
//! and its SHA-256, so the file is self-describing and round-trippable.

use crate::digest::{source_digest, source_sha256};
use crate::escape::{escape, push_escape, EscapeSet};
use crate::text::{chars_of, find_chars, find_from, push_all, push_str, string_of};
use vstd::prelude::*;

verus! {

/// XML namespace for Scrybe's Mermaid provenance metadata.
pub const SCRYBE_MERMAID_NS: &'static str = "https://scrybe.ai/ns/mermaid";

/// Failures of the diagram pipeline.
#[derive(Debug)]
pub enum MermaidRenderError {
    /// The first content line names a diagram type that is not supported.
    UnsupportedDiagramType(String),
    /// The source does not parse.
    Parse(String),
    /// Layout failed.
    Layout(String),
    /// SVG generation failed.
    Svg(String),
    /// PNG rasterization failed.
    Png(String),
    /// The stage is not implemented.
    NotImplemented(String),
}

#[verifier::external_type_specification]
#[verifier::external_body]
pub struct ExAnyhowError(anyhow::Error);

/// The SVG text holds an opening `<svg …>` tag: a `<svg` with a `>` after it.
pub open spec fn has_svg_tag(svg: Seq<char>) -> bool {
    find_from(svg, "<svg"@, 0) matches Some(a) && find_from(svg, ">"@, a) is Some
}

/// Calls `mermaid_rs_renderer::render`, the pure-Rust Mermaid renderer.
/// Claims only what holds of every SVG it returns: the text opens with the
/// `<svg …>` element tag. The rest of the text is not stated: the
/// renderer's layout walks hash maps, so nothing here claims that equal
/// sources give equal text. The renderer's layout code holds `unwrap` and
/// `expect` calls; no input on which one of them fails is known, and none
/// is excluded here.
#[verifier::external_body]
pub fn render_svg(source: &str) -> (r: Result<String, anyhow::Error>)
    ensures
        r matches Ok(svg) ==> has_svg_tag(svg@),
{
    mermaid_rs_renderer::render(source)
}

/// The `<metadata>` element recording `source` and its digest.
pub open spec fn metadata_element(source: Seq<char>) -> Seq<char> {
    "<metadata xmlns:scrybe=\""@ + SCRYBE_MERMAID_NS@ + "\"><scrybe:source>"@ + escape(
        source,
        EscapeSet::Xml,
    ) + "</scrybe:source><scrybe:sha256>"@ + source_digest(source)
        + "</scrybe:sha256></metadata>"@
}

/// `svg` with the metadata element for `source` inserted right after the
/// opening `<svg …>` tag; unchanged when there is no such tag.
pub open spec fn with_metadata(svg: Seq<char>, source: Seq<char>) -> Seq<char> {
    match find_from(svg, "<svg"@, 0) {
        Some(a) => match find_from(svg, ">"@, a) {
            Some(b) => svg.take(b + 1) + metadata_element(source) + svg.skip(b + 1),
            None => svg,
        },
        None => svg,
    }
}

/// Inserts the Scrybe `<metadata>` element immediately after the opening
/// `<svg …>` tag. If no `<svg>` element is found, the input is returned
/// unchanged.
pub fn inject_metadata(svg: &str, source: &str) -> (r: String)
    ensures
        r@ == with_metadata(svg@, source@),
{
    let s = chars_of(svg);
    let open = chars_of("<svg");
    let gt = chars_of(">");
    proof {
        reveal_strlit(">");
        assert(gt@.len() == 1);
    }
    match find_chars(s.as_slice(), open.as_slice(), 0) {
        Some(a) => {
            match find_chars(s.as_slice(), gt.as_slice(), a) {
                Some(b) => {
                    assert(crate::text::occurs_at(s@, gt@, b as int));
                    let n = s.len();
                    assert(b + 1 <= n);
                    let mut out = crate::text::slice_vec(s.as_slice(), 0, b + 1);
                    push_metadata(&mut out, source);
                    let tail = crate::text::slice_vec(s.as_slice(), b + 1, s.len());
                    push_all(&mut out, tail.as_slice());
                    assert(s@.subrange(0, b + 1) =~= s@.take(b + 1));
                    assert(s@.subrange(b + 1, s@.len() as int) =~= s@.skip(b + 1));
                    string_of(out.as_slice())
                },
                None => string_of(s.as_slice()),
            }
        },
        None => string_of(s.as_slice()),
    }
}

/// Appends the metadata element for `source` to `out`.
fn push_metadata(out: &mut Vec<char>, source: &str)
    ensures
        final(out)@ == old(out)@ + metadata_element(source@),
{
    push_str(out, "<metadata xmlns:scrybe=\"");
    push_str(out, SCRYBE_MERMAID_NS);
    push_str(out, "\"><scrybe:source>");
    let src = chars_of(source);
    push_escape(out, src.as_slice(), EscapeSet::Xml);
    push_str(out, "</scrybe:source><scrybe:sha256>");
    let sha = source_sha256(source);
    push_str(out, sha.as_str());
    push_str(out, "</scrybe:sha256></metadata>");
    assert(final(out)@ =~= old(out)@ + metadata_element(source@));
}

/// `svg`, opened by its `<svg …>` tag, with the metadata element for
/// `source` placed right after that tag.
proof fn lemma_metadata_placed(svg: Seq<char>, source: Seq<char>)
    requires
        has_svg_tag(svg),
    ensures
        exists|i: int|
            0 <= i && i + metadata_element(source).len() <= with_metadata(svg, source).len()
                && #[trigger] with_metadata(svg, source).subrange(i, i + metadata_element(source).len())
                == metadata_element(source),
{
    let a = find_from(svg, "<svg"@, 0).unwrap();
    let b = find_from(svg, ">"@, a).unwrap();
    crate::text::lemma_find_from_result(svg, ">"@, a);
    reveal_strlit(">");
    assert(b + 1 <= svg.len());
    let out = with_metadata(svg, source);
    let m = metadata_element(source);
    assert(out == svg.take(b + 1) + m + svg.skip(b + 1));
    assert(out.subrange(b + 1, b + 1 + m.len()) =~= m);
}

/// The rendered outcome `rendered` with provenance for `source`: an SVG
/// gets the metadata element for `source` injected, an error is passed on.
pub fn with_provenance(rendered: Result<String, anyhow::Error>, source: &str) -> (r: Result<
    String,
    anyhow::Error,
>)
    ensures
        match rendered {
            Ok(svg) => r matches Ok(out) && out@ == with_metadata(svg@, source@),
            Err(e) => r matches Err(x) && x == e,
        },
{
    match rendered {
        Ok(svg) => Ok(inject_metadata(svg.as_str(), source)),
        Err(e) => Err(e),
    }
}

/// Renders to SVG and injects Scrybe provenance: a `<metadata>` element
/// carrying the original source (XML-escaped) and its SHA-256, right after
/// the opening `<svg …>` tag. Fails exactly when the renderer does.
pub fn render_svg_with_source(source: &str) -> (r: Result<String, anyhow::Error>)
    ensures
        r matches Ok(out) ==> exists|svg: Seq<char>|
            has_svg_tag(svg) && out@ == #[trigger] with_metadata(svg, source@),
        r matches Ok(out) ==> exists|i: int|
            0 <= i && i + metadata_element(source@).len() <= out@.len() && #[trigger] out@.subrange(
                i,
                i + metadata_element(source@).len(),
            ) == metadata_element(source@),
{
    let rendered = render_svg(source);
    let ghost svg_v: Seq<char> = match &rendered {
        Ok(svg) => svg@,
        Err(_) => Seq::empty(),
    };
    let r = with_provenance(rendered, source);
    proof {
        if r is Ok {
            lemma_metadata_placed(svg_v, source@);
        }
    }
    r
}

/// Lowercase hex SHA-256 of `source` bytes — the digest the PNG iTXt codec
/// uses too, so a diagram's SVG and PNG provenance agree.
pub fn source_sha256_hex(source: &str) -> (r: String)
    ensures
        r@ == source_digest(source@),
        r@.len() == 64,
{
    source_sha256(source)
}

/// Rasterizes an SVG string to PNG bytes: not implemented, always an error.
pub fn rasterize(_svg: &str) -> (r: Result<Vec<u8>, MermaidRenderError>)
    ensures
        r matches Err(MermaidRenderError::NotImplemented(_)),
{
    Err(MermaidRenderError::NotImplemented(
        crate::text::owned("PNG rasterization via resvg (Drake Phase 5)"),
    ))
}

/// SVG `<defs>` block defining reusable arrowhead markers.
pub fn arrow_defs() -> (r: &'static str)
    ensures
        r@ == ARROW_DEFS@,
{
    ARROW_DEFS
}

/// The arrowhead marker definitions.
pub const ARROW_DEFS: &'static str = "<defs>
  <marker id=\"arrowhead\" markerWidth=\"10\" markerHeight=\"7\" refX=\"10\" refY=\"3.5\" orient=\"auto\">
    <polygon points=\"0 0, 10 3.5, 0 7\" fill=\"#333\"/>
  </marker>
  <marker id=\"arrowhead-open\" markerWidth=\"10\" markerHeight=\"7\" refX=\"10\" refY=\"3.5\" orient=\"auto\">
    <polyline points=\"0 0, 10 3.5, 0 7\" stroke=\"#333\" stroke-width=\"1.5\" fill=\"none\"/>
  </marker>
</defs>";

/// SVG text escaping: `&`, `<`, `>`, `"`.
pub fn escape_svg(s: &str) -> (r: String)
    ensures
        r@ == escape(s@, EscapeSet::Attr),
{
    let c = chars_of(s);
    let mut out: Vec<char> = Vec::new();
    push_escape(&mut out, c.as_slice(), EscapeSet::Attr);
    string_of(out.as_slice())
}

} // verus!
