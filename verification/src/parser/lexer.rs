//! Top-level diagram type detection.

use crate::parser::types::DiagramType;
use crate::svg::MermaidRenderError;
use crate::text::{chars_of, eq_ci, has_prefix_ci, is_skippable, lines, lines_view, owned, skippable, source_lines, starts_with_ci, string_of, trim, trimmed_line};
use vstd::prelude::*;

verus! {

/// `t` opens a flowchart: `graph` or `flowchart` (any ASCII case), alone or
/// followed by a space or tab.
pub open spec fn is_flowchart_header(t: Seq<char>) -> bool {
    ||| starts_with_ci(t, "graph "@)
    ||| starts_with_ci(t, "graph\t"@)
    ||| eq_ci(t, "graph"@)
    ||| starts_with_ci(t, "flowchart "@)
    ||| starts_with_ci(t, "flowchart\t"@)
    ||| eq_ci(t, "flowchart"@)
}

/// What the first content line of `ls` declares: `Ok` with the diagram type;
/// `Err(Some(t))` for an unsupported first content line `t`; `Err(None)` when
/// every line is blank or a comment.
pub open spec fn detect(ls: Seq<Seq<char>>) -> Result<DiagramType, Option<Seq<char>>>
    decreases ls.len(),
{
    if ls.len() == 0 {
        Err(None)
    } else {
        let t = trim(ls[0]);
        if is_skippable(t) {
            detect(ls.drop_first())
        } else if starts_with_ci(t, "sequencediagram"@) {
            Ok(DiagramType::Sequence)
        } else if is_flowchart_header(t) {
            Ok(DiagramType::Flowchart)
        } else {
            Err(Some(t))
        }
    }
}

fn lit_prefix_ci(t: &[char], p: &str) -> (b: bool)
    ensures
        b == starts_with_ci(t@, p@),
{
    let pv = chars_of(p);
    has_prefix_ci(t, pv.as_slice())
}

fn lit_eq_ci(t: &[char], p: &str) -> (b: bool)
    ensures
        b == eq_ci(t@, p@),
{
    let pv = chars_of(p);
    t.len() == pv.len() && has_prefix_ci(t, pv.as_slice())
}

/// Executable `is_flowchart_header`.
pub fn flowchart_header(t: &[char]) -> (b: bool)
    ensures
        b == is_flowchart_header(t@),
{
    lit_prefix_ci(t, "graph ") || lit_prefix_ci(t, "graph\t") || lit_eq_ci(t, "graph")
        || lit_prefix_ci(t, "flowchart ") || lit_prefix_ci(t, "flowchart\t") || lit_eq_ci(
        t,
        "flowchart",
    )
}

/// `t` opens a sequence diagram (`sequenceDiagram`, any ASCII case).
pub fn sequence_header(t: &[char]) -> (b: bool)
    ensures
        b == starts_with_ci(t@, "sequencediagram"@),
{
    lit_prefix_ci(t, "sequencediagram")
}

/// The message for a source with no content line.
pub const BLANK_SOURCE: &'static str = "empty or blank source";

/// Detects whether `source` is a `sequenceDiagram` or a `graph`/`flowchart`
/// from its first line that is neither blank nor a `%%` comment.
pub fn detect_diagram_type(source: &str) -> (r: Result<DiagramType, MermaidRenderError>)
    ensures
        match detect(lines(source@)) {
            Ok(d) => r == Ok::<DiagramType, MermaidRenderError>(d),
            Err(Some(t)) => r matches Err(MermaidRenderError::UnsupportedDiagramType(m)) && m@ == t,
            Err(None) => r matches Err(MermaidRenderError::Parse(m)) && m@ == BLANK_SOURCE@,
        },
{
    let ls = source_lines(source);
    let ghost l = lines_view(ls@);
    let mut i: usize = 0;
    assert(l.skip(0) =~= l);
    while i < ls.len()
        invariant
            i <= ls@.len(),
            l == lines_view(ls@),
            l == lines(source@),
            detect(l) == detect(l.skip(i as int)),
        decreases ls.len() - i,
    {
        let t = trimmed_line(&ls, i);
        assert(l.skip(i as int)[0] == l[i as int]);
        assert(l.skip(i as int).drop_first() =~= l.skip(i + 1));
        if skippable(t.as_slice()) {
            i = i + 1;
        } else if sequence_header(t.as_slice()) {
            return Ok(DiagramType::Sequence);
        } else if flowchart_header(t.as_slice()) {
            return Ok(DiagramType::Flowchart);
        } else {
            return Err(MermaidRenderError::UnsupportedDiagramType(string_of(t.as_slice())));
        }
    }
    assert(l.skip(i as int) =~= Seq::<Seq<char>>::empty());
    Err(MermaidRenderError::Parse(owned(BLANK_SOURCE)))
}

} // verus!
