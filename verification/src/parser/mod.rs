//! Mermaid source parser: detects the diagram type and dispatches to the
//! diagram-specific parsers.

pub mod types;
pub mod lexer;
pub mod flowchart;
pub mod sequence;

use crate::parser::flowchart::{flowchart_error, flowchart_of};
use crate::parser::lexer::{detect, detect_diagram_type};
use crate::parser::sequence::{sequence_error, sequence_of};
use crate::parser::types::{DiagramAst, DiagramType, edges_model, nodes_model, participants_model, stmts_model};
use crate::svg::MermaidRenderError;
use crate::text::lines;
use vstd::prelude::*;

verus! {

/// Parses Mermaid source text into a typed AST. The first line that is
/// neither blank nor a `%%` comment decides the diagram type:
/// `sequenceDiagram` gives a sequence diagram, `graph` / `flowchart` a
/// flowchart. The result is the detector's error, or the chosen parser's
/// result (its error with the same message).
pub fn parse(source: &str) -> (r: Result<DiagramAst, MermaidRenderError>)
    ensures
        match detect(lines(source@)) {
            Ok(DiagramType::Sequence) => match sequence_of(source@) {
                Some((ps, ss)) => r matches Ok(DiagramAst::Sequence(d)) && participants_model(
                    d.participants@,
                ) == ps && stmts_model(d.statements@) == ss,
                None => r matches Err(MermaidRenderError::Parse(m)) && m@ == sequence_error(source@),
            },
            Ok(DiagramType::Flowchart) => match flowchart_of(source@) {
                Some((dir, st)) => r matches Ok(DiagramAst::Flowchart(fc)) && fc.direction == dir
                    && nodes_model(fc.nodes@) == st.nodes && edges_model(fc.edges@) == st.edges
                    && fc.subgraphs@.len() == 0,
                None => r matches Err(MermaidRenderError::Parse(m)) && m@ == flowchart_error(source@),
            },
            Err(Some(t)) => r matches Err(MermaidRenderError::UnsupportedDiagramType(m)) && m@ == t,
            Err(None) => r matches Err(MermaidRenderError::Parse(m)) && m@ == crate::parser::lexer::BLANK_SOURCE@,
        },
{
    let kind = detect_diagram_type(source)?;
    match kind {
        DiagramType::Sequence => {
            let d = sequence::parse(source)?;
            Ok(DiagramAst::Sequence(d))
        },
        DiagramType::Flowchart => {
            let fc = flowchart::parse(source)?;
            Ok(DiagramAst::Flowchart(fc))
        },
    }
}

} // verus!
