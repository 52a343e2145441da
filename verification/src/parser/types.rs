//! Shared AST types for all diagram variants, and their mathematical models
//! (strings as character sequences, vectors as sequences).

use vstd::prelude::*;

verus! {

// ── Diagram type ───────────────────────────────────────────────────────────

/// The kind of diagram the first content line declares.
#[derive(Debug, Clone, Copy, PartialEq, Eq)]
pub enum DiagramType {
    Sequence,
    Flowchart,
}

/// Top-level AST node — one variant per supported diagram type.
#[derive(Debug)]
pub enum DiagramAst {
    Sequence(SequenceDiagram),
    Flowchart(FlowchartDiagram),
}

// ── Sequence diagram ───────────────────────────────────────────────────────

#[derive(Debug)]
pub struct SequenceDiagram {
    pub participants: Vec<Participant>,
    /// Top-level statement list (messages, notes, blocks).
    pub statements: Vec<SequenceStatement>,
}

#[derive(Debug, Clone)]
pub struct Participant {
    /// The alias used to reference this participant in messages.
    pub alias: String,
    /// Display label (defaults to alias if not given).
    pub display: String,
    pub kind: ParticipantKind,
}

#[derive(Debug, Clone, Copy, PartialEq, Eq)]
pub enum ParticipantKind {
    Participant,
    Actor,
}

#[derive(Debug)]
pub enum SequenceStatement {
    Message(Message),
    Note(Note),
    Activate(String),
    Deactivate(String),
    Block(Block),
}

#[derive(Debug, Clone)]
pub struct Message {
    pub from: String,
    pub to: String,
    pub text: String,
    pub arrow: ArrowType,
}

#[derive(Debug, Clone, Copy, PartialEq, Eq)]
pub enum ArrowType {
    /// `->`
    Solid,
    /// `->>`
    SolidAsync,
    /// `-->`
    Dotted,
    /// `-->>`
    DottedAsync,
    /// `-x`
    Cross,
    /// `--x`
    DotCross,
    /// `-)`
    Point,
    /// `--)`
    DotPoint,
}

#[derive(Debug, Clone)]
pub struct Note {
    pub position: NotePosition,
    /// One or two participant aliases (for `Note over A,B`).
    pub participants: Vec<String>,
    pub text: String,
}

#[derive(Debug, Clone, Copy, PartialEq, Eq)]
pub enum NotePosition {
    Over,
    LeftOf,
    RightOf,
}

/// Grouped statement blocks (loop, alt, opt, par).
#[derive(Debug)]
pub enum Block {
    Loop { label: String, body: Vec<SequenceStatement> },
    /// Each case is `(condition_label, statements)`; the first is `if`, the
    /// rest are `else`.
    Alt { cases: Vec<(String, Vec<SequenceStatement>)> },
    Opt { label: String, body: Vec<SequenceStatement> },
    Par { sections: Vec<(String, Vec<SequenceStatement>)> },
}

// ── Flowchart ──────────────────────────────────────────────────────────────

#[derive(Debug, Clone)]
pub struct FlowchartDiagram {
    pub direction: Direction,
    pub nodes: Vec<FlowNode>,
    pub edges: Vec<FlowEdge>,
    pub subgraphs: Vec<Subgraph>,
}

#[derive(Debug, Clone, Copy, PartialEq, Eq)]
pub enum Direction {
    TD,
    LR,
    BT,
    RL,
}

#[derive(Debug, Clone)]
pub struct FlowNode {
    pub id: String,
    /// Display label; `None` means render the id as-is.
    pub label: Option<String>,
    pub shape: NodeShape,
}

#[derive(Debug, Clone, Copy, PartialEq, Eq)]
pub enum NodeShape {
    /// `[text]`
    Rect,
    /// `(text)`
    Rounded,
    /// `{text}`
    Diamond,
    /// `([text])`
    Stadium,
    /// `((text))`
    Circle,
    /// `{{text}}`
    Hexagon,
}

#[derive(Debug, Clone)]
pub struct FlowEdge {
    pub from: String,
    pub to: String,
    pub label: Option<String>,
    pub kind: EdgeKind,
}

#[derive(Debug, Clone, Copy, PartialEq, Eq)]
pub enum EdgeKind {
    /// `-->`
    Arrow,
    /// `---`
    Line,
    /// `-.->`
    Dotted,
    /// `==>`
    Thick,
}

#[derive(Debug, Clone)]
pub struct Subgraph {
    pub id: String,
    pub label: Option<String>,
    /// Node ids that belong to this subgraph.
    pub node_ids: Vec<String>,
}

// ── Models ─────────────────────────────────────────────────────────────────

/// Model of a participant.
pub struct ParticipantModel {
    pub alias: Seq<char>,
    pub display: Seq<char>,
    pub kind: ParticipantKind,
}

/// Model of a sequence statement.
pub enum StmtModel {
    Message { from: Seq<char>, to: Seq<char>, text: Seq<char>, arrow: ArrowType },
    Note { position: NotePosition, participants: Seq<Seq<char>>, text: Seq<char> },
    Activate(Seq<char>),
    Deactivate(Seq<char>),
    Loop { label: Seq<char>, body: Seq<StmtModel> },
    Alt { cases: Seq<(Seq<char>, Seq<StmtModel>)> },
    Opt { label: Seq<char>, body: Seq<StmtModel> },
    Par { sections: Seq<(Seq<char>, Seq<StmtModel>)> },
}

/// Model of a flowchart node.
pub struct NodeModel {
    pub id: Seq<char>,
    pub label: Option<Seq<char>>,
    pub shape: NodeShape,
}

/// Model of a flowchart edge.
pub struct EdgeModel {
    pub from: Seq<char>,
    pub to: Seq<char>,
    pub label: Option<Seq<char>>,
    pub kind: EdgeKind,
}

pub open spec fn participant_model(p: Participant) -> ParticipantModel {
    ParticipantModel { alias: p.alias@, display: p.display@, kind: p.kind }
}

pub open spec fn participants_model(v: Seq<Participant>) -> Seq<ParticipantModel> {
    Seq::new(v.len(), |i: int| participant_model(v[i]))
}

pub open spec fn strings_model(v: Seq<String>) -> Seq<Seq<char>> {
    Seq::new(v.len(), |i: int| v[i]@)
}

pub open spec fn stmt_model(s: SequenceStatement) -> StmtModel
    decreases s, 0nat,
{
    match s {
        SequenceStatement::Message(m) => StmtModel::Message {
            from: m.from@,
            to: m.to@,
            text: m.text@,
            arrow: m.arrow,
        },
        SequenceStatement::Note(n) => StmtModel::Note {
            position: n.position,
            participants: strings_model(n.participants@),
            text: n.text@,
        },
        SequenceStatement::Activate(p) => StmtModel::Activate(p@),
        SequenceStatement::Deactivate(p) => StmtModel::Deactivate(p@),
        SequenceStatement::Block(Block::Loop { label, body }) => StmtModel::Loop {
            label: label@,
            body: stmts_model(body@),
        },
        SequenceStatement::Block(Block::Alt { cases }) => StmtModel::Alt { cases: cases_model(cases@) },
        SequenceStatement::Block(Block::Opt { label, body }) => StmtModel::Opt {
            label: label@,
            body: stmts_model(body@),
        },
        SequenceStatement::Block(Block::Par { sections }) => StmtModel::Par {
            sections: cases_model(sections@),
        },
    }
}

pub open spec fn stmts_model(v: Seq<SequenceStatement>) -> Seq<StmtModel>
    decreases v, 1nat,
{
    if v.len() == 0 {
        seq![]
    } else {
        stmts_model(v.drop_last()).push(stmt_model(v.last()))
    }
}

pub open spec fn cases_model(v: Seq<(String, Vec<SequenceStatement>)>) -> Seq<(Seq<char>, Seq<StmtModel>)>
    decreases v, 1nat,
{
    if v.len() == 0 {
        seq![]
    } else {
        cases_model(v.drop_last()).push((v.last().0@, stmts_model(v.last().1@)))
    }
}

pub open spec fn opt_string_model(o: Option<String>) -> Option<Seq<char>> {
    match o {
        Some(s) => Some(s@),
        None => None,
    }
}

pub open spec fn node_model(n: FlowNode) -> NodeModel {
    NodeModel { id: n.id@, label: opt_string_model(n.label), shape: n.shape }
}

pub open spec fn nodes_model(v: Seq<FlowNode>) -> Seq<NodeModel> {
    Seq::new(v.len(), |i: int| node_model(v[i]))
}

pub open spec fn edge_model(e: FlowEdge) -> EdgeModel {
    EdgeModel { from: e.from@, to: e.to@, label: opt_string_model(e.label), kind: e.kind }
}

pub open spec fn edges_model(v: Seq<FlowEdge>) -> Seq<EdgeModel> {
    Seq::new(v.len(), |i: int| edge_model(v[i]))
}

} // verus!
