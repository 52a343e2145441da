//! Flowchart / directed graph parser: `graph|flowchart [TD|LR|BT|RL]`, then
//! one statement per line — a node `A` or `A[text]`, or an edge `A --> B`.
//! Nodes are deduplicated in first-mention order; edge endpoints are
//! registered as bare nodes when not declared.

use crate::parser::types::{Direction, EdgeKind, EdgeModel, FlowEdge, FlowNode, FlowchartDiagram, NodeModel, NodeShape, edges_model, node_model, nodes_model};
use crate::svg::MermaidRenderError;
use crate::text::{
    chars_of, eq_ci, ends_with, find_chars, find_from, has_prefix_ci, index_of, is_skippable,
    is_whitespace, is_ws, lines, lines_view, owned, position_of, skippable, slice_vec,
    source_lines, split_words, string_of, trim, trim_chars, trimmed_line, words,
};
use vstd::prelude::*;

verus! {

// ── Specification ──────────────────────────────────────────────────────────

/// Nodes and edges collected so far.
pub struct FlowState {
    pub nodes: Seq<NodeModel>,
    pub edges: Seq<EdgeModel>,
}

/// `str::to_ascii_uppercase(d)` names a direction.
pub open spec fn direction_of(d: Seq<char>) -> Option<Direction> {
    if eq_ci(d, "TD"@) {
        Some(Direction::TD)
    } else if eq_ci(d, "LR"@) {
        Some(Direction::LR)
    } else if eq_ci(d, "BT"@) {
        Some(Direction::BT)
    } else if eq_ci(d, "RL"@) {
        Some(Direction::RL)
    } else {
        None
    }
}

/// A node id character: not whitespace, `[`, `]`, `-` or `>`.
pub open spec fn id_char(c: char) -> bool {
    !is_ws(c) && c != '[' && c != ']' && c != '-' && c != '>'
}

/// The node id written as `input`: its trimmed text, when that is non-empty
/// and made of id characters only.
pub open spec fn node_id(input: Seq<char>) -> Option<Seq<char>> {
    let id = trim(input);
    if id.len() == 0 || exists|i: int| 0 <= i < id.len() && !id_char(#[trigger] id[i]) {
        None
    } else {
        Some(id)
    }
}

/// A node statement: `A` or `A[label]`.
pub open spec fn node_stmt(t: Seq<char>) -> Option<NodeModel> {
    match index_of(t, '[') {
        Some(a) => if !ends_with(t, "]"@) {
            None
        } else {
            match node_id(trim(t.take(a))) {
                Some(id) => Some(
                    NodeModel {
                        id,
                        label: Some(trim(t.subrange(a + 1, t.len() - 1))),
                        shape: NodeShape::Rect,
                    },
                ),
                None => None,
            }
        },
        None => match node_id(t) {
            Some(id) => Some(NodeModel { id, label: None, shape: NodeShape::Rect }),
            None => None,
        },
    }
}

/// Position of the last node with id `id`.
pub open spec fn node_pos(nodes: Seq<NodeModel>, id: Seq<char>) -> Option<int>
    decreases nodes.len(),
{
    if nodes.len() == 0 {
        None
    } else if nodes.last().id == id {
        Some(nodes.len() - 1)
    } else {
        node_pos(nodes.drop_last(), id)
    }
}

/// Registers `id` as a bare node unless a node with that id exists.
pub open spec fn ensure_node(nodes: Seq<NodeModel>, id: Seq<char>) -> Seq<NodeModel> {
    match node_pos(nodes, id) {
        Some(_) => nodes,
        None => nodes.push(NodeModel { id, label: None, shape: NodeShape::Rect }),
    }
}

/// Replaces the node with `n`'s id by `n`, or appends `n`.
pub open spec fn upsert_node(nodes: Seq<NodeModel>, n: NodeModel) -> Seq<NodeModel> {
    match node_pos(nodes, n.id) {
        Some(i) => nodes.update(i, n),
        None => nodes.push(n),
    }
}

/// The state after statement line `t`, or `None` when it does not parse.
pub open spec fn flow_stmt(st: FlowState, t: Seq<char>) -> Option<FlowState> {
    match find_from(t, "-->"@, 0) {
        Some(a) => match node_id(trim(t.take(a))) {
            Some(from) => match node_id(trim(t.skip(a + 3))) {
                Some(to) => Some(
                    FlowState {
                        nodes: ensure_node(ensure_node(st.nodes, from), to),
                        edges: st.edges.push(
                            EdgeModel { from, to, label: None, kind: EdgeKind::Arrow },
                        ),
                    },
                ),
                None => None,
            },
            None => None,
        },
        None => match node_stmt(t) {
            Some(n) => Some(FlowState { nodes: upsert_node(st.nodes, n), edges: st.edges }),
            None => None,
        },
    }
}

/// The state after the statement lines `ls[pos..]`.
pub open spec fn flow_body(ls: Seq<Seq<char>>, pos: int, st: FlowState) -> Option<FlowState>
    decreases ls.len() - pos,
{
    if pos < 0 || pos >= ls.len() {
        Some(st)
    } else {
        let t = trim(ls[pos]);
        if is_skippable(t) {
            flow_body(ls, pos + 1, st)
        } else {
            match flow_stmt(st, t) {
                Some(st2) => flow_body(ls, pos + 1, st2),
                None => None,
            }
        }
    }
}

/// The header line at or after `pos`: its direction and the position after it.
pub open spec fn flow_header(ls: Seq<Seq<char>>, pos: int) -> Option<(Direction, int)>
    decreases ls.len() - pos,
{
    if pos < 0 || pos >= ls.len() {
        None
    } else {
        let t = trim(ls[pos]);
        if is_skippable(t) {
            flow_header(ls, pos + 1)
        } else {
            let ws = words(t);
            if ws.len() == 0 || !(eq_ci(ws[0], "graph"@) || eq_ci(ws[0], "flowchart"@)) {
                None
            } else if ws.len() >= 3 {
                None
            } else if ws.len() == 2 {
                match direction_of(ws[1]) {
                    Some(d) => Some((d, pos + 1)),
                    None => None,
                }
            } else {
                Some((Direction::TD, pos + 1))
            }
        }
    }
}

/// The flowchart `source` describes, or `None` when it does not parse.
pub open spec fn flowchart_of(source: Seq<char>) -> Option<(Direction, FlowState)> {
    let ls = lines(source);
    match flow_header(ls, 0) {
        Some((d, p)) => match flow_body(ls, p, FlowState { nodes: seq![], edges: seq![] }) {
            Some(st) => Some((d, st)),
            None => None,
        },
        None => None,
    }
}

/// The message of a node statement `t` that does not parse.
pub open spec fn node_stmt_error(t: Seq<char>) -> Seq<char> {
    match index_of(t, '[') {
        Some(_) => if !ends_with(t, "]"@) {
            "could not parse node"@
        } else {
            "invalid flowchart node id"@
        },
        None => "invalid flowchart node id"@,
    }
}

/// The message of a statement line `t` that does not parse.
pub open spec fn flow_stmt_error(t: Seq<char>) -> Seq<char> {
    match find_from(t, "-->"@, 0) {
        Some(_) => "invalid flowchart node id"@,
        None => node_stmt_error(t),
    }
}

/// The message of the first statement line at or after `pos` that does not
/// parse (meaningful when `flow_body(ls, pos, st)` is `None`).
pub open spec fn flow_body_error(ls: Seq<Seq<char>>, pos: int, st: FlowState) -> Seq<char>
    decreases ls.len() - pos,
{
    if pos < 0 || pos >= ls.len() {
        seq![]
    } else {
        let t = trim(ls[pos]);
        if is_skippable(t) {
            flow_body_error(ls, pos + 1, st)
        } else {
            match flow_stmt(st, t) {
                Some(st2) => flow_body_error(ls, pos + 1, st2),
                None => flow_stmt_error(t),
            }
        }
    }
}

/// The message of a header that does not parse, from line `pos` on
/// (meaningful when `flow_header(ls, pos)` is `None`).
pub open spec fn flow_header_error(ls: Seq<Seq<char>>, pos: int) -> Seq<char>
    decreases ls.len() - pos,
{
    if pos < 0 || pos >= ls.len() {
        "no graph or flowchart header found"@
    } else {
        let t = trim(ls[pos]);
        if is_skippable(t) {
            flow_header_error(ls, pos + 1)
        } else {
            let ws = words(t);
            if ws.len() == 0 || !(eq_ci(ws[0], "graph"@) || eq_ci(ws[0], "flowchart"@)) {
                "expected 'graph' or 'flowchart'"@
            } else if ws.len() >= 3 {
                "unexpected flowchart header token"@
            } else {
                "unsupported flowchart direction"@
            }
        }
    }
}

/// The message of a flowchart `source` that does not parse (meaningful
/// when `flowchart_of(source)` is `None`).
pub open spec fn flowchart_error(source: Seq<char>) -> Seq<char> {
    let ls = lines(source);
    match flow_header(ls, 0) {
        Some((_, p)) => flow_body_error(ls, p, FlowState { nodes: seq![], edges: seq![] }),
        None => flow_header_error(ls, 0),
    }
}

// ── Laws ───────────────────────────────────────────────────────────────────

/// No two nodes share an id.
pub open spec fn unique_ids(nodes: Seq<NodeModel>) -> bool {
    forall|i: int, j: int| 0 <= i < j < nodes.len() ==> nodes[i].id != nodes[j].id
}

/// `id` names some node.
pub open spec fn has_node(nodes: Seq<NodeModel>, id: Seq<char>) -> bool {
    exists|i: int| 0 <= i < nodes.len() && #[trigger] nodes[i].id == id
}

/// Both endpoints of `e` name nodes.
pub open spec fn edge_closed(nodes: Seq<NodeModel>, e: EdgeModel) -> bool {
    has_node(nodes, e.from) && has_node(nodes, e.to)
}

/// Every edge endpoint names a node.
pub open spec fn edges_closed(st: FlowState) -> bool {
    forall|k: int| 0 <= k < st.edges.len() ==> edge_closed(st.nodes, #[trigger] st.edges[k])
}

proof fn lemma_node_pos(nodes: Seq<NodeModel>, id: Seq<char>)
    ensures
        node_pos(nodes, id) matches Some(i) ==> 0 <= i < nodes.len() && nodes[i].id == id,
        node_pos(nodes, id) is None ==> !has_node(nodes, id),
    decreases nodes.len(),
{
    if nodes.len() > 0 && nodes.last().id != id {
        lemma_node_pos(nodes.drop_last(), id);
        if node_pos(nodes, id) is None {
            assert forall|i: int| 0 <= i < nodes.len() implies #[trigger] nodes[i].id != id by {
                if i < nodes.len() - 1 {
                    assert(nodes[i] == nodes.drop_last()[i]);
                }
            }
        }
    }
}

proof fn lemma_ensure_node(nodes: Seq<NodeModel>, id: Seq<char>)
    requires
        unique_ids(nodes),
    ensures
        unique_ids(ensure_node(nodes, id)),
        has_node(ensure_node(nodes, id), id),
        forall|x: Seq<char>| has_node(nodes, x) ==> has_node(ensure_node(nodes, id), x),
{
    lemma_node_pos(nodes, id);
    let r = ensure_node(nodes, id);
    if node_pos(nodes, id) is None {
        assert(r[nodes.len() as int].id == id);
        assert forall|x: Seq<char>| has_node(nodes, x) implies has_node(r, x) by {
            let i = choose|i: int| 0 <= i < nodes.len() && #[trigger] nodes[i].id == x;
            assert(r[i] == nodes[i]);
        }
    } else {
        let i = node_pos(nodes, id).unwrap();
        assert(r[i].id == id);
    }
}

proof fn lemma_upsert_node(nodes: Seq<NodeModel>, n: NodeModel)
    requires
        unique_ids(nodes),
    ensures
        unique_ids(upsert_node(nodes, n)),
        forall|x: Seq<char>| has_node(nodes, x) ==> has_node(upsert_node(nodes, n), x),
{
    lemma_node_pos(nodes, n.id);
    let r = upsert_node(nodes, n);
    assert forall|x: Seq<char>| has_node(nodes, x) implies has_node(r, x) by {
        let i = choose|i: int| 0 <= i < nodes.len() && #[trigger] nodes[i].id == x;
        if node_pos(nodes, n.id) is Some {
            if i == node_pos(nodes, n.id).unwrap() {
                assert(r[i].id == x);
            } else {
                assert(r[i] == nodes[i]);
            }
        } else {
            assert(r[i] == nodes[i]);
        }
    }
}

proof fn lemma_flow_body(ls: Seq<Seq<char>>, pos: int, st: FlowState)
    requires
        unique_ids(st.nodes),
        edges_closed(st),
    ensures
        flow_body(ls, pos, st) matches Some(r) ==> unique_ids(r.nodes) && edges_closed(r),
    decreases ls.len() - pos,
{
    if 0 <= pos < ls.len() {
        let t = trim(ls[pos]);
        if is_skippable(t) {
            lemma_flow_body(ls, pos + 1, st);
        } else if let Some(st2) = flow_stmt(st, t) {
            match find_from(t, "-->"@, 0) {
                Some(a) => {
                    let from = node_id(trim(t.take(a))).unwrap();
                    let to = node_id(trim(t.skip(a + 3))).unwrap();
                    let n1 = ensure_node(st.nodes, from);
                    let n2 = ensure_node(n1, to);
                    lemma_ensure_node(st.nodes, from);
                    lemma_ensure_node(n1, to);
                    assert(st2.nodes == n2);
                    assert(has_node(n2, from));
                    assert forall|k: int| 0 <= k < st2.edges.len() implies edge_closed(
                        st2.nodes,
                        #[trigger] st2.edges[k],
                    ) by {
                        if k < st.edges.len() {
                            assert(st2.edges[k] == st.edges[k]);
                            let e = st.edges[k];
                            assert(has_node(st.nodes, e.from) && has_node(st.nodes, e.to));
                            assert(has_node(n1, e.from) && has_node(n1, e.to));
                            assert(has_node(n2, e.from) && has_node(n2, e.to));
                        } else {
                            assert(st2.edges[k].from == from && st2.edges[k].to == to);
                        }
                    }
                    assert(edges_closed(st2));
                },
                None => {
                    let n = node_stmt(t).unwrap();
                    lemma_upsert_node(st.nodes, n);
                    let n2 = upsert_node(st.nodes, n);
                    assert(st2.nodes == n2 && st2.edges == st.edges);
                    assert forall|k: int| 0 <= k < st2.edges.len() implies edge_closed(
                        st2.nodes,
                        #[trigger] st2.edges[k],
                    ) by {
                        let e = st.edges[k];
                        assert(st2.edges[k] == e);
                        assert(has_node(st.nodes, e.from));
                        assert(has_node(st.nodes, e.to));
                        assert(has_node(n2, e.from));
                        assert(has_node(n2, e.to));
                    }
                    assert(edges_closed(st2));
                },
            }
            lemma_flow_body(ls, pos + 1, st2);
        }
    }
}

/// Law: a parsed flowchart lists each node id once, and every edge joins
/// two listed nodes.
pub proof fn law_flowchart_well_formed(source: Seq<char>)
    ensures
        flowchart_of(source) matches Some((_, st)) ==> unique_ids(st.nodes) && edges_closed(st),
{
    let ls = lines(source);
    if let Some((d, p)) = flow_header(ls, 0) {
        lemma_flow_body(ls, p, FlowState { nodes: seq![], edges: seq![] });
    }
}

// ── Implementation ─────────────────────────────────────────────────────────

fn parse_error(msg: &str) -> (e: MermaidRenderError)
    ensures
        e matches MermaidRenderError::Parse(m) && m@ == msg@,
{
    MermaidRenderError::Parse(owned(msg))
}

/// Direction named by `d` (ASCII case-insensitive).
fn parse_direction(d: &[char]) -> (r: Result<Direction, MermaidRenderError>)
    ensures
        match direction_of(d@) {
            Some(x) => r == Ok::<Direction, MermaidRenderError>(x),
            None => r matches Err(MermaidRenderError::Parse(m)) && m@
                == "unsupported flowchart direction"@,
        },
{
    let td = chars_of("TD");
    let lr = chars_of("LR");
    let bt = chars_of("BT");
    let rl = chars_of("RL");
    if d.len() == td.len() && has_prefix_ci(d, td.as_slice()) {
        Ok(Direction::TD)
    } else if d.len() == lr.len() && has_prefix_ci(d, lr.as_slice()) {
        Ok(Direction::LR)
    } else if d.len() == bt.len() && has_prefix_ci(d, bt.as_slice()) {
        Ok(Direction::BT)
    } else if d.len() == rl.len() && has_prefix_ci(d, rl.as_slice()) {
        Ok(Direction::RL)
    } else {
        Err(parse_error("unsupported flowchart direction"))
    }
}

/// The node id written as `input`.
fn parse_node_id(input: &[char]) -> (r: Result<Vec<char>, MermaidRenderError>)
    ensures
        match node_id(input@) {
            Some(id) => r matches Ok(v) && v@ == id,
            None => r matches Err(MermaidRenderError::Parse(m)) && m@ == "invalid flowchart node id"@,
        },
{
    let id = trim_chars(input);
    if id.len() == 0 {
        return Err(parse_error("invalid flowchart node id"));
    }
    let mut i: usize = 0;
    while i < id.len()
        invariant
            i <= id@.len(),
            id@ == trim(input@),
            id@.len() > 0,
            forall|j: int| 0 <= j < i ==> id_char(#[trigger] id@[j]),
        decreases id.len() - i,
    {
        let c = id[i];
        if is_whitespace(c) || c == '[' || c == ']' || c == '-' || c == '>' {
            assert(!id_char(id@[i as int]));
            assert(exists|j: int| 0 <= j < id@.len() && !id_char(#[trigger] id@[j]));
            return Err(parse_error("invalid flowchart node id"));
        }
        i = i + 1;
    }
    Ok(id)
}

/// A node statement: `A` or `A[label]`.
fn parse_node(t: &[char]) -> (r: Result<FlowNode, MermaidRenderError>)
    ensures
        match node_stmt(t@) {
            Some(n) => r matches Ok(x) && node_model(x) == n,
            None => r matches Err(MermaidRenderError::Parse(m)) && m@ == node_stmt_error(t@),
        },
{
    match position_of(t, '[') {
        Some(a) => {
            let close = chars_of("]");
            let n = t.len();
            let ends = n >= 1 && t[n - 1] == ']';
            proof {
                reveal_strlit("]");
                assert("]"@ =~= seq![']']);
                if n >= 1 {
                    assert(t@.skip(n - 1) =~= seq![t@[n - 1]]);
                    if !ends {
                        assert(t@.skip(n - 1)[0] != "]"@[0]);
                    }
                }
                assert(ends == ends_with(t@, "]"@));
            }
            if !ends {
                return Err(parse_error("could not parse node"));
            }
            let head = slice_vec(t, 0, a);
            let head_t = trim_chars(head.as_slice());
            let id = parse_node_id(head_t.as_slice())?;
            assert(t@[a as int] == '[');
            let lab = slice_vec(t, a + 1, n - 1);
            let lab_t = trim_chars(lab.as_slice());
            assert(head@ =~= t@.take(a as int));
            Ok(FlowNode { id: string_of(id.as_slice()), label: Some(string_of(lab_t.as_slice())), shape: NodeShape::Rect })
        },
        None => {
            let id = parse_node_id(t)?;
            Ok(FlowNode { id: string_of(id.as_slice()), label: None, shape: NodeShape::Rect })
        },
    }
}

/// Position of the last node with id `id`.
fn find_node(nodes: &Vec<FlowNode>, id: &String) -> (r: Option<usize>)
    ensures
        match node_pos(nodes_model(nodes@), id@) {
            Some(i) => r == Some(i as usize),
            None => r is None,
        },
{
    let ghost m = nodes_model(nodes@);
    let mut k = nodes.len();
    assert(m.take(k as int) =~= m);
    while k > 0
        invariant
            k <= nodes@.len(),
            m == nodes_model(nodes@),
            node_pos(m, id@) == node_pos(m.take(k as int), id@),
        decreases k,
    {
        let ghost mk = m.take(k as int);
        assert(mk.drop_last() =~= m.take(k - 1));
        assert(mk.last() == node_model(nodes@[k - 1]));
        if nodes[k - 1].id == *id {
            return Some(k - 1);
        }
        k = k - 1;
    }
    assert(m.take(0) =~= Seq::<NodeModel>::empty());
    None
}

fn ensure_node_exec(nodes: &mut Vec<FlowNode>, id: &String)
    ensures
        nodes_model(final(nodes)@) == ensure_node(nodes_model(old(nodes)@), id@),
{
    match find_node(nodes, id) {
        Some(_) => {},
        None => {
            nodes.push(FlowNode { id: id.clone(), label: None, shape: NodeShape::Rect });
            assert(nodes_model(final(nodes)@) =~= ensure_node(nodes_model(old(nodes)@), id@));
        },
    }
}

fn upsert_node_exec(nodes: &mut Vec<FlowNode>, n: FlowNode)
    ensures
        nodes_model(final(nodes)@) == upsert_node(nodes_model(old(nodes)@), node_model(n)),
{
    proof {
        lemma_node_pos(nodes_model(nodes@), n.id@);
    }
    match find_node(nodes, &n.id) {
        Some(i) => {
            nodes.set(i, n);
            assert(nodes_model(final(nodes)@) =~= upsert_node(nodes_model(old(nodes)@), node_model(n)));
        },
        None => {
            let ghost nm = node_model(n);
            nodes.push(n);
            assert(nodes_model(final(nodes)@) =~= upsert_node(nodes_model(old(nodes)@), nm));
        },
    }
}

/// Applies statement line `t` to the collected nodes and edges.
fn parse_statement(nodes: &mut Vec<FlowNode>, edges: &mut Vec<FlowEdge>, t: &[char]) -> (r: Result<(), MermaidRenderError>)
    ensures
        match flow_stmt(FlowState { nodes: nodes_model(old(nodes)@), edges: edges_model(old(edges)@) }, t@) {
            Some(st) => r is Ok && nodes_model(final(nodes)@) == st.nodes && edges_model(final(edges)@) == st.edges,
            None => r matches Err(MermaidRenderError::Parse(m)) && m@ == flow_stmt_error(t@),
        },
{
    let arrow = chars_of("-->");
    proof {
        reveal_strlit("-->");
    }
    match find_chars(t, arrow.as_slice(), 0) {
        Some(a) => {
            assert(arrow@.len() == 3);
            let n = t.len();
            assert(a + 3 <= n);
            let head = slice_vec(t, 0, a);
            let head_t = trim_chars(head.as_slice());
            let tail = slice_vec(t, a + 3, n);
            let tail_t = trim_chars(tail.as_slice());
            assert(head@ =~= t@.take(a as int));
            assert(tail@ =~= t@.skip(a + 3));
            let from = parse_node_id(head_t.as_slice())?;
            let to = parse_node_id(tail_t.as_slice())?;
            let from_s = string_of(from.as_slice());
            let to_s = string_of(to.as_slice());
            ensure_node_exec(nodes, &from_s);
            ensure_node_exec(nodes, &to_s);
            let ghost old_edges = edges@;
            edges.push(FlowEdge { from: from_s, to: to_s, label: None, kind: EdgeKind::Arrow });
            assert(edges_model(final(edges)@) =~= edges_model(old_edges).push(
                EdgeModel { from: from@, to: to@, label: None, kind: EdgeKind::Arrow },
            ));
            Ok(())
        },
        None => {
            let n = parse_node(t)?;
            upsert_node_exec(nodes, n);
            Ok(())
        },
    }
}

/// Reads the header line; returns the direction and the position after it.
fn parse_header(ls: &Vec<Vec<char>>) -> (r: Result<(Direction, usize), MermaidRenderError>)
    ensures
        match flow_header(lines_view(ls@), 0) {
            Some((d, p)) => r matches Ok((x, q)) && x == d && q == p,
            None => r matches Err(MermaidRenderError::Parse(m)) && m@ == flow_header_error(
                lines_view(ls@),
                0,
            ),
        },
{
    let ghost l = lines_view(ls@);
    let mut pos: usize = 0;
    while pos < ls.len()
        invariant
            pos <= ls@.len(),
            l == lines_view(ls@),
            flow_header(l, 0) == flow_header(l, pos as int),
            flow_header_error(l, 0) == flow_header_error(l, pos as int),
        decreases ls.len() - pos,
    {
        let t = trimmed_line(ls, pos);
        if skippable(t.as_slice()) {
            pos = pos + 1;
        } else {
            let ws = split_words(t.as_slice());
            let graph = chars_of("graph");
            let flowchart = chars_of("flowchart");
            if ws.len() == 0 {
                return Err(parse_error("expected 'graph' or 'flowchart'"));
            }
            let kw = &ws[0];
            let is_graph = kw.len() == graph.len() && has_prefix_ci(kw.as_slice(), graph.as_slice());
            let is_flow = kw.len() == flowchart.len() && has_prefix_ci(kw.as_slice(), flowchart.as_slice());
            if !is_graph && !is_flow {
                return Err(parse_error("expected 'graph' or 'flowchart'"));
            }
            if ws.len() >= 3 {
                return Err(parse_error("unexpected flowchart header token"));
            }
            if ws.len() == 2 {
                let d = parse_direction(ws[1].as_slice())?;
                return Ok((d, pos + 1));
            }
            return Ok((Direction::TD, pos + 1));
        }
    }
    Err(parse_error("no graph or flowchart header found"))
}

/// Parses a `graph` / `flowchart` source into a [`FlowchartDiagram`].
pub fn parse(source: &str) -> (r: Result<FlowchartDiagram, MermaidRenderError>)
    ensures
        match flowchart_of(source@) {
            Some((d, st)) => r matches Ok(fc) && fc.direction == d && nodes_model(fc.nodes@)
                == st.nodes && edges_model(fc.edges@) == st.edges && fc.subgraphs@.len() == 0,
            None => r matches Err(MermaidRenderError::Parse(m)) && m@ == flowchart_error(source@),
        },
{
    let ls = source_lines(source);
    let ghost l = lines_view(ls@);
    let (direction, start) = parse_header(&ls)?;
    let mut nodes: Vec<FlowNode> = Vec::new();
    let mut edges: Vec<FlowEdge> = Vec::new();
    let mut pos = start;
    assert(nodes_model(nodes@) =~= Seq::<NodeModel>::empty());
    assert(edges_model(edges@) =~= Seq::<EdgeModel>::empty());
    while pos < ls.len()
        invariant
            l == lines_view(ls@),
            l == lines(source@),
            flow_header(l, 0) == Some((direction, start as int)),
            flow_body(l, start as int, FlowState { nodes: seq![], edges: seq![] }) == flow_body(
                l,
                pos as int,
                FlowState { nodes: nodes_model(nodes@), edges: edges_model(edges@) },
            ),
            flow_body_error(l, start as int, FlowState { nodes: seq![], edges: seq![] })
                == flow_body_error(
                l,
                pos as int,
                FlowState { nodes: nodes_model(nodes@), edges: edges_model(edges@) },
            ),
        decreases ls.len() - pos,
    {
        let t = trimmed_line(&ls, pos);
        if !skippable(t.as_slice()) {
            parse_statement(&mut nodes, &mut edges, t.as_slice())?;
        }
        pos = pos + 1;
    }
    Ok(FlowchartDiagram { direction, nodes, edges, subgraphs: Vec::new() })
}

} // verus!
