//! Block structure: headings, paragraphs, fenced code, block quotes, lists,
//! tables and rules, each followed by a blank line, and the document as a
//! whole with its trailing blank lines dropped.
//!
//! Link line numbers are those of the document's own lines: a nested block
//! (a quote, a list item) is rendered on its own and its links are shifted
//! by the lines already written when it is taken in.

use super::inline::{
    inline_into, inline_lines_spec, inline_node, inline_state, is_inline, is_inline_spec,
    rendered_inline, rendered_inline_node, InlineV,
};
use super::table::{fill, table, table_lines};
use super::{
    colored, heading_style, heading_style_spec, line_v, lines_v, links_v, span, span_v,
    style_plain, Ast, Color, LineV, LinkV, Node, SpanStyle, SpanV, StyledSpan,
};
use crate::text::{decimal, decimal_chars, push_all, split_chars, split_on, string_of};
use crate::view::{spaces, LinkSpan};
use vstd::prelude::*;

verus! {

/// Width of a horizontal rule, in columns.
pub const HR_WIDTH: usize = 60;

/// Rendered output: lines, and links whose line numbers index those lines.
pub type RenderV = (Seq<LineV>, Seq<LinkV>);

/// Nothing rendered yet.
pub open spec fn empty_render() -> RenderV {
    (seq![], seq![])
}

/// `ks` with every line number raised by `by`.
pub open spec fn offset_links(ks: Seq<LinkV>, by: nat) -> Seq<LinkV> {
    ks.map_values(|l: LinkV| (l.0 + by, l.1, l.2))
}

/// `r` followed by `part`, whose link line numbers count from its own first
/// line.
pub open spec fn absorb(r: RenderV, part: RenderV) -> RenderV {
    (r.0 + part.0, r.1 + offset_links(part.1, r.0.len()))
}

/// `r` followed by a blank line.
pub open spec fn with_blank(r: RenderV) -> RenderV {
    (r.0.push(seq![]), r.1)
}

/// `lines` without its trailing blank lines.
pub open spec fn trim_blank(lines: Seq<LineV>) -> Seq<LineV>
    decreases lines.len(),
{
    if lines.len() > 0 && lines.last().len() == 0 {
        trim_blank(lines.drop_last())
    } else {
        lines
    }
}

/// `lines`, the first starting with the span `first`, every other with
/// `rest`.
pub open spec fn prefixed(lines: Seq<LineV>, first: SpanV, rest: SpanV) -> Seq<LineV> {
    Seq::new(
        lines.len(),
        |j: int|
            seq![
                if j == 0 {
                    first
                } else {
                    rest
                },
            ] + lines[j],
    )
}

/// How many nodes at the front of `nodes` are inline content.
pub open spec fn inline_run(nodes: Seq<Node>) -> nat
    decreases nodes.len(),
{
    if nodes.len() > 0 && is_inline_spec(nodes[0]) {
        1 + inline_run(nodes.subrange(1, nodes.len() as int))
    } else {
        0
    }
}

/// The leading inline run of `nodes` lies within it and is maximal.
pub proof fn lemma_inline_run(nodes: Seq<Node>)
    ensures
        inline_run(nodes) <= nodes.len(),
        nodes.len() > 0 && is_inline_spec(nodes[0]) ==> inline_run(nodes) >= 1,
        forall|j: int| 0 <= j < inline_run(nodes) ==> is_inline_spec(#[trigger] nodes[j]),
        inline_run(nodes) < nodes.len() ==> !is_inline_spec(nodes[inline_run(nodes) as int]),
    decreases nodes.len(),
{
    if nodes.len() > 0 && is_inline_spec(nodes[0]) {
        let rest = nodes.subrange(1, nodes.len() as int);
        lemma_inline_run(rest);
        assert forall|j: int| 0 <= j < inline_run(nodes) implies is_inline_spec(
            #[trigger] nodes[j],
        ) by {
            if j > 0 {
                assert(nodes[j] == rest[j - 1]);
            }
        }
        if inline_run(nodes) < nodes.len() {
            assert(nodes[inline_run(nodes) as int] == rest[inline_run(rest) as int]);
        }
    }
}

/// The span that starts every line of a block quote.
pub open spec fn quote_span() -> SpanV {
    (seq!['┃', ' '], colored(Color::Cyan))
}

/// The marker of a heading at `level`: that many `#` and a space.
pub open spec fn heading_marker(level: u8) -> SpanV {
    (fill('#', level as nat) + seq![' '], colored(Color::DarkGray))
}

/// The marker of item `idx` of a list: its number from one, right-aligned
/// in two columns, and a dot, for an ordered list; a bullet otherwise.
pub open spec fn list_marker(ordered: bool, idx: nat) -> Seq<char> {
    if ordered {
        let d = decimal(idx + 1);
        (if d.len() < 2 {
            spaces((2 - d.len()) as nat)
        } else {
            seq![]
        }) + d + seq!['.', ' ']
    } else {
        seq![' ', '•', ' ']
    }
}

/// The lines of a fenced code block: a header naming the language when it
/// has one, then each line of the content behind a gutter, in green.
pub open spec fn code_lines(lang: Seq<char>, content: Seq<char>) -> Seq<LineV> {
    (if lang.len() > 0 {
        seq![seq![(seq![' ', ' ', '┌', '─', ' '] + lang, colored(Color::DarkGray))]]
    } else {
        seq![]
    }) + split_on(content, '\n').map_values(
        |piece: Seq<char>|
            seq![
                (seq![' ', ' ', '│', ' '], colored(Color::DarkGray)),
                (piece, colored(Color::Green)),
            ],
    )
}

/// The line of a horizontal rule.
pub open spec fn rule_line() -> LineV {
    seq![(fill('─', HR_WIDTH as nat), colored(Color::DarkGray))]
}

/// `r` after rendering block `nodes` in order. A run of bare inline nodes
/// (as a tight list item holds them) renders as one paragraph without a
/// blank line after it.
pub open spec fn rendered_blocks(nodes: Seq<Node>, r: RenderV) -> RenderV
    decreases nodes,
{
    if nodes.len() == 0 {
        r
    } else if is_inline_spec(nodes[0]) {
        let k = inline_run(nodes);
        proof {
            lemma_inline_run(nodes);
        }
        rendered_blocks(
            nodes.subrange(k as int, nodes.len() as int),
            absorb(r, inline_lines_spec(nodes.subrange(0, k as int), style_plain())),
        )
    } else {
        rendered_blocks(nodes.subrange(1, nodes.len() as int), rendered_block(nodes[0], r))
    }
}

/// `r` after rendering one block node; every block but bare inline content
/// is followed by a blank line.
pub open spec fn rendered_block(n: Node, r: RenderV) -> RenderV
    decreases n,
{
    match n {
        Node::Heading { level, children } => {
            let part = inline_lines_spec(children@, heading_style_spec(level));
            with_blank(
                absorb(r, (part.0.update(0, seq![heading_marker(level)] + part.0[0]), part.1)),
            )
        },
        Node::Paragraph { children } => with_blank(
            absorb(r, inline_lines_spec(children@, style_plain())),
        ),
        Node::FencedCode { lang, content } => with_blank((r.0 + code_lines(lang@, content@), r.1)),
        Node::BlockQuote { children } => {
            let sub = rendered_blocks(children@, empty_render());
            with_blank(absorb(r, (prefixed(trim_blank(sub.0), quote_span(), quote_span()), sub.1)))
        },
        Node::List { ordered, items } => with_blank(rendered_items(ordered, items@, 0, r)),
        Node::Table { alignments, rows } => with_blank(
            (r.0 + table_lines(alignments@, rows@), r.1),
        ),
        Node::HorizontalRule => with_blank((r.0.push(rule_line()), r.1)),
        _ => if is_inline_spec(n) {
            absorb(r, inline_lines_spec(seq![n], style_plain()))
        } else {
            r
        },
    }
}

/// `r` after rendering list `items`, the first of which is item `idx`:
/// each item's blocks, on their own and without trailing blank lines, the
/// first line behind the item's marker and the others indented as far, in
/// yellow.
pub open spec fn rendered_items(ordered: bool, items: Seq<Node>, idx: nat, r: RenderV) -> RenderV
    decreases items,
{
    if items.len() == 0 {
        r
    } else {
        let sub = match items[0] {
            Node::ListItem { children } => rendered_blocks(children@, empty_render()),
            _ => if is_inline_spec(items[0]) {
                absorb(empty_render(), inline_lines_spec(seq![items[0]], style_plain()))
            } else {
                rendered_block(items[0], empty_render())
            },
        };
        let m = list_marker(ordered, idx);
        let part = (
            prefixed(
                trim_blank(sub.0),
                (m, colored(Color::Yellow)),
                (spaces(m.len()), colored(Color::Yellow)),
            ),
            sub.1,
        );
        rendered_items(ordered, items.subrange(1, items.len() as int), idx + 1, absorb(r, part))
    }
}

/// The rendering of a document: its blocks, without trailing blank lines.
pub open spec fn document(nodes: Seq<Node>) -> RenderV {
    let r = rendered_blocks(nodes, empty_render());
    (trim_blank(r.0), r.1)
}

// ── Algebra of rendered output ─────────────────────────────────────────────

proof fn lemma_absorb_empty(r: RenderV)
    ensures
        absorb(r, empty_render()) == r,
        absorb(empty_render(), r) == r,
{
    assert(absorb(r, empty_render()).0 =~= r.0);
    assert(absorb(r, empty_render()).1 =~= r.1);
    assert(absorb(empty_render(), r).0 =~= r.0);
    assert(absorb(empty_render(), r).1 =~= r.1);
}

proof fn lemma_absorb_assoc(r: RenderV, p: RenderV, q: RenderV)
    ensures
        absorb(absorb(r, p), q) == absorb(r, absorb(p, q)),
{
    let a = absorb(absorb(r, p), q);
    let b = absorb(r, absorb(p, q));
    assert(a.0 =~= b.0);
    assert(a.1 =~= b.1);
}

proof fn lemma_absorb_blank(r: RenderV, p: RenderV)
    ensures
        with_blank(absorb(r, p)) == absorb(r, with_blank(p)),
{
    let a = with_blank(absorb(r, p));
    let b = absorb(r, with_blank(p));
    assert(a.0 =~= b.0);
    assert(a.1 =~= b.1);
}

proof fn lemma_absorb_lines(r: RenderV, ls: Seq<LineV>)
    ensures
        (r.0 + ls, r.1) == absorb(r, (ls, seq![])),
{
    assert(absorb(r, (ls, seq![])).1 =~= r.1);
}

/// Rendering blocks after earlier output appends their own rendering, with
/// the line numbers of their links shifted past the lines already there:
/// link positions are those of the whole output.
pub proof fn law_blocks_after_output(nodes: Seq<Node>, r: RenderV)
    ensures
        rendered_blocks(nodes, r) == absorb(r, rendered_blocks(nodes, empty_render())),
    decreases nodes,
{
    if nodes.len() == 0 {
        lemma_absorb_empty(r);
    } else if is_inline_spec(nodes[0]) {
        let k = inline_run(nodes);
        lemma_inline_run(nodes);
        let rest = nodes.subrange(k as int, nodes.len() as int);
        let p = inline_lines_spec(nodes.subrange(0, k as int), style_plain());
        law_blocks_after_output(rest, absorb(r, p));
        law_blocks_after_output(rest, absorb(empty_render(), p));
        lemma_absorb_empty(p);
        lemma_absorb_assoc(r, p, rendered_blocks(rest, empty_render()));
    } else {
        let rest = nodes.subrange(1, nodes.len() as int);
        lemma_block_frame(nodes[0], r);
        let p = rendered_block(nodes[0], empty_render());
        law_blocks_after_output(rest, rendered_block(nodes[0], r));
        law_blocks_after_output(rest, p);
        lemma_absorb_assoc(r, p, rendered_blocks(rest, empty_render()));
    }
}

/// Rendering a block onto earlier output is taking in its own rendering.
proof fn lemma_block_frame(n: Node, r: RenderV)
    ensures
        rendered_block(n, r) == absorb(r, rendered_block(n, empty_render())),
    decreases n,
{
    let e = empty_render();
    match n {
        Node::Heading { level, children } => {
            let part = inline_lines_spec(children@, heading_style_spec(level));
            let p = (part.0.update(0, seq![heading_marker(level)] + part.0[0]), part.1);
            lemma_absorb_blank(r, p);
            lemma_absorb_blank(e, p);
            lemma_absorb_empty(p);
            lemma_absorb_empty(with_blank(p));
        },
        Node::Paragraph { children } => {
            let p = inline_lines_spec(children@, style_plain());
            lemma_absorb_blank(r, p);
            lemma_absorb_blank(e, p);
            lemma_absorb_empty(p);
            lemma_absorb_empty(with_blank(p));
        },
        Node::FencedCode { lang, content } => {
            let ls = code_lines(lang@, content@);
            lemma_absorb_lines(r, ls);
            lemma_absorb_lines(e, ls);
            lemma_absorb_empty((ls, seq![]));
            lemma_absorb_blank(r, (ls, seq![]));
            lemma_absorb_blank(e, (ls, seq![]));
            lemma_absorb_empty(with_blank((ls, seq![])));
        },
        Node::BlockQuote { children } => {
            let sub = rendered_blocks(children@, e);
            let p = (prefixed(trim_blank(sub.0), quote_span(), quote_span()), sub.1);
            lemma_absorb_blank(r, p);
            lemma_absorb_blank(e, p);
            lemma_absorb_empty(p);
            lemma_absorb_empty(with_blank(p));
        },
        Node::List { ordered, items } => {
            lemma_items_frame(ordered, items@, 0, r);
            let p = rendered_items(ordered, items@, 0, e);
            lemma_absorb_blank(r, p);
        },
        Node::Table { alignments, rows } => {
            let ls = table_lines(alignments@, rows@);
            lemma_absorb_lines(r, ls);
            lemma_absorb_lines(e, ls);
            lemma_absorb_empty((ls, seq![]));
            lemma_absorb_blank(r, (ls, seq![]));
            lemma_absorb_blank(e, (ls, seq![]));
            lemma_absorb_empty(with_blank((ls, seq![])));
        },
        Node::HorizontalRule => {
            let ls = seq![rule_line()];
            assert(r.0.push(rule_line()) =~= r.0 + ls);
            assert(e.0.push(rule_line()) =~= ls);
            lemma_absorb_lines(r, ls);
            lemma_absorb_lines(e, ls);
            lemma_absorb_empty((ls, seq![]));
            lemma_absorb_blank(r, (ls, seq![]));
            lemma_absorb_blank(e, (ls, seq![]));
            lemma_absorb_empty(with_blank((ls, seq![])));
        },
        _ => {
            if is_inline_spec(n) {
                lemma_absorb_empty(inline_lines_spec(seq![n], style_plain()));
            } else {
                lemma_absorb_empty(r);
            }
        },
    }
}

/// Rendering list items onto earlier output is taking in their own
/// rendering.
proof fn lemma_items_frame(ordered: bool, items: Seq<Node>, idx: nat, r: RenderV)
    ensures
        rendered_items(ordered, items, idx, r) == absorb(
            r,
            rendered_items(ordered, items, idx, empty_render()),
        ),
    decreases items,
{
    if items.len() == 0 {
        lemma_absorb_empty(r);
    } else {
        let e = empty_render();
        let sub = match items[0] {
            Node::ListItem { children } => rendered_blocks(children@, e),
            _ => if is_inline_spec(items[0]) {
                absorb(e, inline_lines_spec(seq![items[0]], style_plain()))
            } else {
                rendered_block(items[0], e)
            },
        };
        let m = list_marker(ordered, idx);
        let part = (
            prefixed(
                trim_blank(sub.0),
                (m, colored(Color::Yellow)),
                (spaces(m.len()), colored(Color::Yellow)),
            ),
            sub.1,
        );
        let rest = items.subrange(1, items.len() as int);
        lemma_items_frame(ordered, rest, idx + 1, absorb(r, part));
        lemma_items_frame(ordered, rest, idx + 1, absorb(e, part));
        lemma_absorb_empty(part);
        lemma_absorb_assoc(r, part, rendered_items(ordered, rest, idx + 1, e));
    }
}

/// `ks` shifted past earlier links and lines: the inline state reached from
/// earlier lines `ls` and links `ks`.
pub open spec fn shift_inline(x: InlineV, ls: Seq<LineV>, ks: Seq<LinkV>) -> InlineV {
    (x.0, ls + x.1, ks + offset_links(x.2, ls.len()))
}

proof fn lemma_shift_compose(z: InlineV, y1: Seq<LineV>, y2: Seq<LinkV>, ls: Seq<LineV>, ks: Seq<LinkV>)
    ensures
        shift_inline(shift_inline(z, y1, y2), ls, ks) == shift_inline(
            z,
            ls + y1,
            ks + offset_links(y2, ls.len()),
        ),
{
    let a = shift_inline(shift_inline(z, y1, y2), ls, ks);
    let b = shift_inline(z, ls + y1, ks + offset_links(y2, ls.len()));
    assert(a.1 =~= b.1);
    assert(a.2 =~= b.2);
}

proof fn lemma_shift_empty(x: InlineV)
    ensures
        shift_inline(x, seq![], seq![]) == x,
{
    assert(shift_inline(x, seq![], seq![]).1 =~= x.1);
    assert(shift_inline(x, seq![], seq![]).2 =~= x.2);
}

/// Rendering inline content after earlier lines and links shifts the
/// links it finds by the lines before it.
proof fn lemma_inline_frame(nodes: Seq<Node>, base: SpanStyle, cur: LineV, ls: Seq<LineV>, ks: Seq<LinkV>)
    ensures
        rendered_inline(nodes, base, (cur, ls, ks)) == shift_inline(
            rendered_inline(nodes, base, (cur, seq![], seq![])),
            ls,
            ks,
        ),
    decreases nodes,
{
    if nodes.len() == 0 {
        lemma_shift_empty((cur, ls, ks));
        assert(shift_inline((cur, seq![], seq![]), ls, ks).1 =~= ls);
        assert(shift_inline((cur, seq![], seq![]), ls, ks).2 =~= ks);
    } else {
        let rest = nodes.subrange(1, nodes.len() as int);
        lemma_inline_node_frame(nodes[0], base, cur, ls, ks);
        let y = rendered_inline_node(nodes[0], base, (cur, seq![], seq![]));
        lemma_inline_frame(rest, base, y.0, ls + y.1, ks + offset_links(y.2, ls.len()));
        lemma_inline_frame(rest, base, y.0, y.1, y.2);
        lemma_shift_compose(rendered_inline(rest, base, (y.0, seq![], seq![])), y.1, y.2, ls, ks);
        assert(y == (y.0, y.1, y.2));
    }
}

proof fn lemma_inline_node_frame(n: Node, base: SpanStyle, cur: LineV, ls: Seq<LineV>, ks: Seq<LinkV>)
    ensures
        rendered_inline_node(n, base, (cur, ls, ks)) == shift_inline(
            rendered_inline_node(n, base, (cur, seq![], seq![])),
            ls,
            ks,
        ),
    decreases n,
{
    let x = rendered_inline_node(n, base, (cur, seq![], seq![]));
    let s = shift_inline(x, ls, ks);
    match n {
        Node::Emphasis { children } => {
            lemma_inline_frame(children@, super::style_italic(base), cur, ls, ks);
        },
        Node::Strong { children } => {
            lemma_inline_frame(children@, super::style_bold(base), cur, ls, ks);
        },
        Node::Link { href, children } => {
            let b = super::style_underlined(super::style_fg(base, Color::Blue));
            lemma_inline_frame(children@, b, cur, ls, ks);
            let a0 = rendered_inline(children@, b, (cur, seq![], seq![]));
            let text = super::inline::flat_text(children@);
            if text.len() > 0 {
                assert(ks + offset_links(a0.2, ls.len()).push((ls.len(), text, href@)) =~= ks
                    + offset_links(a0.2.push((0nat, text, href@)), ls.len()));
            }
        },
        Node::HardBreak => {
            assert(s.1 =~= ls.push(cur));
            assert(s.2 =~= ks);
        },
        _ => {
            assert(s.1 =~= ls);
            assert(s.2 =~= ks);
        },
    }
}

/// `trim_blank` keeps a prefix whose last line, if any, is not blank.
proof fn lemma_trim_blank(ls: Seq<LineV>)
    ensures
        trim_blank(ls).len() <= ls.len(),
        trim_blank(ls) == ls.take(trim_blank(ls).len() as int),
        trim_blank(ls).len() == 0 || trim_blank(ls).last().len() > 0,
    decreases ls.len(),
{
    if ls.len() > 0 && ls.last().len() == 0 {
        lemma_trim_blank(ls.drop_last());
        assert(ls.drop_last().take(trim_blank(ls).len() as int) =~= ls.take(
            trim_blank(ls).len() as int,
        ));
    } else {
        assert(ls.take(ls.len() as int) =~= ls);
    }
}

/// A rendered document never ends with a blank line.
pub proof fn law_no_trailing_blank_lines(nodes: Seq<Node>)
    ensures
        document(nodes).0.len() == 0 || document(nodes).0.last().len() > 0,
{
    lemma_trim_blank(rendered_blocks(nodes, empty_render()).0);
}

// ── Executable rendering ───────────────────────────────────────────────────

struct Renderer {
    lines: Vec<Vec<StyledSpan>>,
    links: Vec<LinkSpan>,
}

proof fn lemma_lines_push(ls: Seq<Vec<StyledSpan>>, l: Vec<StyledSpan>)
    ensures
        lines_v(ls.push(l)) == lines_v(ls).push(line_v(l@)),
{
    assert(lines_v(ls.push(l)) =~= lines_v(ls).push(line_v(l@)));
}

/// Puts `sp` in front of `line`.
fn prepend(line: &mut Vec<StyledSpan>, sp: StyledSpan)
    ensures
        line_v(final(line)@) == seq![span_v(sp)] + line_v(old(line)@),
{
    line.insert(0, sp);
    assert(line_v(line@) =~= seq![span_v(sp)] + line_v(old(line)@));
}

impl Renderer {
    spec fn model(&self) -> RenderV {
        (lines_v(self.lines@), links_v(self.links@))
    }

    fn new() -> (r: Renderer)
        ensures
            r.model() == empty_render(),
    {
        let r = Renderer { lines: Vec::new(), links: Vec::new() };
        assert(r.model().0 =~= Seq::<LineV>::empty());
        assert(r.model().1 =~= Seq::<LinkV>::empty());
        r
    }

    fn blank(&mut self)
        ensures
            final(self).model() == with_blank(old(self).model()),
    {
        let l: Vec<StyledSpan> = Vec::new();
        proof {
            lemma_lines_push(self.lines@, l);
            assert(line_v(l@) =~= Seq::<SpanV>::empty());
        }
        self.lines.push(l);
    }

    /// Appends `ls`, which hold no links.
    fn push_lines(&mut self, ls: Vec<Vec<StyledSpan>>)
        ensures
            final(self).model() == (old(self).model().0 + lines_v(ls@), old(self).model().1),
    {
        let mut ls = ls;
        let ghost before = self.lines@;
        let ghost added = ls@;
        self.lines.append(&mut ls);
        assert(lines_v(self.lines@) =~= lines_v(before) + lines_v(added));
    }

    /// Puts `sp` in front of line `j`.
    fn prepend_at(&mut self, j: usize, sp: StyledSpan)
        requires
            j < old(self).lines@.len(),
        ensures
            final(self).model() == (
                old(self).model().0.update(j as int, seq![span_v(sp)] + old(self).model().0[j as int]),
                old(self).model().1,
            ),
    {
        let ghost before = self.lines@;
        prepend(&mut self.lines[j], sp);
        proof {
            let target = lines_v(before).update(j as int, seq![span_v(sp)] + lines_v(before)[j as int]);
            assert forall|k: int| 0 <= k < target.len() implies lines_v(self.lines@)[k]
                == target[k] by {
                if k != j {
                    assert(self.lines@[k] == before[k]);
                }
            }
            assert(lines_v(self.lines@) =~= target);
        }
    }

    /// Drops the blank lines at the end, down to line `base`.
    fn trim_to(&mut self, base: usize)
        requires
            base <= old(self).lines@.len(),
        ensures
            final(self).model() == (
                old(self).model().0.take(base as int) + trim_blank(
                    old(self).model().0.skip(base as int),
                ),
                old(self).model().1,
            ),
    {
        let ghost orig = lines_v(self.lines@);
        while self.lines.len() > base && self.lines[self.lines.len() - 1].len() == 0
            invariant
                base <= self.lines@.len() <= orig.len(),
                lines_v(self.lines@) == orig.take(self.lines@.len() as int),
                trim_blank(orig.skip(base as int)) == trim_blank(
                    lines_v(self.lines@).skip(base as int),
                ),
                self.links@ == old(self).links@,
            decreases self.lines@.len(),
        {
            let ghost cur = lines_v(self.lines@);
            let ghost tail = cur.skip(base as int);
            proof {
                assert(tail.last() == cur.last());
                assert(tail.drop_last() =~= cur.drop_last().skip(base as int));
            }
            self.lines.pop();
            proof {
                assert(lines_v(self.lines@) =~= cur.drop_last());
                assert(cur.drop_last() =~= orig.take(self.lines@.len() as int));
            }
        }
        proof {
            let cur = lines_v(self.lines@);
            let tail = cur.skip(base as int);
            if tail.len() > 0 {
                assert(tail.last() == cur.last());
            }
            assert(trim_blank(tail) == tail);
            assert(cur =~= orig.take(base as int) + tail);
        }
    }

    /// Puts `first` (styled `style`) in front of line `base` and `rest` in
    /// front of every later line.
    fn prefix_from(&mut self, base: usize, first: &Vec<char>, rest: &Vec<char>, style: SpanStyle)
        requires
            base <= old(self).lines@.len(),
        ensures
            final(self).model() == (
                old(self).model().0.take(base as int) + prefixed(
                    old(self).model().0.skip(base as int),
                    (first@, style),
                    (rest@, style),
                ),
                old(self).model().1,
            ),
    {
        let ghost orig = lines_v(self.lines@);
        let mut j = base;
        while j < self.lines.len()
            invariant
                base <= j <= self.lines@.len(),
                self.lines@.len() == orig.len(),
                self.links@ == old(self).links@,
                forall|k: int| 0 <= k < base ==> #[trigger] lines_v(self.lines@)[k] == orig[k],
                forall|k: int|
                    base <= k < j ==> #[trigger] lines_v(self.lines@)[k] == seq![
                        if k == base {
                            (first@, style)
                        } else {
                            (rest@, style)
                        },
                    ] + orig[k],
                forall|k: int| j <= k < orig.len() ==> #[trigger] lines_v(self.lines@)[k] == orig[k],
            decreases self.lines@.len() - j,
        {
            let t = if j == base {
                string_of(first.as_slice())
            } else {
                string_of(rest.as_slice())
            };
            let sp = span(t, style);
            let ghost before = self.lines@;
            let ghost pre = if j == base {
                (first@, style)
            } else {
                (rest@, style)
            };
            assert(span_v(sp) == pre);
            prepend(&mut self.lines[j], sp);
            proof {
                assert(lines_v(self.lines@)[j as int] == line_v(self.lines@[j as int]@));
                assert(lines_v(before)[j as int] == orig[j as int]);
                assert(lines_v(self.lines@)[j as int] == seq![pre] + orig[j as int]);
                assert forall|k: int| 0 <= k < base implies #[trigger] lines_v(self.lines@)[k]
                    == orig[k] by {
                    assert(self.lines@[k] == before[k]);
                    assert(lines_v(before)[k] == orig[k]);
                }
                assert forall|k: int| base <= k < j + 1 implies #[trigger] lines_v(self.lines@)[k]
                    == seq![
                    if k == base {
                        (first@, style)
                    } else {
                        (rest@, style)
                    },
                ] + orig[k] by {
                    if k < j {
                        assert(self.lines@[k] == before[k]);
                        assert(lines_v(before)[k] == seq![
                            if k == base {
                                (first@, style)
                            } else {
                                (rest@, style)
                            },
                        ] + orig[k]);
                    }
                }
                assert forall|k: int| j + 1 <= k < orig.len() implies #[trigger] lines_v(
                    self.lines@,
                )[k] == orig[k] by {
                    assert(self.lines@[k] == before[k]);
                    assert(lines_v(before)[k] == orig[k]);
                }
            }
            j = j + 1;
        }
        proof {
            let target = orig.take(base as int) + prefixed(
                orig.skip(base as int),
                (first@, style),
                (rest@, style),
            );
            assert forall|k: int| 0 <= k < orig.len() implies lines_v(self.lines@)[k]
                == target[k] by {
                if k >= base {
                    assert(orig.skip(base as int)[k - base] == orig[k]);
                }
            }
            assert(lines_v(self.lines@) =~= target);
        }
    }

    /// Renders inline `nodes[lo..hi]` in `style` as lines of their own.
    fn inline_run(&mut self, nodes: &Vec<Node>, lo: usize, hi: usize, style: SpanStyle)
        requires
            lo <= hi <= nodes@.len(),
        ensures
            final(self).model() == absorb(
                old(self).model(),
                inline_lines_spec(nodes@.subrange(lo as int, hi as int), style),
            ),
    {
        let ghost r = self.model();
        let mut cur: Vec<StyledSpan> = Vec::new();
        assert(line_v(cur@) =~= Seq::<SpanV>::empty());
        inline_into(nodes, lo, hi, style, &mut cur, &mut self.lines, &mut self.links);
        proof {
            let ns = nodes@.subrange(lo as int, hi as int);
            lemma_inline_frame(ns, style, seq![], r.0, r.1);
            lemma_lines_push(self.lines@, cur);
            let x = rendered_inline(ns, style, (seq![], seq![], seq![]));
            assert(r.0 + x.1.push(x.0) =~= (r.0 + x.1).push(x.0));
        }
        self.lines.push(cur);
    }

    /// Renders the inline node `n` in `style` as lines of its own.
    fn inline_one(&mut self, n: &Node, style: SpanStyle)
        ensures
            final(self).model() == absorb(old(self).model(), inline_lines_spec(seq![*n], style)),
    {
        let ghost r = self.model();
        let mut cur: Vec<StyledSpan> = Vec::new();
        assert(line_v(cur@) =~= Seq::<SpanV>::empty());
        inline_node(n, style, &mut cur, &mut self.lines, &mut self.links);
        proof {
            let one = seq![*n];
            let e: InlineV = (seq![], seq![], seq![]);
            lemma_inline_node_frame(*n, style, seq![], r.0, r.1);
            assert(one[0] == *n);
            assert(one.subrange(1, 1) =~= Seq::<Node>::empty());
            assert(rendered_inline(one, style, e) == rendered_inline(
                one.subrange(1, 1),
                style,
                rendered_inline_node(*n, style, e),
            ));
            lemma_lines_push(self.lines@, cur);
            let x = rendered_inline_node(*n, style, e);
            assert(r.0 + x.1.push(x.0) =~= (r.0 + x.1).push(x.0));
        }
        self.lines.push(cur);
    }

    /// Renders block `nodes` in order.
    fn blocks(&mut self, nodes: &Vec<Node>)
        ensures
            final(self).model() == rendered_blocks(nodes@, old(self).model()),
        decreases nodes,
    {
        let ghost r0 = self.model();
        let mut i: usize = 0;
        assert(nodes@.subrange(0, nodes@.len() as int) =~= nodes@);
        while i < nodes.len()
            invariant
                i <= nodes@.len(),
                rendered_blocks(nodes@.subrange(i as int, nodes@.len() as int), self.model())
                    == rendered_blocks(nodes@, r0),
            decreases nodes.len() - i,
        {
            let ghost rest = nodes@.subrange(i as int, nodes@.len() as int);
            if is_inline(&nodes[i]) {
                let start = i;
                while i < nodes.len() && is_inline(&nodes[i])
                    invariant
                        start <= i <= nodes@.len(),
                        forall|j: int| start <= j < i ==> is_inline_spec(#[trigger] nodes@[j]),
                    decreases nodes.len() - i,
                {
                    i = i + 1;
                }
                proof {
                    lemma_inline_run(rest);
                    let k = inline_run(rest);
                    assert(rest[0] == nodes@[start as int]);
                    assert(k == i - start) by {
                        if k < i - start {
                            assert(rest[k as int] == nodes@[start + k]);
                        }
                        if k > i - start {
                            assert(rest[(i - start) as int] == nodes@[i as int]);
                        }
                    }
                    assert(rest.subrange(0, k as int) =~= nodes@.subrange(start as int, i as int));
                    assert(rest.subrange(k as int, rest.len() as int) =~= nodes@.subrange(
                        i as int,
                        nodes@.len() as int,
                    ));
                }
                self.inline_run(nodes, start, i, SpanStyle::plain());
            } else {
                proof {
                    assert(rest[0] == nodes@[i as int]);
                    assert(rest.subrange(1, rest.len() as int) =~= nodes@.subrange(
                        i + 1,
                        nodes@.len() as int,
                    ));
                }
                self.block(&nodes[i]);
                i = i + 1;
            }
        }
        assert(nodes@.subrange(i as int, nodes@.len() as int) =~= Seq::<Node>::empty());
    }

    /// Renders a heading: its text in the heading style behind a marker,
    /// then a blank line.
    fn heading(&mut self, level: u8, children: &Vec<Node>)
        ensures
            ({
                let part = inline_lines_spec(children@, heading_style_spec(level));
                final(self).model() == with_blank(
                    absorb(
                        old(self).model(),
                        (part.0.update(0, seq![heading_marker(level)] + part.0[0]), part.1),
                    ),
                )
            }),
    {
        let ghost r = self.model();
        let marker = heading_marker_span(level);
        let base = self.lines.len();
        let style = heading_style(level);
        self.inline_run(children, 0, children.len(), style);
        assert(children@.subrange(0, children@.len() as int) =~= children@);
        let ghost mid = self.lines@;
        let ghost part = inline_lines_spec(children@, heading_style_spec(level));
        proof {
            assert(part.0.len() >= 1);
            assert(lines_v(mid) == r.0 + part.0);
            assert(lines_v(mid).len() == mid.len());
        }
        self.prepend_at(base, marker);
        proof {
            let target = r.0 + part.0.update(0, seq![heading_marker(level)] + part.0[0]);
            assert forall|k: int| 0 <= k < target.len() implies lines_v(self.lines@)[k]
                == target[k] by {
                assert(lines_v(mid)[k] == (r.0 + part.0)[k]);
            }
            assert(lines_v(self.lines@) =~= target);
        }
        self.blank();
    }

    /// Renders one block node.
    fn block(&mut self, n: &Node)
        ensures
            final(self).model() == rendered_block(*n, old(self).model()),
        decreases n,
    {
        let ghost r = self.model();
        match n {
            Node::Heading { level, children } => {
                self.heading(*level, children);
            },
            Node::Paragraph { children } => {
                self.inline_run(children, 0, children.len(), SpanStyle::plain());
                assert(children@.subrange(0, children@.len() as int) =~= children@);
                self.blank();
            },
            Node::FencedCode { lang, content } => {
                let code = self.code_block(lang, content);
                self.push_lines(code);
                self.blank();
            },
            Node::BlockQuote { children } => {
                let base = self.lines.len();
                self.blocks(children);
                proof {
                    law_blocks_after_output(children@, r);
                    assert(lines_v(self.lines@).len() == self.lines@.len());
                }
                self.trim_to(base);
                assert(lines_v(self.lines@).len() == self.lines@.len());
                let mut q: Vec<char> = Vec::new();
                q.push('┃');
                q.push(' ');
                assert(q@ =~= seq!['┃', ' ']);
                self.prefix_from(base, &q, &q, SpanStyle::plain().fg(Color::Cyan));
                proof {
                    let sub = rendered_blocks(children@, empty_render());
                    assert((r.0 + sub.0).take(base as int) =~= r.0);
                    assert((r.0 + sub.0).skip(base as int) =~= sub.0);
                    assert(r.0 + trim_blank(sub.0) =~= (r.0 + trim_blank(sub.0)));
                    assert((r.0 + trim_blank(sub.0)).take(base as int) =~= r.0);
                    assert((r.0 + trim_blank(sub.0)).skip(base as int) =~= trim_blank(sub.0));
                }
                self.blank();
            },
            Node::List { ordered, items } => {
                self.list(*ordered, items);
                self.blank();
            },
            Node::Table { alignments, rows } => {
                let t = table(alignments, rows);
                self.push_lines(t);
                self.blank();
            },
            Node::HorizontalRule => {
                let mut t: Vec<char> = Vec::new();
                let mut k: usize = 0;
                while k < HR_WIDTH
                    invariant
                        k <= HR_WIDTH,
                        t@ == fill('─', k as nat),
                    decreases HR_WIDTH - k,
                {
                    t.push('─');
                    k = k + 1;
                    assert(t@ =~= fill('─', k as nat));
                }
                let mut line: Vec<StyledSpan> = Vec::new();
                line.push(span(string_of(t.as_slice()), SpanStyle::plain().fg(Color::DarkGray)));
                assert(line_v(line@) =~= rule_line());
                proof {
                    lemma_lines_push(self.lines@, line);
                }
                self.lines.push(line);
                self.blank();
            },
            _ => {
                if is_inline(n) {
                    self.inline_one(n, SpanStyle::plain());
                }
            },
        }
    }

    /// The lines of a fenced code block.
    fn code_block(&self, lang: &String, content: &String) -> (r: Vec<Vec<StyledSpan>>)
        ensures
            lines_v(r@) == code_lines(lang@, content@),
    {
        let mut out: Vec<Vec<StyledSpan>> = Vec::new();
        if !lang.as_str().is_empty() {
            let mut t: Vec<char> = Vec::new();
            t.push(' ');
            t.push(' ');
            t.push('┌');
            t.push('─');
            t.push(' ');
            crate::text::push_str(&mut t, lang.as_str());
            assert(t@ =~= seq![' ', ' ', '┌', '─', ' '] + lang@);
            let mut line: Vec<StyledSpan> = Vec::new();
            let sp = span(string_of(t.as_slice()), SpanStyle::plain().fg(Color::DarkGray));
            line.push(sp);
            assert(line_v(line@) =~~= seq![(t@, colored(Color::DarkGray))]);
            proof {
                lemma_lines_push(out@, line);
            }
            out.push(line);
        }
        let ghost head = lines_v(out@);
        assert(head =~= if lang@.len() > 0 {
            seq![seq![(seq![' ', ' ', '┌', '─', ' '] + lang@, colored(Color::DarkGray))]]
        } else {
            seq![]
        });
        let cs = crate::text::chars_of(content.as_str());
        let pieces = split_chars(cs.as_slice(), '\n');
        let ghost pv = crate::text::lines_view(pieces@);
        let mut i: usize = 0;
        while i < pieces.len()
            invariant
                i <= pieces@.len(),
                pv == crate::text::lines_view(pieces@),
                pv == split_on(content@, '\n'),
                lines_v(out@) == head + pv.take(i as int).map_values(
                    |piece: Seq<char>|
                        seq![
                            (seq![' ', ' ', '│', ' '], colored(Color::DarkGray)),
                            (piece, colored(Color::Green)),
                        ],
                ),
            decreases pieces.len() - i,
        {
            let mut g: Vec<char> = Vec::new();
            g.push(' ');
            g.push(' ');
            g.push('│');
            g.push(' ');
            let mut line: Vec<StyledSpan> = Vec::new();
            assert(g@ =~= seq![' ', ' ', '│', ' ']);
            let s1 = span(string_of(g.as_slice()), SpanStyle::plain().fg(Color::DarkGray));
            let s2 = span(string_of(pieces[i].as_slice()), SpanStyle::plain().fg(Color::Green));
            line.push(s1);
            line.push(s2);
            proof {
                assert(pv[i as int] == pieces@[i as int]@);
                assert(line_v(line@) =~~= seq![
                    (seq![' ', ' ', '│', ' '], colored(Color::DarkGray)),
                    (pv[i as int], colored(Color::Green)),
                ]);
            }
            let ghost before = lines_v(out@);
            proof {
                lemma_lines_push(out@, line);
            }
            out.push(line);
            proof {
                assert(pv[i as int] == pieces@[i as int]@);
                assert(pv.take(i + 1) =~= pv.take(i as int).push(pv[i as int]));
                assert(lines_v(out@) =~= head + pv.take(i + 1).map_values(
                    |piece: Seq<char>|
                        seq![
                            (seq![' ', ' ', '│', ' '], colored(Color::DarkGray)),
                            (piece, colored(Color::Green)),
                        ],
                ));
            }
            i = i + 1;
        }
        assert(pv.take(i as int) =~= pv);
        out
    }

    /// Renders the items of a list.
    fn list(&mut self, ordered: bool, items: &Vec<Node>)
        ensures
            final(self).model() == rendered_items(ordered, items@, 0, old(self).model()),
        decreases items,
    {
        let ghost r0 = self.model();
        let mut i: usize = 0;
        assert(items@.subrange(0, items@.len() as int) =~= items@);
        while i < items.len()
            invariant
                i <= items@.len(),
                rendered_items(
                    ordered,
                    items@.subrange(i as int, items@.len() as int),
                    i as nat,
                    self.model(),
                ) == rendered_items(ordered, items@, 0, r0),
            decreases items.len() - i,
        {
            let ghost rest = items@.subrange(i as int, items@.len() as int);
            let ghost r = self.model();
            let marker = list_marker_chars(ordered, i);
            let mut indent: Vec<char> = Vec::new();
            while indent.len() < marker.len()
                invariant
                    indent@.len() <= marker@.len(),
                    indent@ == spaces(indent@.len()),
                decreases marker.len() - indent.len(),
            {
                indent.push(' ');
                assert(indent@ =~= spaces(indent@.len()));
            }
            let base = self.lines.len();
            match &items[i] {
                Node::ListItem { children } => {
                    self.blocks(children);
                    proof {
                        law_blocks_after_output(children@, r);
                    }
                },
                other => {
                    if is_inline(other) {
                        self.inline_one(other, SpanStyle::plain());
                        proof {
                            lemma_absorb_empty(inline_lines_spec(seq![*other], style_plain()));
                            assert(absorb(empty_render(), inline_lines_spec(seq![*other], style_plain()))
                                == inline_lines_spec(seq![*other], style_plain()));
                        }
                    } else {
                        self.block(other);
                        proof {
                            lemma_block_frame(*other, r);
                        }
                    }
                },
            }
            let ghost mid = self.model();
            proof {
                assert(lines_v(self.lines@).len() == self.lines@.len());
                assert(base == r.0.len());
            }
            self.trim_to(base);
            assert(lines_v(self.lines@).len() == self.lines@.len());
            self.prefix_from(base, &marker, &indent, SpanStyle::plain().fg(Color::Yellow));
            proof {
                let e = empty_render();
                assert(rest[0] == items@[i as int]);
                let sub = match rest[0] {
                    Node::ListItem { children } => rendered_blocks(children@, e),
                    _ => if is_inline_spec(rest[0]) {
                        absorb(e, inline_lines_spec(seq![rest[0]], style_plain()))
                    } else {
                        rendered_block(rest[0], e)
                    },
                };
                assert(mid == absorb(r, sub));
                assert(mid.0.take(base as int) =~= r.0);
                assert(mid.0.skip(base as int) =~= sub.0);
                let t = trim_blank(sub.0);
                assert((r.0 + t).take(base as int) =~= r.0);
                assert((r.0 + t).skip(base as int) =~= t);
                assert(rest.subrange(1, rest.len() as int) =~= items@.subrange(
                    i + 1,
                    items@.len() as int,
                ));
            }
            i = i + 1;
        }
        assert(items@.subrange(i as int, items@.len() as int) =~= Seq::<Node>::empty());
    }
}

/// The marker span of a heading at `level`.
fn heading_marker_span(level: u8) -> (s: StyledSpan)
    ensures
        span_v(s) == heading_marker(level),
{
    let mut m: Vec<char> = Vec::new();
    let mut k: u8 = 0;
    while k < level
        invariant
            k <= level,
            m@ == fill('#', k as nat),
        decreases level - k,
    {
        m.push('#');
        k = k + 1;
        assert(m@ =~= fill('#', k as nat));
    }
    m.push(' ');
    span(string_of(m.as_slice()), SpanStyle::plain().fg(Color::DarkGray))
}

/// The marker of item `i` of a list.
fn list_marker_chars(ordered: bool, i: usize) -> (m: Vec<char>)
    requires
        i < usize::MAX,
    ensures
        m@ == list_marker(ordered, i as nat),
{
    let mut m: Vec<char> = Vec::new();
    if ordered {
        let d = decimal_chars(i + 1);
        if d.len() < 2 {
            let mut k: usize = d.len();
            while k < 2
                invariant
                    d@.len() <= k <= 2,
                    m@ == spaces((k - d@.len()) as nat),
                decreases 2 - k,
            {
                m.push(' ');
                k = k + 1;
                assert(m@ =~= spaces((k - d@.len()) as nat));
            }
        }
        push_all(&mut m, d.as_slice());
        m.push('.');
        m.push(' ');
        assert(m@ =~= list_marker(ordered, i as nat));
    } else {
        m.push(' ');
        m.push('•');
        m.push(' ');
        assert(m@ =~= list_marker(ordered, i as nat));
    }
    m
}

/// Renders a document to styled lines, and the position of every link:
/// its blocks in order, without trailing blank lines.
pub fn render_with_links(ast: &Ast) -> (r: (Vec<Vec<StyledSpan>>, Vec<LinkSpan>))
    ensures
        (lines_v(r.0@), links_v(r.1@)) == document(ast.nodes@),
{
    let mut rd = Renderer::new();
    rd.blocks(&ast.nodes);
    rd.trim_to(0);
    proof {
        let d = rendered_blocks(ast.nodes@, empty_render());
        assert(d.0.skip(0) =~= d.0);
        assert(d.0.take(0) =~= Seq::<LineV>::empty());
        assert(d.0.take(0) + trim_blank(d.0.skip(0)) =~= trim_blank(d.0));
    }
    (rd.lines, rd.links)
}

/// Renders a document to styled lines.
pub fn render(ast: &Ast) -> (r: Vec<Vec<StyledSpan>>)
    ensures
        lines_v(r@) == document(ast.nodes@).0,
{
    render_with_links(ast).0
}

} // verus!
