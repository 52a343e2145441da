//! Inline content: text runs, emphasis, code, links and images, rendered
//! into spans and split into lines at hard breaks.

use super::{
    colored, line_v, lines_v, link_v, links_v, span, span_v, style_bold, style_fg, style_italic,
    style_plain, style_underlined, Color, LineV, LinkV, Node, SpanStyle, SpanV, StyledSpan,
};
use crate::text::{chars_of, owned, push_all, push_str, string_of};
use crate::view::LinkSpan;
use vstd::prelude::*;

verus! {

/// Whether `n` is inline content, which may stand bare among block nodes.
pub open spec fn is_inline_spec(n: Node) -> bool {
    match n {
        Node::Text(_) => true,
        Node::Emphasis { .. } => true,
        Node::Strong { .. } => true,
        Node::InlineCode { .. } => true,
        Node::Link { .. } => true,
        Node::Image { .. } => true,
        Node::Html(_) => true,
        _ => false,
    }
}

/// Whether `n` is inline content.
pub fn is_inline(n: &Node) -> (b: bool)
    ensures
        b == is_inline_spec(*n),
{
    match n {
        Node::Text(_) | Node::Emphasis { .. } | Node::Strong { .. } | Node::InlineCode { .. }
        | Node::Link { .. } | Node::Image { .. } | Node::Html(_) => true,
        _ => false,
    }
}

/// ` (href)`: a link target shown after the link text.
pub open spec fn href_suffix(href: Seq<char>) -> Seq<char> {
    seq![' ', '('] + href + seq![')']
}

/// The label of an image: its alt text, else its title, else `image`,
/// after a picture sign.
pub open spec fn image_label(alt: Seq<char>, title: Seq<char>) -> Seq<char> {
    seq!['🖼', ' '] + if alt.len() > 0 {
        alt
    } else if title.len() > 0 {
        title
    } else {
        seq!['i', 'm', 'a', 'g', 'e']
    }
}

// ── Plain text of inline content ───────────────────────────────────────────

/// The plain text of inline `nodes`: breaks become spaces, a link keeps its
/// target in brackets, an image its alt text.
pub open spec fn flat_text(nodes: Seq<Node>) -> Seq<char>
    decreases nodes,
{
    if nodes.len() == 0 {
        seq![]
    } else {
        flat_text_node(nodes[0]) + flat_text(nodes.subrange(1, nodes.len() as int))
    }
}

/// The plain text of one inline node.
pub open spec fn flat_text_node(n: Node) -> Seq<char>
    decreases n,
{
    match n {
        Node::Text(s) => s@,
        Node::InlineCode { content } => content@,
        Node::Emphasis { children } => flat_text(children@),
        Node::Strong { children } => flat_text(children@),
        Node::Link { href, children } => flat_text(children@) + if href@.len() > 0 {
            href_suffix(href@)
        } else {
            seq![]
        },
        Node::Image { alt, .. } => alt@,
        Node::SoftBreak => seq![' '],
        Node::HardBreak => seq![' '],
        _ => seq![],
    }
}

/// Flattens inline `nodes` to plain text (table cells, link text).
pub fn flatten_inline(nodes: &Vec<Node>) -> (r: String)
    ensures
        r@ == flat_text(nodes@),
    decreases nodes,
{
    let mut out: Vec<char> = Vec::new();
    let mut i: usize = 0;
    assert(nodes@.subrange(0, nodes@.len() as int) =~= nodes@);
    while i < nodes.len()
        invariant
            i <= nodes@.len(),
            out@ + flat_text(nodes@.subrange(i as int, nodes@.len() as int)) == flat_text(nodes@),
        decreases nodes.len() - i,
    {
        let ghost rest = nodes@.subrange(i as int, nodes@.len() as int);
        let ghost before = out@;
        let piece = flatten_node(&nodes[i]);
        push_str(&mut out, piece.as_str());
        proof {
            assert(rest[0] == nodes@[i as int]);
            assert(rest.subrange(1, rest.len() as int) =~= nodes@.subrange(
                i + 1,
                nodes@.len() as int,
            ));
            assert(before + flat_text(rest) =~= out@ + flat_text(rest.subrange(1, rest.len() as int)));
        }
        i = i + 1;
    }
    assert(nodes@.subrange(i as int, nodes@.len() as int) =~= Seq::<Node>::empty());
    assert(out@ =~= flat_text(nodes@));
    string_of(out.as_slice())
}

/// Flattens one inline node to plain text.
fn flatten_node(n: &Node) -> (r: String)
    ensures
        r@ == flat_text_node(*n),
    decreases n,
{
    match n {
        Node::Text(s) => s.clone(),
        Node::InlineCode { content } => content.clone(),
        Node::Emphasis { children } => flatten_inline(children),
        Node::Strong { children } => flatten_inline(children),
        Node::Link { href, children } => {
            let inner = flatten_inline(children);
            if href.as_str().is_empty() {
                inner
            } else {
                let mut out = chars_of(inner.as_str());
                out.push(' ');
                out.push('(');
                push_str(&mut out, href.as_str());
                out.push(')');
                assert(out@ =~= inner@ + href_suffix(href@));
                string_of(out.as_slice())
            }
        },
        Node::Image { alt, .. } => alt.clone(),
        Node::SoftBreak | Node::HardBreak => {
            let mut out: Vec<char> = Vec::new();
            out.push(' ');
            string_of(out.as_slice())
        },
        _ => String::new(),
    }
}

// ── Styled inline content ──────────────────────────────────────────────────

/// Inline rendering in progress: the spans of the line being built, the
/// lines already ended by hard breaks, and the links found.
pub type InlineV = (LineV, Seq<LineV>, Seq<LinkV>);

/// The view of inline rendering in progress.
pub open spec fn inline_state(
    cur: Seq<StyledSpan>,
    lines: Seq<Vec<StyledSpan>>,
    links: Seq<LinkSpan>,
) -> InlineV {
    (line_v(cur), lines_v(lines), links_v(links))
}

/// `st` after rendering inline `nodes` in style `base`, one after another.
pub open spec fn rendered_inline(nodes: Seq<Node>, base: SpanStyle, st: InlineV) -> InlineV
    decreases nodes,
{
    if nodes.len() == 0 {
        st
    } else {
        rendered_inline(
            nodes.subrange(1, nodes.len() as int),
            base,
            rendered_inline_node(nodes[0], base, st),
        )
    }
}

/// `st` after rendering one inline node in style `base`. Text takes the
/// base style; emphasis adds italic, strong bold; code is light yellow;
/// a link's text is blue and underlined, followed by its target in dark
/// gray, and a link with visible text is recorded on the line where it
/// starts; an image shows its label in magenta; raw HTML is dark gray; a
/// soft break is a space and a hard break ends the line.
pub open spec fn rendered_inline_node(n: Node, base: SpanStyle, st: InlineV) -> InlineV
    decreases n,
{
    let cur = st.0;
    let lines = st.1;
    let links = st.2;
    match n {
        Node::Text(s) => (cur.push((s@, base)), lines, links),
        Node::Emphasis { children } => rendered_inline(children@, style_italic(base), st),
        Node::Strong { children } => rendered_inline(children@, style_bold(base), st),
        Node::InlineCode { content } => (
            cur.push((content@, colored(Color::LightYellow))),
            lines,
            links,
        ),
        Node::Link { href, children } => {
            let after = rendered_inline(
                children@,
                style_underlined(style_fg(base, Color::Blue)),
                st,
            );
            let text = flat_text(children@);
            let cur2 = if href@.len() > 0 {
                after.0.push((href_suffix(href@), colored(Color::DarkGray)))
            } else {
                after.0
            };
            let links2 = if text.len() > 0 {
                after.2.push((lines.len(), text, href@))
            } else {
                after.2
            };
            (cur2, after.1, links2)
        },
        Node::Image { alt, title } => (
            cur.push((image_label(alt@, title@), colored(Color::Magenta))),
            lines,
            links,
        ),
        Node::Html(s) => (cur.push((s@, colored(Color::DarkGray))), lines, links),
        Node::SoftBreak => (cur.push((seq![' '], style_plain())), lines, links),
        Node::HardBreak => (seq![], lines.push(cur), links),
        _ => st,
    }
}

/// The lines and links of inline `nodes` rendered in `base`; the line in
/// progress at the end is always kept, so there is at least one line.
pub open spec fn inline_lines_spec(nodes: Seq<Node>, base: SpanStyle) -> (
    Seq<LineV>,
    Seq<LinkV>,
) {
    let st = rendered_inline(nodes, base, (seq![], seq![], seq![]));
    (st.1.push(st.0), st.2)
}

proof fn lemma_line_push(l: Seq<StyledSpan>, s: StyledSpan)
    ensures
        line_v(l.push(s)) == line_v(l).push(span_v(s)),
{
    assert(line_v(l.push(s)) =~= line_v(l).push(span_v(s)));
}

proof fn lemma_lines_push(ls: Seq<Vec<StyledSpan>>, l: Vec<StyledSpan>)
    ensures
        lines_v(ls.push(l)) == lines_v(ls).push(line_v(l@)),
{
    assert(lines_v(ls.push(l)) =~= lines_v(ls).push(line_v(l@)));
}

proof fn lemma_links_push(ls: Seq<LinkSpan>, l: LinkSpan)
    ensures
        links_v(ls.push(l)) == links_v(ls).push(link_v(l)),
{
    assert(links_v(ls.push(l)) =~= links_v(ls).push(link_v(l)));
}

/// Renders inline `nodes[lo..hi]` in style `base` onto the line in
/// progress `cur`, ending lines into `lines` and recording links.
pub fn inline_into(
    nodes: &Vec<Node>,
    lo: usize,
    hi: usize,
    base: SpanStyle,
    cur: &mut Vec<StyledSpan>,
    lines: &mut Vec<Vec<StyledSpan>>,
    links: &mut Vec<LinkSpan>,
)
    requires
        lo <= hi <= nodes@.len(),
    ensures
        inline_state(final(cur)@, final(lines)@, final(links)@) == rendered_inline(
            nodes@.subrange(lo as int, hi as int),
            base,
            inline_state(old(cur)@, old(lines)@, old(links)@),
        ),
    decreases nodes,
{
    let ghost st0 = inline_state(cur@, lines@, links@);
    let mut i = lo;
    while i < hi
        invariant
            lo <= i <= hi,
            hi <= nodes@.len(),
            rendered_inline(nodes@.subrange(i as int, hi as int), base, inline_state(cur@, lines@, links@))
                == rendered_inline(nodes@.subrange(lo as int, hi as int), base, st0),
        decreases hi - i,
    {
        let ghost rest = nodes@.subrange(i as int, hi as int);
        inline_node(&nodes[i], base, cur, lines, links);
        proof {
            assert(rest[0] == nodes@[i as int]);
            assert(rest.subrange(1, rest.len() as int) =~= nodes@.subrange(i + 1, hi as int));
        }
        i = i + 1;
    }
    assert(nodes@.subrange(i as int, hi as int) =~= Seq::<Node>::empty());
}

/// Renders one inline node in style `base` onto the line in progress.
pub fn inline_node(
    n: &Node,
    base: SpanStyle,
    cur: &mut Vec<StyledSpan>,
    lines: &mut Vec<Vec<StyledSpan>>,
    links: &mut Vec<LinkSpan>,
)
    ensures
        inline_state(final(cur)@, final(lines)@, final(links)@) == rendered_inline_node(
            *n,
            base,
            inline_state(old(cur)@, old(lines)@, old(links)@),
        ),
    decreases n,
{
    match n {
        Node::Text(s) => {
            let sp = span(s.clone(), base);
            proof {
                lemma_line_push(cur@, sp);
            }
            cur.push(sp);
        },
        Node::Emphasis { children } => {
            let b = base.italic();
            inline_into(children, 0, children.len(), b, cur, lines, links);
            assert(children@.subrange(0, children@.len() as int) =~= children@);
        },
        Node::Strong { children } => {
            let b = base.bold();
            inline_into(children, 0, children.len(), b, cur, lines, links);
            assert(children@.subrange(0, children@.len() as int) =~= children@);
        },
        Node::InlineCode { content } => {
            let sp = span(content.clone(), SpanStyle::plain().fg(Color::LightYellow));
            proof {
                lemma_line_push(cur@, sp);
            }
            cur.push(sp);
        },
        Node::Link { href, children } => {
            let link_line = lines.len();
            let link_text = flatten_inline(children);
            let b = base.fg(Color::Blue).underlined();
            inline_into(children, 0, children.len(), b, cur, lines, links);
            assert(children@.subrange(0, children@.len() as int) =~= children@);
            if !href.as_str().is_empty() {
                let mut t = Vec::new();
                t.push(' ');
                t.push('(');
                push_str(&mut t, href.as_str());
                t.push(')');
                assert(t@ =~= href_suffix(href@));
                let sp = span(string_of(t.as_slice()), SpanStyle::plain().fg(Color::DarkGray));
                proof {
                    lemma_line_push(cur@, sp);
                }
                cur.push(sp);
            }
            if !link_text.as_str().is_empty() {
                let l = LinkSpan { line: link_line, text: link_text, href: href.clone() };
                proof {
                    lemma_links_push(links@, l);
                }
                links.push(l);
            }
        },
        Node::Image { alt, title } => {
            let mut t = Vec::new();
            t.push('🖼');
            t.push(' ');
            if !alt.as_str().is_empty() {
                push_str(&mut t, alt.as_str());
            } else if !title.as_str().is_empty() {
                push_str(&mut t, title.as_str());
            } else {
                t.push('i');
                t.push('m');
                t.push('a');
                t.push('g');
                t.push('e');
            }
            assert(t@ =~= image_label(alt@, title@));
            let sp = span(string_of(t.as_slice()), SpanStyle::plain().fg(Color::Magenta));
            proof {
                lemma_line_push(cur@, sp);
            }
            cur.push(sp);
        },
        Node::Html(s) => {
            let sp = span(s.clone(), SpanStyle::plain().fg(Color::DarkGray));
            proof {
                lemma_line_push(cur@, sp);
            }
            cur.push(sp);
        },
        Node::SoftBreak => {
            let mut t = Vec::new();
            t.push(' ');
            let sp = span(string_of(t.as_slice()), SpanStyle::plain());
            proof {
                lemma_line_push(cur@, sp);
            }
            cur.push(sp);
        },
        Node::HardBreak => {
            let mut line: Vec<StyledSpan> = Vec::new();
            std::mem::swap(&mut line, cur);
            proof {
                lemma_lines_push(lines@, line);
                assert(line_v(cur@) =~= Seq::<SpanV>::empty());
            }
            lines.push(line);
        },
        _ => {},
    }
}

/// The lines and links of inline `nodes[lo..hi]` rendered in `base`.
pub fn inline_lines(nodes: &Vec<Node>, lo: usize, hi: usize, base: SpanStyle) -> (r: (
    Vec<Vec<StyledSpan>>,
    Vec<LinkSpan>,
))
    requires
        lo <= hi <= nodes@.len(),
    ensures
        (lines_v(r.0@), links_v(r.1@)) == inline_lines_spec(
            nodes@.subrange(lo as int, hi as int),
            base,
        ),
{
    let mut lines: Vec<Vec<StyledSpan>> = Vec::new();
    let mut cur: Vec<StyledSpan> = Vec::new();
    let mut links: Vec<LinkSpan> = Vec::new();
    assert(inline_state(cur@, lines@, links@) =~~= (seq![], seq![], seq![]));
    inline_into(nodes, lo, hi, base, &mut cur, &mut lines, &mut links);
    proof {
        lemma_lines_push(lines@, cur);
    }
    lines.push(cur);
    (lines, links)
}

/// The lines and links of the single inline node `n` rendered in `base`.
pub fn inline_node_lines(n: &Node, base: SpanStyle) -> (r: (Vec<Vec<StyledSpan>>, Vec<LinkSpan>))
    ensures
        (lines_v(r.0@), links_v(r.1@)) == inline_lines_spec(seq![*n], base),
{
    let mut lines: Vec<Vec<StyledSpan>> = Vec::new();
    let mut cur: Vec<StyledSpan> = Vec::new();
    let mut links: Vec<LinkSpan> = Vec::new();
    let ghost st0 = inline_state(cur@, lines@, links@);
    assert(st0 =~~= (seq![], seq![], seq![]));
    inline_node(n, base, &mut cur, &mut lines, &mut links);
    proof {
        let one = seq![*n];
        assert(one[0] == *n);
        assert(one.subrange(1, 1) =~= Seq::<Node>::empty());
        assert(rendered_inline(one, base, st0) == rendered_inline(
            one.subrange(1, 1),
            base,
            rendered_inline_node(*n, base, st0),
        ));
        lemma_lines_push(lines@, cur);
    }
    lines.push(cur);
    (lines, links)
}

} // verus!
