//! Styled terminal text for a Markdown document tree.
//!
//! A document is a tree of [`Node`]s. Rendering turns it into lines of
//! styled spans for an ANSI terminal (headings, emphasis, lists, block
//! quotes, fenced code, tables, links, images) together with the position of
//! every hyperlink, so that a viewer can open the link under a click.
//!
//! The contracts speak of views: a span is its text and style, a line the
//! sequence of its spans, a link its line number, text and target.

use crate::view::{Align, LinkSpan};
use vstd::prelude::*;

pub mod blocks;
pub mod inline;
pub mod table;

verus! {

/// A foreground colour of the terminal palette.
#[derive(Debug, Clone, Copy, PartialEq, Eq)]
pub enum Color {
    DarkGray,
    Cyan,
    Blue,
    Green,
    Yellow,
    LightYellow,
    Magenta,
}

/// How a run of text is drawn: an optional foreground colour and the text
/// modifiers in effect.
#[derive(Debug, Clone, Copy, PartialEq, Eq)]
pub struct SpanStyle {
    pub fg: Option<Color>,
    pub bold: bool,
    pub italic: bool,
    pub underlined: bool,
    pub dim: bool,
}

/// A run of text drawn in one style.
#[derive(Debug, Clone, PartialEq)]
pub struct StyledSpan {
    pub text: String,
    pub style: SpanStyle,
}

/// A node of a Markdown document tree: the block and inline elements that
/// rendering reads.
#[derive(Debug, PartialEq)]
pub enum Node {
    Heading { level: u8, children: Vec<Node> },
    Paragraph { children: Vec<Node> },
    FencedCode { lang: String, content: String },
    BlockQuote { children: Vec<Node> },
    List { ordered: bool, items: Vec<Node> },
    ListItem { children: Vec<Node> },
    Table { alignments: Vec<Align>, rows: Vec<Node> },
    TableRow { header: bool, cells: Vec<Node> },
    TableCell { children: Vec<Node> },
    HorizontalRule,
    Text(String),
    Emphasis { children: Vec<Node> },
    Strong { children: Vec<Node> },
    InlineCode { content: String },
    Link { href: String, children: Vec<Node> },
    Image { alt: String, title: String },
    Html(String),
    SoftBreak,
    HardBreak,
}

/// A parsed Markdown document: its top-level block nodes.
#[derive(Debug, PartialEq)]
pub struct Ast {
    pub nodes: Vec<Node>,
}

// ── Styles ─────────────────────────────────────────────────────────────────

/// No colour, no modifier.
pub open spec fn style_plain() -> SpanStyle {
    SpanStyle { fg: None, bold: false, italic: false, underlined: false, dim: false }
}

/// `s` drawn in colour `c`.
pub open spec fn style_fg(s: SpanStyle, c: Color) -> SpanStyle {
    SpanStyle { fg: Some(c), bold: s.bold, italic: s.italic, underlined: s.underlined, dim: s.dim }
}

/// `s` made bold.
pub open spec fn style_bold(s: SpanStyle) -> SpanStyle {
    SpanStyle { fg: s.fg, bold: true, italic: s.italic, underlined: s.underlined, dim: s.dim }
}

/// `s` made italic.
pub open spec fn style_italic(s: SpanStyle) -> SpanStyle {
    SpanStyle { fg: s.fg, bold: s.bold, italic: true, underlined: s.underlined, dim: s.dim }
}

/// `s` underlined.
pub open spec fn style_underlined(s: SpanStyle) -> SpanStyle {
    SpanStyle { fg: s.fg, bold: s.bold, italic: s.italic, underlined: true, dim: s.dim }
}

/// `s` dimmed.
pub open spec fn style_dim(s: SpanStyle) -> SpanStyle {
    SpanStyle { fg: s.fg, bold: s.bold, italic: s.italic, underlined: s.underlined, dim: true }
}

/// The plain style in colour `c`.
pub open spec fn colored(c: Color) -> SpanStyle {
    style_fg(style_plain(), c)
}

impl SpanStyle {
    /// No colour, no modifier.
    pub fn plain() -> (s: SpanStyle)
        ensures
            s == style_plain(),
    {
        SpanStyle { fg: None, bold: false, italic: false, underlined: false, dim: false }
    }

    /// This style drawn in colour `c`.
    pub fn fg(self, c: Color) -> (s: SpanStyle)
        ensures
            s == style_fg(self, c),
    {
        SpanStyle { fg: Some(c), ..self }
    }

    /// This style made bold.
    pub fn bold(self) -> (s: SpanStyle)
        ensures
            s == style_bold(self),
    {
        SpanStyle { bold: true, ..self }
    }

    /// This style made italic.
    pub fn italic(self) -> (s: SpanStyle)
        ensures
            s == style_italic(self),
    {
        SpanStyle { italic: true, ..self }
    }

    /// This style underlined.
    pub fn underlined(self) -> (s: SpanStyle)
        ensures
            s == style_underlined(self),
    {
        SpanStyle { underlined: true, ..self }
    }

    /// This style dimmed.
    pub fn dim(self) -> (s: SpanStyle)
        ensures
            s == style_dim(self),
    {
        SpanStyle { dim: true, ..self }
    }
}

/// The style of a heading's text at `level`: bold, cyan and underlined at
/// the top level, cyan at the second, blue at the third, dim blue below.
pub open spec fn heading_style_spec(level: u8) -> SpanStyle {
    let base = style_bold(style_plain());
    if level == 1 {
        style_underlined(style_fg(base, Color::Cyan))
    } else if level == 2 {
        style_fg(base, Color::Cyan)
    } else if level == 3 {
        style_fg(base, Color::Blue)
    } else {
        style_dim(style_fg(base, Color::Blue))
    }
}

/// The style of a heading's text at `level`.
pub fn heading_style(level: u8) -> (s: SpanStyle)
    ensures
        s == heading_style_spec(level),
{
    let base = SpanStyle::plain().bold();
    match level {
        1 => base.fg(Color::Cyan).underlined(),
        2 => base.fg(Color::Cyan),
        3 => base.fg(Color::Blue),
        _ => base.fg(Color::Blue).dim(),
    }
}

// ── Views ──────────────────────────────────────────────────────────────────

/// A span as text and style.
pub type SpanV = (Seq<char>, SpanStyle);

/// A line as the sequence of its spans.
pub type LineV = Seq<SpanV>;

/// A link as its line number, visible text and target.
pub type LinkV = (nat, Seq<char>, Seq<char>);

/// The view of a span.
pub open spec fn span_v(s: StyledSpan) -> SpanV {
    (s.text@, s.style)
}

/// The view of a line.
pub open spec fn line_v(l: Seq<StyledSpan>) -> LineV {
    l.map_values(|s: StyledSpan| span_v(s))
}

/// The view of a run of lines.
pub open spec fn lines_v(ls: Seq<Vec<StyledSpan>>) -> Seq<LineV> {
    ls.map_values(|l: Vec<StyledSpan>| line_v(l@))
}

/// The view of a link.
pub open spec fn link_v(l: LinkSpan) -> LinkV {
    (l.line as nat, l.text@, l.href@)
}

/// The view of a run of links.
pub open spec fn links_v(ls: Seq<LinkSpan>) -> Seq<LinkV> {
    ls.map_values(|l: LinkSpan| link_v(l))
}

/// A span of `text` in `style`.
pub fn span(text: String, style: SpanStyle) -> (s: StyledSpan)
    ensures
        span_v(s) == (text@, style),
{
    StyledSpan { text, style }
}

} // verus!
