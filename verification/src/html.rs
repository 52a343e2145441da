//! Markdown to HTML with highlighted code blocks.
//!
//! pulldown-cmark parses the Markdown and renders every event but the code
//! blocks; the library collects each code block's text itself and emits it
//! as a `<pre class="code-block">` block, highlighted by syntect, except
//! Mermaid blocks, which stay raw (escaped) for Mermaid.js. Around that, math
//! is taken out before parsing and put back after, Mermaid blocks are
//! wrapped for the browser, and the theme's stylesheet is prepended.

use crate::escape::{escape, escape_chars, EscapeSet};
use crate::render::{
    extract_math, extracted, inject_math, inject_mermaid_wrappers, injected, mermaid_pass,
    parse_theme, placeholders_model, theme_css, theme_label, theme_name, theme_named, RenderOutput,
    Theme,
};
use crate::parser::types::strings_model;
use crate::text::{chars_of, first_nl, lemma_first_nl, owned, push_all, push_str, slice_vec, string_of};
use pulldown_cmark::html::push_html;
use pulldown_cmark::{CodeBlockKind, Event, Options, Parser, Tag, TagEnd};
use syntect::easy::HighlightLines;
use syntect::html::{styled_line_to_highlighted_html, IncludeBackground};
use syntect::highlighting::{Color, FontStyle, Style, Theme as SyntectTheme, ThemeSet};
use syntect::parsing::{SyntaxReference, SyntaxSet};
use vstd::prelude::*;

verus! {

/// What a Markdown event means to the code-block collector.
#[derive(Debug, Clone, Copy, PartialEq, Eq)]
pub enum MdEventKind {
    /// The start of a fenced code block; the event's text is its info
    /// string (the language), possibly empty.
    CodeStartFenced,
    /// The start of an indented code block.
    CodeStartIndented,
    /// The end of a code block.
    CodeEnd,
    /// Text; the event's text is the text itself.
    Text,
    /// Anything else.
    Other,
}

/// A Markdown event: its kind, its text where the kind has one, and the
/// HTML pulldown-cmark renders for it on its own.
#[derive(Debug, Clone, PartialEq)]
pub struct MdEvent {
    pub kind: MdEventKind,
    pub text: String,
    pub html: String,
}

/// The view of an event.
pub type MdEventV = (MdEventKind, Seq<char>, Seq<char>);

/// The view of a run of events.
pub open spec fn events_v(evs: Seq<MdEvent>) -> Seq<MdEventV> {
    evs.map_values(|e: MdEvent| (e.kind, e.text@, e.html@))
}

/// The events pulldown-cmark parses from `source` with every extension on.
pub uninterp spec fn markdown_events(source: Seq<char>) -> Seq<MdEventV>;

/// A run of text in a highlighted line, as plain values: its foreground
/// and background colours as (red, green, blue, alpha), its font-style bits
/// (bold, italic, underline), and the text.
#[derive(Debug)]
pub struct StyledPiece {
    pub fg: (u8, u8, u8, u8),
    pub bg: (u8, u8, u8, u8),
    pub font: u8,
    pub text: String,
}

/// The view of a styled piece.
pub type PieceV = ((u8, u8, u8, u8), (u8, u8, u8, u8), u8, Seq<char>);

/// The view of a run of styled pieces.
pub open spec fn pieces_v(p: Seq<StyledPiece>) -> Seq<PieceV> {
    p.map_values(|x: StyledPiece| (x.fg, x.bg, x.font, x.text@))
}

/// The text of a run of styled pieces, in order.
pub open spec fn pieces_text(p: Seq<PieceV>) -> Seq<char>
    decreases p.len(),
{
    if p.len() == 0 {
        seq![]
    } else {
        pieces_text(p.drop_last()) + p.last().3
    }
}

/// The HTML syntect's `styled_line_to_highlighted_html` makes of `pieces`
/// without background colours: `span` elements with inline styles around
/// the escaped text.
pub uninterp spec fn styled_line_html(pieces: Seq<PieceV>) -> Seq<char>;

/// The syntect theme code blocks are highlighted in.
pub const HIGHLIGHT_THEME: &'static str = "InspiredGitHub";

/// syntect's `LinesWithEndings`: `s` cut after each `\n`, each piece keeping
/// its terminator; a last piece without one when `s` does not end in `\n`.
pub open spec fn lines_with_endings(s: Seq<char>) -> Seq<Seq<char>>
    decreases s.len(),
{
    if s.len() == 0 {
        seq![]
    } else {
        let i = first_nl(s);
        proof {
            lemma_first_nl(s);
        }
        if i < s.len() {
            seq![s.take(i as int + 1)] + lines_with_endings(s.skip(i as int + 1))
        } else {
            seq![s]
        }
    }
}

/// `h` is the HTML of the highlighted line `line`: syntect's for pieces
/// whose text is the line (or for no pieces, when highlighting the line
/// failed), or the line escaped when syntect made no HTML of it.
pub open spec fn line_html_ok(line: Seq<char>, h: Seq<char>) -> bool {
    ||| h == escape(line, EscapeSet::Text)
    ||| exists|p: Seq<PieceV>|
        #![trigger styled_line_html(p)]
        styled_line_html(p) == h && (p.len() == 0 || pieces_text(p) == line)
}

/// The texts `hs`, one after the other.
pub open spec fn concat_all(hs: Seq<Seq<char>>) -> Seq<char>
    decreases hs.len(),
{
    if hs.len() == 0 {
        seq![]
    } else {
        concat_all(hs.drop_last()) + hs.last()
    }
}

/// `body` is `code` highlighted by syntect: `code` cut into lines with
/// their endings, each line's HTML in turn.
pub open spec fn highlighted_ok(code: Seq<char>, body: Seq<char>) -> bool {
    let ls = lines_with_endings(code);
    exists|hs: Seq<Seq<char>>|
        #![trigger concat_all(hs)]
        hs.len() == ls.len() && (forall|i: int| 0 <= i < ls.len() ==> line_html_ok(ls[i], #[trigger] hs[i]))
            && body == concat_all(hs)
}

/// Calls `pulldown_cmark::Parser::new_ext` with `Options::all()` and, for
/// each event, `pulldown_cmark::html::push_html` on that event alone. Claims
/// only that the events are the named parse of `source`; each event's kind
/// and text are taken from its variant, one arm each.
#[verifier::external_body]
fn parse_markdown(source: &str) -> (r: Vec<MdEvent>)
    ensures
        events_v(r@) == markdown_events(source@),
{
    let mut out = Vec::new();
    for e in Parser::new_ext(source, Options::all()) {
        let mut html = String::new();
        push_html(&mut html, std::iter::once(e.clone()));
        let (kind, text) = match e {
            Event::Start(Tag::CodeBlock(CodeBlockKind::Fenced(l))) => (MdEventKind::CodeStartFenced, l.to_string()),
            Event::Start(Tag::CodeBlock(CodeBlockKind::Indented)) => (MdEventKind::CodeStartIndented, String::new()),
            Event::End(TagEnd::CodeBlock) => (MdEventKind::CodeEnd, String::new()),
            Event::Text(t) => (MdEventKind::Text, t.to_string()),
            _ => (MdEventKind::Other, String::new()),
        };
        out.push(MdEvent { kind, text, html });
    }
    out
}

#[verifier::external_type_specification]
#[verifier::external_body]
pub struct ExSyntaxSet(SyntaxSet);

#[verifier::external_type_specification]
#[verifier::external_body]
pub struct ExSyntaxReference(SyntaxReference);

#[verifier::external_type_specification]
#[verifier::external_body]
pub struct ExThemeSet(ThemeSet);

#[verifier::external_type_specification]
#[verifier::external_body]
pub struct ExSyntectTheme(SyntectTheme);

#[verifier::external_type_specification]
#[verifier::external_body]
pub struct ExHighlightLines<'a>(HighlightLines<'a>);

#[verifier::external_type_specification]
#[verifier::external_body]
pub struct ExSyntectError(syntect::Error);

/// The name of syntect's plain-text syntax.
pub const PLAIN_TEXT_SYNTAX: &'static str = "Plain Text";

/// Calls `SyntaxSet::load_defaults_newlines`: syntect's bundled syntaxes.
/// Nothing is claimed of them.
#[verifier::external_body]
fn default_syntaxes() -> SyntaxSet {
    SyntaxSet::load_defaults_newlines()
}

/// Calls `ThemeSet::load_defaults`: syntect's bundled themes. Nothing is
/// claimed of them.
#[verifier::external_body]
fn default_themes() -> ThemeSet {
    ThemeSet::load_defaults()
}

/// Calls `SyntaxSet::find_syntax_by_token`: the syntax of `ss` that a
/// language token (a name or a file extension) names, if any. Which one it
/// finds is not claimed.
#[verifier::external_body]
fn syntax_by_token<'a>(ss: &'a SyntaxSet, token: &str) -> Option<&'a SyntaxReference> {
    ss.find_syntax_by_token(token)
}

/// Calls `SyntaxSet::find_syntax_by_name`: the syntax of `ss` with that
/// name, if any. Whether there is one is not claimed.
#[verifier::external_body]
fn syntax_by_name<'a>(ss: &'a SyntaxSet, name: &str) -> Option<&'a SyntaxReference> {
    ss.find_syntax_by_name(name)
}

/// Calls `BTreeMap::get` on the theme set's `themes`: the theme named
/// `name`, if any. Whether there is one is not claimed.
#[verifier::external_body]
fn theme_by_name<'a>(ts: &'a ThemeSet, name: &str) -> Option<&'a SyntectTheme> {
    ts.themes.get(name)
}

/// Calls `BTreeMap::values` and takes the first: the theme set's first
/// theme by name, if it has any. Whether it has one is not claimed.
#[verifier::external_body]
fn first_theme<'a>(ts: &'a ThemeSet) -> Option<&'a SyntectTheme> {
    ts.themes.values().next()
}

/// Calls `HighlightLines::new`: a highlighter for `syntax` in `theme`, at
/// the start of a text.
#[verifier::external_body]
fn new_highlighter<'a>(syntax: &SyntaxReference, theme: &'a SyntectTheme) -> HighlightLines<'a> {
    HighlightLines::new(syntax, theme)
}

/// Calls `HighlightLines::highlight_line` on the next line of the text and
/// takes each returned range's style apart into plain values. Claims what
/// syntect documents of the ranges: their texts, in order, make up the
/// line. Which styles they carry depends on the highlighter's state, which
/// carries over from the lines before, and is not claimed.
#[verifier::external_body]
fn highlight_line(h: &mut HighlightLines, line: &str, ss: &SyntaxSet) -> (r: Result<Vec<StyledPiece>, syntect::Error>)
    ensures
        r matches Ok(p) ==> pieces_text(pieces_v(p@)) == line@,
{
    let mut out = Vec::new();
    for (st, text) in h.highlight_line(line, ss)? {
        let (f, b) = (st.foreground, st.background);
        let font = st.font_style.bits();
        out.push(StyledPiece { fg: (f.r, f.g, f.b, f.a), bg: (b.r, b.g, b.b, b.a), font, text: text.to_string() });
    }
    Ok(out)
}

/// Calls `styled_line_to_highlighted_html` with `IncludeBackground::No` on
/// `pieces`, each put back together as a syntect `Style` and its text.
/// Claims that what it makes is the named HTML of the pieces.
#[verifier::external_body]
fn styled_html(pieces: &Vec<StyledPiece>) -> (r: Result<String, syntect::Error>)
    ensures
        r matches Ok(s) ==> s@ == styled_line_html(pieces_v(pieces@)),
{
    let color = |c: (u8, u8, u8, u8)| Color { r: c.0, g: c.1, b: c.2, a: c.3 };
    let ranges: Vec<(Style, &str)> = pieces.iter().map(|p| (Style {
        foreground: color(p.fg),
        background: color(p.bg),
        font_style: FontStyle::from_bits_truncate(p.font),
    }, p.text.as_str())).collect();
    styled_line_to_highlighted_html(&ranges, IncludeBackground::No)
}

/// `s` cut after each `\n`, each piece keeping its terminator.
fn split_with_endings(s: &[char]) -> (r: Vec<String>)
    ensures
        strings_model(r@) == lines_with_endings(s@),
{
    let mut r: Vec<String> = Vec::new();
    let mut start: usize = 0;
    assert(s@.skip(0) =~= s@);
    while start < s.len()
        invariant
            start <= s.len(),
            lines_with_endings(s@) == strings_model(r@) + lines_with_endings(s@.skip(start as int)),
        decreases s.len() - start,
    {
        let ghost rest = s@.skip(start as int);
        proof {
            lemma_first_nl(rest);
        }
        let mut end = start;
        while end < s.len() && s[end] != '\n'
            invariant
                start <= end <= s.len(),
                rest == s@.skip(start as int),
                forall|j: int| start <= j < end ==> s@[j] != '\n',
            decreases s.len() - end,
        {
            end = end + 1;
        }
        assert(first_nl(rest) == end - start) by {
            if first_nl(rest) < end - start {
                assert(rest[first_nl(rest) as int] == s@[start + first_nl(rest)]);
            }
            if first_nl(rest) > end - start {
                assert(rest[end - start] == s@[end as int]);
            }
        }
        let stop = if end < s.len() {
            end + 1
        } else {
            end
        };
        let piece = slice_vec(s, start, stop);
        let ghost before = r@;
        r.push(string_of(piece.as_slice()));
        assert(strings_model(r@) =~= strings_model(before).push(piece@));
        if end < s.len() {
            assert(rest.take(end - start + 1) =~= piece@);
            assert(rest.skip(end - start + 1) =~= s@.skip(stop as int));
        } else {
            assert(rest =~= piece@);
            assert(s@.skip(stop as int) =~= Seq::<char>::empty());
        }
        assert(lines_with_endings(s@) =~= strings_model(r@) + lines_with_endings(s@.skip(stop as int)));
        start = stop;
    }
    assert(s@.skip(start as int) =~= Seq::<char>::empty());
    assert(lines_with_endings(s@) =~= strings_model(r@));
    r
}

/// The HTML of `code` highlighted as `lang`, line by line: in the syntax
/// the `lang` token names, or plain text when there is no token or syntect
/// knows none by it; in the highlighting theme, or syntect's first theme
/// when it has none by that name. A line whose highlighting fails gets no
/// pieces; a line syntect makes no HTML of is escaped; when there is no
/// plain-text syntax or no theme at all, every line is escaped.
fn highlighted(code: &str, lang: Option<&str>) -> (r: Vec<char>)
    ensures
        highlighted_ok(code@, r@),
{
    let cs = chars_of(code);
    let ls = split_with_endings(cs.as_slice());
    let ghost lv = strings_model(ls@);
    let ss = default_syntaxes();
    let ts = default_themes();
    let found = match lang {
        Some(l) => syntax_by_token(&ss, l),
        None => None,
    };
    let syntax = match found {
        Some(x) => Some(x),
        None => syntax_by_name(&ss, PLAIN_TEXT_SYNTAX),
    };
    let theme = match theme_by_name(&ts, HIGHLIGHT_THEME) {
        Some(t) => Some(t),
        None => first_theme(&ts),
    };
    let mut hl = match (syntax, theme) {
        (Some(x), Some(t)) => Some(new_highlighter(x, t)),
        _ => None,
    };
    let mut out: Vec<char> = Vec::new();
    let ghost mut hs: Seq<Seq<char>> = seq![];
    let mut i: usize = 0;
    while i < ls.len()
        invariant
            i <= ls@.len(),
            lv == strings_model(ls@),
            hs.len() == i,
            forall|j: int| 0 <= j < i ==> line_html_ok(lv[j], #[trigger] hs[j]),
            out@ == concat_all(hs),
        decreases ls.len() - i,
    {
        let line = ls[i].as_str();
        let made: Option<String> = match &mut hl {
            Some(h) => {
                let pieces = match highlight_line(h, line, &ss) {
                    Ok(p) => p,
                    Err(_) => Vec::new(),
                };
                let ghost pv = pieces_v(pieces@);
                assert(pv.len() == 0 || pieces_text(pv) == line@);
                match styled_html(&pieces) {
                    Ok(x) => {
                        assert(styled_line_html(pv) == x@);
                        assert(line_html_ok(line@, x@));
                        Some(x)
                    },
                    Err(_) => None,
                }
            },
            None => None,
        };
        assert(made matches Some(x) ==> line_html_ok(line@, x@));
        let add: Vec<char> = match made {
            Some(x) => chars_of(x.as_str()),
            None => {
                let lc = chars_of(line);
                escape_chars(lc.as_slice(), EscapeSet::Text)
            },
        };
        push_all(&mut out, add.as_slice());
        proof {
            assert(line_html_ok(lv[i as int], add@));
            let hs0 = hs;
            hs = hs.push(add@);
            assert(hs.drop_last() =~= hs0);
        }
        i = i + 1;
    }
    assert(hs.len() == lines_with_endings(code@).len());
    out
}

/// Opening of every code block, up to the `<code` tag's attributes.
pub const PRE_OPEN: &'static str = "<pre class=\"code-block\"><code";

/// Opening of a Mermaid code block.
pub const MERMAID_PRE_OPEN: &'static str = "<pre class=\"code-block\"><code class=\"language-mermaid\">";

/// Closing of every code block.
pub const PRE_CLOSE: &'static str = "</code></pre>";

/// The language of Mermaid diagrams.
pub const MERMAID_LANG: &'static str = "mermaid";

/// The `class` attribute naming `lang` on a code tag.
pub open spec fn lang_class(lang: Option<Seq<char>>) -> Seq<char> {
    match lang {
        Some(l) => seq![' '] + "class=\"language-"@ + l + seq!['"'],
        None => seq![],
    }
}

/// The HTML of a code block holding `code` in `lang`, with `body` the
/// highlighted code: a Mermaid block raw and escaped for Mermaid.js, any
/// other block highlighted, its `code` tag naming the language when there
/// is one, followed by a newline.
pub open spec fn code_block_html(code: Seq<char>, lang: Option<Seq<char>>, body: Seq<char>) -> Seq<char> {
    if lang == Some(MERMAID_LANG@) {
        MERMAID_PRE_OPEN@ + escape(code, EscapeSet::Text) + PRE_CLOSE@
    } else {
        PRE_OPEN@ + lang_class(lang) + seq!['>'] + body + PRE_CLOSE@ + seq!['\n']
    }
}

/// `body` may stand for the highlighted `code` of a block in `lang`: it is
/// `code` highlighted, unless the block is a Mermaid block, which is not
/// highlighted.
pub open spec fn block_body_ok(code: Seq<char>, lang: Option<Seq<char>>, body: Seq<char>) -> bool {
    lang == Some(MERMAID_LANG@) || highlighted_ok(code, body)
}

/// Collecting code blocks: the HTML so far, whether inside a code block,
/// its language and its text so far.
pub type CollectV = (Seq<char>, bool, Option<Seq<char>>, Seq<char>);

/// The collector after event `e`: a code block's start opens it (a fenced
/// block with an empty info string has no language), text inside it is
/// collected, its end emits it with `body` as its highlighted code; every
/// other event contributes its own HTML.
pub open spec fn collect_step(st: CollectV, e: MdEventV, body: Seq<char>) -> CollectV {
    match e.0 {
        MdEventKind::CodeStartFenced => (
            st.0,
            true,
            if e.1.len() > 0 {
                Some(e.1)
            } else {
                None
            },
            seq![],
        ),
        MdEventKind::CodeStartIndented => (st.0, true, None, seq![]),
        MdEventKind::CodeEnd => (st.0 + code_block_html(st.3, st.2, body), false, None, seq![]),
        MdEventKind::Text => if st.1 {
            (st.0, st.1, st.2, st.3 + e.1)
        } else {
            (st.0 + e.2, st.1, st.2, st.3)
        },
        MdEventKind::Other => (st.0 + e.2, st.1, st.2, st.3),
    }
}

/// The collector after `evs`, from the start, `bodies[j]` standing for the
/// highlighted code of the block that event `j` ends.
pub open spec fn collect_all(evs: Seq<MdEventV>, bodies: Seq<Seq<char>>) -> CollectV
    decreases evs.len(),
{
    if evs.len() == 0 {
        (seq![], false, None, seq![])
    } else {
        collect_step(collect_all(evs.drop_last(), bodies.drop_last()), evs.last(), bodies.last())
    }
}

/// `bodies` may stand for the highlighted code of the blocks among `evs`:
/// one for each event, and for each event that ends a code block, that
/// block's code highlighted.
pub open spec fn bodies_ok(evs: Seq<MdEventV>, bodies: Seq<Seq<char>>) -> bool
    decreases evs.len(),
{
    if evs.len() == 0 {
        bodies.len() == 0
    } else {
        let st = collect_all(evs.drop_last(), bodies.drop_last());
        &&& bodies.len() == evs.len()
        &&& bodies_ok(evs.drop_last(), bodies.drop_last())
        &&& evs.last().0 is CodeEnd ==> block_body_ok(st.3, st.2, bodies.last())
    }
}

/// The HTML of a run of Markdown events, `bodies` standing for the
/// highlighted code blocks.
pub open spec fn events_html(evs: Seq<MdEventV>, bodies: Seq<Seq<char>>) -> Seq<char> {
    collect_all(evs, bodies).0
}

/// The view of an optional language token.
pub open spec fn lang_v(lang: Option<&str>) -> Option<Seq<char>> {
    match lang {
        Some(l) => Some(l@),
        None => None,
    }
}

/// The HTML of a code block holding `code` in `lang`: for a Mermaid block
/// the code escaped, otherwise the code highlighted.
pub fn highlight_code(code: &str, lang: Option<&str>) -> (r: String)
    ensures
        exists|body: Seq<char>|
            #![trigger code_block_html(code@, lang_v(lang), body)]
            block_body_ok(code@, lang_v(lang), body) && r@ == code_block_html(code@, lang_v(lang), body),
{
    let ghost lv = lang_v(lang);
    let ghost mut w: Seq<char> = seq![];
    let mermaid = owned(MERMAID_LANG);
    let is_mermaid = match lang {
        Some(l) => owned(l) == mermaid,
        None => false,
    };
    let mut out: Vec<char> = Vec::new();
    if is_mermaid {
        push_str(&mut out, MERMAID_PRE_OPEN);
        let cs = chars_of(code);
        let esc = escape_chars(cs.as_slice(), EscapeSet::Text);
        push_all(&mut out, esc.as_slice());
        push_str(&mut out, PRE_CLOSE);
    } else {
        push_str(&mut out, PRE_OPEN);
        match lang {
            Some(l) => {
                out.push(' ');
                push_str(&mut out, "class=\"language-");
                push_str(&mut out, l);
                out.push('"');
            },
            None => {},
        }
        out.push('>');
        let body = highlighted(code, lang);
        push_all(&mut out, body.as_slice());
        push_str(&mut out, PRE_CLOSE);
        out.push('\n');
        proof {
            w = body@;
        }
    }
    assert(out@ =~= code_block_html(code@, lv, w));
    assert(block_body_ok(code@, lv, w));
    let r = string_of(out.as_slice());
    assert(block_body_ok(code@, lv, w) && r@ == code_block_html(code@, lv, w));
    r
}

/// The HTML of Markdown events: each event's own HTML, except that code
/// blocks are collected and emitted highlighted.
pub fn html_from_events(events: &Vec<MdEvent>) -> (r: String)
    ensures
        exists|bodies: Seq<Seq<char>>|
            #![trigger events_html(events_v(events@), bodies)]
            bodies_ok(events_v(events@), bodies) && r@ == events_html(events_v(events@), bodies),
{
    let ghost ev = events_v(events@);
    let ghost mut bodies: Seq<Seq<char>> = seq![];
    let mut out: Vec<char> = Vec::new();
    let mut in_code = false;
    let mut lang: Option<String> = None;
    let mut buf: Vec<char> = Vec::new();
    let mut i: usize = 0;
    while i < events.len()
        invariant
            i <= events@.len(),
            ev == events_v(events@),
            bodies.len() == i,
            bodies_ok(ev.take(i as int), bodies),
            collect_all(ev.take(i as int), bodies) == (out@, in_code, match lang {
                Some(l) => Some(l@),
                None => None,
            }, buf@),
        decreases events.len() - i,
    {
        let e = &events[i];
        proof {
            assert(ev.take(i + 1).drop_last() =~= ev.take(i as int));
            assert(ev.take(i + 1).last() == (e.kind, e.text@, e.html@));
        }
        let ghost st = collect_all(ev.take(i as int), bodies);
        let ghost mut body: Seq<char> = seq![];
        match e.kind {
            MdEventKind::CodeStartFenced => {
                in_code = true;
                lang = if e.text.as_str().is_empty() {
                    None
                } else {
                    Some(e.text.clone())
                };
                buf = Vec::new();
            },
            MdEventKind::CodeStartIndented => {
                in_code = true;
                lang = None;
                buf = Vec::new();
            },
            MdEventKind::CodeEnd => {
                in_code = false;
                let code = string_of(buf.as_slice());
                let block = match &lang {
                    Some(l) => highlight_code(code.as_str(), Some(l.as_str())),
                    None => highlight_code(code.as_str(), None),
                };
                proof {
                    body = choose|b: Seq<char>|
                        block_body_ok(st.3, st.2, b) && block@ == #[trigger] code_block_html(st.3, st.2, b);
                }
                push_str(&mut out, block.as_str());
                lang = None;
                buf = Vec::new();
            },
            MdEventKind::Text => {
                if in_code {
                    push_str(&mut buf, e.text.as_str());
                } else {
                    push_str(&mut out, e.html.as_str());
                }
            },
            MdEventKind::Other => {
                push_str(&mut out, e.html.as_str());
            },
        }
        proof {
            let b0 = bodies;
            bodies = bodies.push(body);
            assert(bodies.drop_last() =~= b0);
        }
        i = i + 1;
    }
    assert(ev.take(i as int) =~= ev);
    assert(bodies_ok(ev, bodies) && out@ == events_html(ev, bodies));
    string_of(out.as_slice())
}

/// Markdown `source` to HTML, code blocks highlighted.
pub fn render_with_highlighting(source: &str) -> (r: String)
    ensures
        exists|bodies: Seq<Seq<char>>|
            #![trigger events_html(markdown_events(source@), bodies)]
            bodies_ok(markdown_events(source@), bodies) && r@ == events_html(markdown_events(source@), bodies),
{
    let events = parse_markdown(source);
    html_from_events(&events)
}

/// The Markdown events of `source` once its math is taken out.
pub open spec fn body_events(source: Seq<char>) -> Seq<MdEventV> {
    markdown_events(extracted(source).0)
}

/// The body HTML of Markdown `source`, `bodies` standing for its
/// highlighted code blocks: math taken out, the rest parsed and rendered,
/// math put back, Mermaid blocks wrapped.
pub open spec fn body_html_of(source: Seq<char>, bodies: Seq<Seq<char>>) -> Seq<char> {
    mermaid_pass(injected(events_html(body_events(source), bodies), extracted(source).1))
}

/// The full HTML of `source` in `theme`, `bodies` standing for its
/// highlighted code blocks: the theme's stylesheet in a `style` element, a
/// newline, then the body.
pub open spec fn page_html(source: Seq<char>, theme: Theme, bodies: Seq<Seq<char>>) -> Seq<char> {
    "<style>"@ + theme_css(theme) + "</style>"@ + seq!['\n'] + body_html_of(source, bodies)
}

/// Renders Markdown `source` to HTML in `theme`.
pub fn render_html(source: &str, theme: Theme) -> (r: RenderOutput)
    ensures
        exists|bodies: Seq<Seq<char>>|
            #![trigger body_html_of(source@, bodies)]
            bodies_ok(body_events(source@), bodies) && r.body_html@ == body_html_of(source@, bodies)
                && r.html@ == page_html(source@, theme, bodies),
{
    let (processed, placeholders) = extract_math(source);
    let body = render_with_highlighting(processed.as_str());
    let ghost bodies = choose|b: Seq<Seq<char>>|
        bodies_ok(markdown_events(processed@), b) && body@ == #[trigger] events_html(markdown_events(processed@), b);
    let body = inject_math(body.as_str(), placeholders.as_slice());
    let body_html = inject_mermaid_wrappers(body.as_str());
    let mut page: Vec<char> = Vec::new();
    push_str(&mut page, "<style>");
    push_str(&mut page, theme.css());
    push_str(&mut page, "</style>");
    page.push('\n');
    push_str(&mut page, body_html.as_str());
    proof {
        assert(placeholders_model(placeholders@) == extracted(source@).1);
        assert(body_html@ == body_html_of(source@, bodies));
        assert(page@ =~= page_html(source@, theme, bodies));
    }
    let html = string_of(page.as_slice());
    RenderOutput { html, body_html }
}

/// What the `render` tool reports: the page, the body, and the name of the
/// theme used.
#[derive(Debug, Clone)]
pub struct RenderReport {
    pub html: String,
    pub body_html: String,
    pub theme: &'static str,
}

/// The `render` tool's work: `source` rendered in the theme its `theme`
/// argument names (the default when absent or unknown).
pub fn render_tool(source: &str, theme: Option<&str>) -> (r: RenderReport)
    ensures
        ({
            let t = theme_named(match theme {
                Some(n) => Some(n@),
                None => None,
            });
            &&& r.theme@ == theme_label(t)
            &&& exists|bodies: Seq<Seq<char>>|
                #![trigger body_html_of(source@, bodies)]
                bodies_ok(body_events(source@), bodies) && r.body_html@ == body_html_of(source@, bodies)
                    && r.html@ == page_html(source@, t, bodies)
        }),
{
    let t = parse_theme(theme);
    let out = render_html(source, t);
    RenderReport { html: out.html, body_html: out.body_html, theme: theme_name(t) }
}

/// Collecting Mermaid blocks: the blocks found so far, whether inside a
/// Mermaid block, and its text so far.
pub type MermaidScanV = (Seq<Seq<char>>, bool, Seq<char>);

/// A code block's text without the newline that ends its last line.
pub open spec fn without_final_nl(s: Seq<char>) -> Seq<char> {
    if s.len() > 0 && s.last() == '\n' {
        s.drop_last()
    } else {
        s
    }
}

/// The Mermaid scan after event `e`: a fenced block whose info string is
/// `mermaid` opens a block, its text is collected, and its end records it
/// (without the newline that ends its last line); other code blocks and
/// events are passed over.
pub open spec fn mermaid_step(st: MermaidScanV, e: MdEventV) -> MermaidScanV {
    match e.0 {
        MdEventKind::CodeStartFenced => (st.0, e.1 == MERMAID_LANG@, seq![]),
        MdEventKind::CodeStartIndented => (st.0, false, seq![]),
        MdEventKind::CodeEnd => if st.1 {
            (st.0.push(without_final_nl(st.2)), false, seq![])
        } else {
            (st.0, false, seq![])
        },
        MdEventKind::Text => if st.1 {
            (st.0, st.1, st.2 + e.1)
        } else {
            st
        },
        MdEventKind::Other => st,
    }
}

/// The Mermaid scan after `evs`, from the start.
pub open spec fn mermaid_scan(evs: Seq<MdEventV>) -> MermaidScanV
    decreases evs.len(),
{
    if evs.len() == 0 {
        (seq![], false, seq![])
    } else {
        mermaid_step(mermaid_scan(evs.drop_last()), evs.last())
    }
}

/// The sources of the Mermaid blocks among Markdown events, in order.
pub fn mermaid_sources(events: &Vec<MdEvent>) -> (r: Vec<String>)
    ensures
        crate::parser::types::strings_model(r@) == mermaid_scan(events_v(events@)).0,
{
    let ghost ev = events_v(events@);
    let mermaid = owned(MERMAID_LANG);
    let mut out: Vec<String> = Vec::new();
    let mut inside = false;
    let mut buf: Vec<char> = Vec::new();
    let mut i: usize = 0;
    while i < events.len()
        invariant
            i <= events@.len(),
            ev == events_v(events@),
            mermaid@ == MERMAID_LANG@,
            mermaid_scan(ev.take(i as int)) == (
                crate::parser::types::strings_model(out@),
                inside,
                buf@,
            ),
        decreases events.len() - i,
    {
        let e = &events[i];
        proof {
            assert(ev.take(i + 1).drop_last() =~= ev.take(i as int));
            assert(ev.take(i + 1).last() == (e.kind, e.text@, e.html@));
        }
        match e.kind {
            MdEventKind::CodeStartFenced => {
                inside = e.text == mermaid;
                buf = Vec::new();
            },
            MdEventKind::CodeStartIndented => {
                inside = false;
                buf = Vec::new();
            },
            MdEventKind::CodeEnd => {
                if inside {
                    let ghost before = out@;
                    let ghost text = buf@;
                    if buf.len() > 0 && buf[buf.len() - 1] == '\n' {
                        buf.pop();
                    }
                    assert(buf@ =~= without_final_nl(text));
                    let block = string_of(buf.as_slice());
                    out.push(block);
                    assert(crate::parser::types::strings_model(out@) =~= crate::parser::types::strings_model(
                        before,
                    ).push(block@));
                }
                inside = false;
                buf = Vec::new();
            },
            MdEventKind::Text => {
                if inside {
                    push_str(&mut buf, e.text.as_str());
                }
            },
            MdEventKind::Other => {},
        }
        i = i + 1;
    }
    assert(ev.take(i as int) =~= ev);
    out
}

/// The sources of the Mermaid diagrams in Markdown `source`, in document
/// order: the text of each fenced code block whose info string is
/// `mermaid`, without the newline that ends its last line.
pub fn mermaid_blocks(source: &str) -> (r: Vec<String>)
    ensures
        crate::parser::types::strings_model(r@) == mermaid_scan(markdown_events(source@)).0,
{
    let events = parse_markdown(source);
    mermaid_sources(&events)
}

} // verus!
