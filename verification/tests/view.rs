use ratatui::style::{Style, Stylize};
use ratatui::text::{Line, Span, Text};
use ratatui::buffer::Buffer;
use ratatui::layout::Rect;
use ratatui::widgets::{Block, Borders, Paragraph, Widget, Wrap};
use scrybe::terminal::Node;
use scrybe::tui_view;
use scrybe::view::{
    is_wrap_whitespace, pad, truncate, wrapped_height, wrapped_segments, Align, MarkdownViewState,
    NBSP, ZWSP,
};

fn state(lines: usize, viewport: u16) -> MarkdownViewState {
    let mut s = MarkdownViewState::new(lines);
    s.sync_layout(viewport, lines);
    s
}

fn tui_state(lines: usize, viewport: u16) -> tui_view::MarkdownViewState {
    let mut s = tui_view::MarkdownViewState::new(lines);
    s.sync_viewport(viewport);
    s
}

fn line(s: &str) -> Vec<String> {
    vec![s.to_string()]
}

fn text(s: &str) -> Vec<Vec<String>> {
    s.split('\n').map(line).collect()
}

// ── Scroll state (both viewers share these scenarios) ──────────────────────

#[test]
fn view_scroll_clamps_within_bounds() {
    let mut s = state(20, 5);
    s.scroll_by(100);
    assert_eq!(s.scroll(), 15);
    s.scroll_by(-100);
    assert_eq!(s.scroll(), 0);

    let mut t = tui_state(20, 5);
    t.scroll_by(100);
    assert_eq!(t.scroll(), 15);
    t.scroll_by(-100);
    assert_eq!(t.scroll(), 0);
}

#[test]
fn view_top_bottom_and_pages() {
    let mut s = state(100, 10);
    s.scroll_to_bottom();
    assert_eq!(s.scroll(), 90);
    s.scroll_to_top();
    assert_eq!(s.scroll(), 0);
    s.half_page(true);
    assert_eq!(s.scroll(), 5);
    s.page(true);
    assert_eq!(s.scroll(), 5 + 9);
    s.page(false);
    assert_eq!(s.scroll(), 5);

    let mut t = tui_state(100, 10);
    t.scroll_to_bottom();
    assert_eq!(t.scroll(), 90);
    t.scroll_to_top();
    assert_eq!(t.scroll(), 0);
    t.half_page(true);
    assert_eq!(t.scroll(), 5);
    t.page(true);
    assert_eq!(t.scroll(), 5 + 9);
    t.page(false);
    assert_eq!(t.scroll(), 5);
}

#[test]
fn view_percent_reports_progress() {
    let mut s = state(20, 5);
    assert_eq!(s.percent(), 0);
    s.scroll_to_bottom();
    assert_eq!(s.percent(), 100);

    let mut t = tui_state(20, 5);
    assert_eq!(t.percent(), 0);
    t.scroll_to_bottom();
    assert_eq!(t.percent(), 100);
}

#[test]
fn view_fits_when_content_shorter_than_viewport() {
    let s = state(3, 10);
    assert!(s.fits());
    assert_eq!(s.percent(), 0);
    assert_eq!(s.max_scroll(), 0);
    assert!(!state(50, 10).fits());

    let t = tui_state(3, 10);
    assert!(t.fits());
    assert_eq!(t.percent(), 0);
    assert_eq!(t.max_scroll(), 0);
    assert!(!tui_state(50, 10).fits());
}

#[test]
fn view_set_line_count_reclamps_scroll() {
    let mut s = state(100, 10);
    s.scroll_to_bottom();
    s.set_line_count(20);
    assert_eq!(s.scroll(), 10);

    let mut t = tui_state(100, 10);
    t.scroll_to_bottom();
    t.set_line_count(20);
    assert_eq!(t.scroll(), 10);
}

#[test]
fn huge_documents_cap_at_the_u16_range() {
    let s = state(70_000, 10);
    assert_eq!(s.max_scroll(), 65535 - 10);
    let t = tui_state(70_000, 10);
    assert_eq!(t.max_scroll(), 65535 - 10);
    let u = tui_view::MarkdownViewState::new(65536);
    assert_eq!(u.max_scroll(), 65534);
    assert!(!u.fits());
}

#[test]
fn scroll_by_clamps_for_every_delta() {
    let mut s = state(100, 10);
    s.scroll_by(1);
    s.scroll_by(i32::MAX);
    assert_eq!(s.scroll(), 90);
    s.scroll_by(i32::MIN);
    assert_eq!(s.scroll(), 0);
    let mut t = tui_state(100, 10);
    t.scroll_by(1);
    t.scroll_by(i32::MAX);
    assert_eq!(t.scroll(), 90);
}

#[test]
fn zero_height_viewport_counts_as_one_row() {
    let mut s = MarkdownViewState::new(5);
    s.sync_layout(0, 5);
    assert_eq!(s.max_scroll(), 4);
    let mut d = MarkdownViewState::default();
    assert_eq!(d.scroll(), 0);
    d.scroll_by(3);
    assert_eq!(d.scroll(), 0);
}

#[test]
fn resize_reclamps_the_offset() {
    let mut s = state(3, 2);
    s.scroll_to_bottom();
    assert_eq!(s.scroll(), 1);
    s.sync_layout(2, 1);
    assert_eq!(s.scroll(), 0);
}

// ── Wrapping ───────────────────────────────────────────────────────────────

#[test]
fn whitespace_predicate_matches_ratatui() {
    assert!(is_wrap_whitespace(" "));
    assert!(is_wrap_whitespace("\t"));
    assert!(is_wrap_whitespace(ZWSP));
    assert!(!is_wrap_whitespace(NBSP));
    assert!(!is_wrap_whitespace("a"));
}

#[test]
fn long_unbroken_line_breaks_at_the_wrap_width() {
    let t = text(&"a".repeat(25));
    assert_eq!(wrapped_height(&t, 10), 3);
    assert_eq!(wrapped_height(&t, 25), 1);
    assert_eq!(wrapped_height(&t, 24), 2);
}

#[test]
fn exactly_viewport_width_line_takes_one_row() {
    let t = text(&"a".repeat(10));
    assert_eq!(wrapped_height(&t, 10), 1);
    assert_eq!(wrapped_height(&t, 9), 2);
}

#[test]
fn empty_lines_take_one_row_each() {
    assert_eq!(wrapped_height(&text(""), 10), 1);
    assert_eq!(wrapped_height(&text("a\n\nb"), 10), 3);
    assert_eq!(wrapped_height(&[], 10), 0);
}

#[test]
fn words_wrap_at_word_boundaries() {
    let t = text("hello world");
    assert_eq!(wrapped_height(&t, 11), 1);
    assert_eq!(wrapped_height(&t, 5), 2);
    assert_eq!(wrapped_height(&t, 10), 2);
}

#[test]
fn multi_span_styled_lines_wrap_as_one_stream() {
    // Span boundaries are invisible to wrapping: the graphemes flow as one
    // stream.
    let styled = vec![vec!["hello ".to_string(), "world".to_string()]];
    let plain = text("hello world");
    for width in 1..=20u16 {
        assert_eq!(
            wrapped_height(&styled, width),
            wrapped_height(&plain, width),
            "styled vs plain diverged at width {width}"
        );
        assert_eq!(wrapped_segments(&styled[0], width), wrapped_segments(&plain[0], width));
    }
}

/// The span texts of each line of `t`.
fn span_texts(t: &ratatui::text::Text) -> Vec<Vec<String>> {
    t.lines.iter().map(|l| l.spans.iter().map(|s| s.content.to_string()).collect()).collect()
}

/// Rendered lines as ratatui text (styles do not matter to wrapping).
fn as_text(lines: &[Vec<scrybe::terminal::StyledSpan>]) -> ratatui::text::Text<'static> {
    ratatui::text::Text::from(
        lines
            .iter()
            .map(|l| ratatui::text::Line::from(l.iter().map(|s| ratatui::text::Span::raw(s.text.clone())).collect::<Vec<_>>()))
            .collect::<Vec<_>>(),
    )
}

/// The document `# Heading`, a paragraph with bold, code and a very long
/// unbroken word, and a two-item list.
fn rendered_document() -> ratatui::text::Text<'static> {
    let t = |s: &str| Node::Text(s.to_string());
    let ast = scrybe::terminal::Ast {
        nodes: vec![
            Node::Heading { level: 1, children: vec![t("Heading")] },
            Node::Paragraph {
                children: vec![
                    t("A paragraph with "),
                    Node::Strong { children: vec![t("bold")] },
                    t(", "),
                    Node::InlineCode { content: "code".to_string() },
                    t(", and a very long unbroken word aaaaaaaaaaaaaaaaaaaaaaaaaaaaaaaaaaaa"),
                ],
            },
            Node::List {
                ordered: false,
                items: vec![
                    Node::ListItem { children: vec![t("list item one")] },
                    Node::ListItem { children: vec![t("list item two")] },
                ],
            },
        ],
    };
    as_text(&scrybe::terminal::blocks::render(&ast))
}

/// `wrapped_height` agrees with ratatui's own wrapped-row count
/// (`Paragraph::line_count`) across tricky content and every width 0..=40.
#[test]
fn wrapped_height_matches_paragraph_line_count_oracle() {
    let corpus: Vec<Text> = vec![
        Text::from(""),
        Text::from(" "),
        Text::from("   \t  "),
        Text::from("hello world"),
        Text::from("a".repeat(25)),
        Text::from("a".repeat(200)),
        Text::from(format!("aaa{ZWSP}bbb")),
        Text::from(format!("aaa{NBSP}bbb")),
        Text::from("你好世界 hello 世界"),
        Text::from("😀😀😀 emoji wrap 😀"),
        Text::from("word  double  spaces   and trailing   "),
        Text::from("multi\nline\n\ntext with several words and runs"),
        Text::from(Line::from(vec![
            Span::raw("styled "),
            Span::styled("multi", Style::new().bold()),
            Span::styled("-span line with 你好 and 😀", Style::new().italic()),
        ])),
        rendered_document(),
    ];
    for t in &corpus {
        for width in 0..=40u16 {
            let oracle = Paragraph::new(t.clone()).wrap(Wrap { trim: false }).line_count(width);
            assert_eq!(
                wrapped_height(&span_texts(t), width),
                oracle,
                "diverged from Paragraph::line_count at width {width} for {t:?}"
            );
        }
    }
}

#[test]
fn wide_graphemes_wrap_by_display_width() {
    let cjk = text("你好世界");
    assert_eq!(wrapped_height(&cjk, 8), 1);
    assert_eq!(wrapped_height(&cjk, 4), 2);
    assert_eq!(wrapped_height(&cjk, 2), 4);
    let emoji = text("😀😀😀");
    assert_eq!(wrapped_height(&emoji, 6), 1);
    assert_eq!(wrapped_height(&emoji, 4), 2);
}

#[test]
fn zero_width_viewport_renders_nothing() {
    assert_eq!(wrapped_height(&text("anything"), 0), 0);
}

#[test]
fn top_long_end_takes_six_rows_at_width_ten() {
    let t = text(&format!("top\n{}\nend", "b".repeat(35)));
    assert_eq!(wrapped_height(&t, 10), 6);
}

// ── Table cells ────────────────────────────────────────────────────────────

#[test]
fn truncate_keeps_fitting_text_and_marks_cuts() {
    assert_eq!(truncate("short", 10), "short");
    assert_eq!(truncate("exactly", 7), "exactly");
    assert_eq!(truncate("abcdefghij", 5), "abcd…");
    assert_eq!(truncate("abc", 0), "");
    assert_eq!(truncate("你好世界", 5), "你好…");
}

#[test]
fn pad_aligns_within_the_column() {
    assert_eq!(pad("ab", 5, Align::Left), "ab   ");
    assert_eq!(pad("ab", 5, Align::Unset), "ab   ");
    assert_eq!(pad("ab", 5, Align::Right), "   ab");
    assert_eq!(pad("ab", 5, Align::Center), " ab  ");
    assert_eq!(pad("abcdef", 3, Align::Right), "abcdef");
}

/// Draws `text` into `area` of `buf` as the viewer does: the state learns
/// the viewport and the wrapped height, then the text is drawn word-wrapped
/// from the state's offset.
fn draw_view(text: &Text, st: &mut MarkdownViewState, area: Rect, buf: &mut Buffer) {
    st.sync_layout(area.height, wrapped_height(&span_texts(text), area.width));
    Paragraph::new(text.clone()).wrap(Wrap { trim: false }).scroll((st.scroll(), 0)).render(area, buf);
}

/// Renders `text` into a fresh `width`×`height` buffer and returns its rows.
fn render_rows(text: &Text, st: &mut MarkdownViewState, width: u16, height: u16) -> Vec<String> {
    let area = Rect::new(0, 0, width, height);
    let mut buf = Buffer::empty(area);
    draw_view(text, st, area, &mut buf);
    (0..height)
        .map(|y| (0..width).map(|x| buf[(x, y)].symbol()).collect::<String>().trim_end().to_string())
        .collect()
}

#[test]
fn regression_163_long_line_pages_to_its_true_end() {
    let text = Text::from("a".repeat(25));
    let mut st = MarkdownViewState::new(text.lines.len());
    let rows = render_rows(&text, &mut st, 10, 2);
    assert_eq!(rows, vec!["aaaaaaaaaa", "aaaaaaaaaa"]);
    assert_eq!(st.max_scroll(), 1, "clamp must use the wrapped height");
    assert!(!st.fits());
    st.scroll_to_bottom();
    let rows = render_rows(&text, &mut st, 10, 2);
    assert_eq!(st.scroll(), 1);
    assert_eq!(rows, vec!["aaaaaaaaaa", "aaaaa"]);
}

#[test]
fn jump_to_end_lands_last_visual_row_on_the_bottom_row() {
    let text = Text::from(format!("top\n{}\nend", "b".repeat(35)));
    let width = 10u16;
    let mut st = MarkdownViewState::new(text.lines.len());
    let _ = render_rows(&text, &mut st, width, 3);
    assert_eq!(wrapped_height(&span_texts(&text), width), 6);
    assert_eq!(st.max_scroll(), 3);
    st.scroll_to_bottom();
    let rows = render_rows(&text, &mut st, width, 3);
    assert_eq!(rows, vec!["bbbbbbbbbb", "bbbbb", "end"]);
}

#[test]
fn resize_reclamps_so_the_view_never_overscrolls() {
    let text = Text::from("a".repeat(25));
    let mut st = MarkdownViewState::new(text.lines.len());
    let _ = render_rows(&text, &mut st, 10, 2);
    st.scroll_to_bottom();
    assert_eq!(st.scroll(), 1);
    let rows = render_rows(&text, &mut st, 30, 2);
    assert_eq!(st.scroll(), 0, "wider resize must re-clamp the offset");
    assert_eq!(rows[0], "a".repeat(25));
    st.scroll_to_bottom();
    assert_eq!(st.scroll(), 0, "estimate from last width until re-render");
    let _ = render_rows(&text, &mut st, 5, 2);
    st.scroll_to_bottom();
    let rows = render_rows(&text, &mut st, 5, 2);
    assert_eq!(st.scroll(), 3);
    assert_eq!(rows, vec!["aaaaa", "aaaaa"]);
}

#[test]
fn block_frame_wraps_to_the_inner_width() {
    let text = Text::from("a".repeat(25));
    let mut st = MarkdownViewState::new(text.lines.len());
    let area = Rect::new(0, 0, 12, 4);
    let mut buf = Buffer::empty(area);
    let block = Block::default().borders(Borders::ALL);
    let inner = block.inner(area);
    block.render(area, &mut buf);
    draw_view(&text, &mut st, inner, &mut buf);
    assert_eq!(st.max_scroll(), 1);
}

#[test]
fn view_widget_renders_text_into_a_buffer() {
    let ast = scrybe::terminal::Ast {
        nodes: vec![
            Node::Heading { level: 1, children: vec![Node::Text("Hi".to_string())] },
            Node::Paragraph { children: vec![Node::Text("body text".to_string())] },
        ],
    };
    let text = as_text(&scrybe::terminal::blocks::render(&ast));
    let mut st = MarkdownViewState::new(text.lines.len());
    let area = Rect::new(0, 0, 30, 6);
    let mut buf = Buffer::empty(area);
    draw_view(&text, &mut st, area, &mut buf);
    let mut screen = String::new();
    for y in 0..area.height {
        for x in 0..area.width {
            screen.push_str(buf[(x, y)].symbol());
        }
        screen.push('\n');
    }
    assert!(screen.contains("Hi"), "heading missing:\n{screen}");
    assert!(screen.contains("body text"), "body missing:\n{screen}");
    assert_eq!(wrapped_height(&span_texts(&text), 30), text.lines.len());
    assert_eq!(st.max_scroll(), (text.lines.len() as u16).saturating_sub(6));
}

#[test]
fn scrolling_back_and_paging_back_return_to_the_start() {
    let mut s = state(100, 10);
    s.scroll_by(30);
    s.scroll_by(7);
    s.scroll_by(-7);
    assert_eq!(s.scroll(), 30);
    s.page(true);
    assert_eq!(s.scroll(), 39);
    s.page(false);
    assert_eq!(s.scroll(), 30);
    // Stopped at the bottom, a page up does not come back.
    s.scroll_to_bottom();
    s.scroll_by(-3);
    s.page(true);
    assert_eq!(s.scroll(), 90);
    s.page(false);
    assert_eq!(s.scroll(), 81);
}

#[test]
fn unbroken_runs_take_ceiling_rows_and_every_line_takes_one() {
    for n in 1..40usize {
        for w in 1..12u16 {
            let rows = wrapped_segments(&["x".repeat(n)], w);
            assert_eq!(rows, (n + w as usize - 1) / w as usize, "n={n} w={w}");
        }
    }
    assert_eq!(wrapped_height(&text("\n\n"), 5), 3);
}
