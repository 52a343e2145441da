use scrybe::terminal::blocks::{render, render_with_links};
use scrybe::terminal::table::table;
use scrybe::terminal::{Ast, Color, Node, SpanStyle, StyledSpan};
use scrybe::view::Align;

fn text(s: &str) -> Node {
    Node::Text(s.to_string())
}

fn para(children: Vec<Node>) -> Node {
    Node::Paragraph { children }
}

fn link(label: &str, href: &str) -> Node {
    Node::Link { href: href.to_string(), children: vec![text(label)] }
}

fn doc(nodes: Vec<Node>) -> Ast {
    Ast { nodes }
}

fn plain(lines: &[Vec<StyledSpan>]) -> Vec<String> {
    lines.iter().map(|l| l.iter().map(|s| s.text.as_str()).collect::<String>()).collect()
}

fn has_style(lines: &[Vec<StyledSpan>], needle: &str, pick: fn(&SpanStyle) -> bool) -> bool {
    lines.iter().flatten().any(|s| s.text.contains(needle) && pick(&s.style))
}

fn bold(s: &SpanStyle) -> bool {
    s.bold
}

fn italic(s: &SpanStyle) -> bool {
    s.italic
}

fn line_text(lines: &[Vec<StyledSpan>], i: usize) -> String {
    lines[i].iter().map(|s| s.text.as_str()).collect()
}

fn table_doc(alignments: Vec<Align>, rows: Vec<(bool, Vec<&str>)>) -> Ast {
    let rows = rows
        .into_iter()
        .map(|(header, cells)| Node::TableRow {
            header,
            cells: cells.into_iter().map(|c| Node::TableCell { children: vec![text(c)] }).collect(),
        })
        .collect();
    doc(vec![Node::Table { alignments, rows }])
}

#[test]
fn render_heading_gets_marker_and_bold() {
    let t = render(&doc(vec![Node::Heading { level: 1, children: vec![text("Title")] }]));
    let lines = plain(&t);
    assert!(lines[0].starts_with("# Title"), "got {:?}", lines[0]);
    assert!(has_style(&t, "Title", bold));
}

#[test]
fn render_strong_and_emphasis_carry_modifiers() {
    let t = render(&doc(vec![para(vec![
        text("A "),
        Node::Strong { children: vec![text("bold")] },
        text(" and "),
        Node::Emphasis { children: vec![text("italic")] },
        text(" word."),
    ])]));
    assert!(has_style(&t, "bold", bold));
    assert!(has_style(&t, "italic", italic));
}

#[test]
fn render_unordered_list_items_get_bullets() {
    let t = render(&doc(vec![Node::List {
        ordered: false,
        items: vec![
            Node::ListItem { children: vec![text("alpha")] },
            Node::ListItem { children: vec![text("beta")] },
        ],
    }]));
    let lines = plain(&t);
    assert!(lines.iter().any(|l| l.contains("• ") && l.contains("alpha")));
    assert!(lines.iter().any(|l| l.contains("• ") && l.contains("beta")));
}

#[test]
fn render_ordered_list_items_get_numbers() {
    let t = render(&doc(vec![Node::List {
        ordered: true,
        items: vec![
            Node::ListItem { children: vec![text("one")] },
            Node::ListItem { children: vec![text("two")] },
        ],
    }]));
    let lines = plain(&t);
    assert!(lines.iter().any(|l| l.contains("1.") && l.contains("one")));
    assert!(lines.iter().any(|l| l.contains("2.") && l.contains("two")));
}

#[test]
fn render_fenced_code_lines_render() {
    let t = render(&doc(vec![Node::FencedCode {
        lang: "rust".to_string(),
        content: "fn main() {}\n".to_string(),
    }]));
    let lines = plain(&t);
    assert!(lines.iter().any(|l| l.contains("rust")));
    assert!(lines.iter().any(|l| l.contains("fn main() {}")));
}

#[test]
fn render_blockquote_gets_prefix() {
    let t = render(&doc(vec![Node::BlockQuote { children: vec![para(vec![text("quoted")])] }]));
    let lines = plain(&t);
    assert!(lines.iter().any(|l| l.contains("┃ ") && l.contains("quoted")));
}

#[test]
fn render_link_shows_text_and_href() {
    let t = render(&doc(vec![para(vec![link("docs", "https://example.com")])]));
    let joined = plain(&t).join("\n");
    assert!(joined.contains("docs"));
    assert!(joined.contains("https://example.com"));
}

#[test]
fn render_with_links_finds_a_paragraph_link() {
    let (_t, links) = render_with_links(&doc(vec![para(vec![link("docs", "https://example.com")])]));
    assert_eq!(links.len(), 1);
    assert_eq!(links[0].line, 0);
    assert_eq!(links[0].text, "docs");
    assert_eq!(links[0].href, "https://example.com");
}

#[test]
fn render_with_links_no_links_is_empty() {
    let (_t, links) = render_with_links(&doc(vec![para(vec![text("just plain text")])]));
    assert!(links.is_empty());
}

#[test]
fn render_with_links_finds_link_after_a_heading() {
    let (t, links) = render_with_links(&doc(vec![
        Node::Heading { level: 1, children: vec![text("Title")] },
        para(vec![link("docs", "https://example.com")]),
    ]));
    assert_eq!(links.len(), 1);
    let lt = line_text(&t, links[0].line);
    assert!(lt.contains("docs"), "link.line must point at the actual link line, got {lt:?}");
}

#[test]
fn render_with_links_finds_link_inside_a_list_item() {
    let (t, links) = render_with_links(&doc(vec![Node::List {
        ordered: false,
        items: vec![Node::ListItem {
            children: vec![text("see "), link("docs", "https://example.com"), text(" for more")],
        }],
    }]));
    assert_eq!(links.len(), 1);
    assert_eq!(links[0].href, "https://example.com");
    let lt = line_text(&t, links[0].line);
    assert!(lt.starts_with(" • "), "got {lt:?}");
    assert!(lt.contains("docs"));
}

#[test]
fn render_with_links_finds_link_inside_a_blockquote() {
    let (t, links) = render_with_links(&doc(vec![Node::BlockQuote {
        children: vec![para(vec![text("see "), link("docs", "https://example.com")])],
    }]));
    assert_eq!(links.len(), 1);
    let lt = line_text(&t, links[0].line);
    assert!(lt.starts_with("┃ "), "got {lt:?}");
}

#[test]
fn render_with_links_two_links_same_line_both_found_in_order() {
    let (_t, links) = render_with_links(&doc(vec![para(vec![
        link("first", "https://a.example"),
        text(" and "),
        link("second", "https://b.example"),
    ])]));
    assert_eq!(links.len(), 2);
    assert_eq!(links[0].text, "first");
    assert_eq!(links[0].href, "https://a.example");
    assert_eq!(links[1].text, "second");
    assert_eq!(links[1].href, "https://b.example");
}

#[test]
fn render_soft_break_becomes_space_hard_break_splits() {
    let soft = plain(&render(&doc(vec![para(vec![text("one"), Node::SoftBreak, text("two")])])));
    assert_eq!(soft[0], "one two");
    let hard = plain(&render(&doc(vec![para(vec![text("one"), Node::HardBreak, text("two")])])));
    assert!(hard.iter().any(|l| l == "one"));
    assert!(hard.iter().any(|l| l == "two"));
}

#[test]
fn render_no_trailing_blank_lines() {
    let t = render(&doc(vec![
        Node::Heading { level: 1, children: vec![text("Title")] },
        para(vec![text("Body.")]),
    ]));
    assert!(!t.last().unwrap().is_empty());
}

#[test]
fn image_label_uses_alt_text_not_title() {
    let joined = plain(&render(&doc(vec![para(vec![Node::Image {
        alt: "diagram".to_string(),
        title: "Architecture".to_string(),
    }])])))
    .join("\n");
    assert!(joined.contains("🖼 diagram"), "got {joined:?}");
    assert!(!joined.contains("Architecture"), "got {joined:?}");
}

#[test]
fn unknown_lang_renders_plain_green() {
    let t = render(&doc(vec![Node::FencedCode {
        lang: "zz-not-a-lang".to_string(),
        content: "plain text here\n".to_string(),
    }]));
    let line = t
        .iter()
        .find(|l| l.iter().any(|s| s.text.contains("plain text here")))
        .expect("code line rendered");
    assert_eq!(line.len(), 2, "got {:?}", line);
    assert_eq!(line[0].text.as_str(), "  │ ");
    assert_eq!(line[0].style.fg, Some(Color::DarkGray));
    assert_eq!(line[1].text.as_str(), "plain text here");
    assert_eq!(line[1].style.fg, Some(Color::Green));
}

#[test]
fn empty_fence_is_safe() {
    let t = render(&doc(vec![Node::FencedCode { lang: "rust".to_string(), content: String::new() }]));
    assert!(plain(&t).join("\n").contains("rust"));
    let t = render(&doc(vec![Node::FencedCode { lang: String::new(), content: String::new() }]));
    assert!(!t.is_empty());
}

#[test]
fn rust_fence_stays_plain_without_highlight_feature() {
    let t = render(&doc(vec![Node::FencedCode {
        lang: "rust".to_string(),
        content: "fn main() {}\n".to_string(),
    }]));
    let line = t
        .iter()
        .find(|l| l.iter().any(|s| s.text.contains("fn main")))
        .expect("code line rendered");
    assert_eq!(line.len(), 2, "got {:?}", line);
    assert_eq!(line[1].style.fg, Some(Color::Green));
}

#[test]
fn table_renders_as_a_grid_not_flat_cells() {
    let lines = plain(&render(&table_doc(
        vec![Align::Unset, Align::Unset],
        vec![(true, vec!["Key", "Status"]), (false, vec!["SCM-1", "Open"]), (false, vec!["SCM-2", "Done"])],
    )));
    let joined = lines.join("\n");
    assert!(joined.contains('┌') && joined.contains('┐'));
    assert!(joined.contains('└') && joined.contains('┘'));
    assert!(joined.contains("Key") && joined.contains("Status"));
    assert!(joined.contains("SCM-1") && joined.contains("Open"));
    assert!(joined.contains("SCM-2") && joined.contains("Done"));
    assert!(lines.iter().any(|l| l.contains('┼')));
    assert!(!lines.iter().any(|l| l.trim() == "Key"));
}

#[test]
fn table_header_row_is_bold() {
    let t = render(&table_doc(vec![Align::Unset], vec![(true, vec!["Key"]), (false, vec!["val"])]));
    assert!(has_style(&t, "Key", bold));
    assert!(!has_style(&t, "val", bold));
}

#[test]
fn table_column_alignment_is_honored() {
    let lines = plain(&render(&table_doc(
        vec![Align::Left, Align::Center, Align::Right],
        vec![(true, vec!["L", "C", "R"]), (false, vec!["a", "b", "c"])],
    )));
    let row = lines.iter().find(|l| l.contains(" a ") || l.contains("a ")).expect("body row rendered");
    assert!(row.contains('a') && row.contains('b') && row.contains('c'));
}

#[test]
fn wide_table_cell_is_truncated_not_unbounded() {
    let long = "x".repeat(200);
    let lines = plain(&render(&table_doc(vec![Align::Unset], vec![(true, vec!["Key"]), (false, vec![&long])])));
    assert!(
        lines.iter().all(|l| l.chars().count() < 100),
        "a 200-char cell must be truncated, got line lengths: {:?}",
        lines.iter().map(|l| l.chars().count()).collect::<Vec<_>>()
    );
    assert!(lines.iter().any(|l| l.contains('…')));
}

#[test]
fn empty_table_body_is_safe() {
    let t = render(&table_doc(vec![Align::Unset], vec![(true, vec!["Key"])]));
    assert!(!t.is_empty());
}

#[test]
fn tight_list_item_with_a_link_stays_on_one_line() {
    let lines = plain(&render(&doc(vec![Node::List {
        ordered: false,
        items: vec![Node::ListItem {
            children: vec![text("see "), link("docs", "https://example.com"), text(" for more")],
        }],
    }])));
    let item_lines: Vec<&String> = lines.iter().filter(|l| !l.is_empty()).collect();
    assert_eq!(item_lines.len(), 1, "tight list item must render as one line, got {lines:?}");
    assert_eq!(item_lines[0].as_str(), " • see docs (https://example.com) for more");
}

#[test]
fn tight_list_item_with_bold_and_link_stays_on_one_line() {
    let lines = plain(&render(&doc(vec![Node::List {
        ordered: false,
        items: vec![Node::ListItem {
            children: vec![
                Node::Strong { children: vec![text("bold")] },
                text(" then "),
                link("a link", "https://x.example"),
                text(" done"),
            ],
        }],
    }])));
    let item_lines: Vec<&String> = lines.iter().filter(|l| !l.is_empty()).collect();
    assert_eq!(item_lines.len(), 1, "got {lines:?}");
}

#[test]
fn table_survives_real_dashboard_fixture() {
    let lines = plain(&render(&table_doc(
        vec![Align::Unset, Align::Unset, Align::Unset, Align::Unset],
        vec![
            (true, vec!["Key", "Summary", "Assignee", "Status"]),
            (false, vec!["SCM-4726", "E.1.1 Shadow-vs-Production Comparison Harness", "Mahesh", "Vetting"]),
            (false, vec!["SCM-4723", "E.4 Ring Cut-over — Pilot Ring", "Shawn", "New"]),
        ],
    )));
    assert!(lines.iter().any(|l| l.contains('┌')));
    assert!(!lines.iter().any(|l| l.trim() == "Key"));
    assert!(!lines.iter().any(|l| l.trim() == "Mahesh"));
    let joined = lines.join("\n");
    assert!(joined.contains("SCM-4726") && joined.contains("Mahesh"));
}

#[test]
fn image_label_falls_back_to_title_then_placeholder() {
    let titled = plain(&render(&doc(vec![para(vec![Node::Image {
        alt: String::new(),
        title: "Decoration".to_string(),
    }])])))
    .join("\n");
    assert!(titled.contains("🖼 Decoration"), "got {titled:?}");
    let bare = plain(&render(&doc(vec![para(vec![Node::Image { alt: String::new(), title: String::new() }])])))
        .join("\n");
    assert!(bare.contains("🖼 image"), "got {bare:?}");
}

// ── Exact renderings ──────────────────────────────────────────────────────

#[test]
fn heading_levels_get_their_styles_and_a_blank_line_between_blocks() {
    let t = render(&doc(vec![
        Node::Heading { level: 3, children: vec![text("Three")] },
        Node::HorizontalRule,
    ]));
    assert_eq!(plain(&t), vec!["### Three".to_string(), String::new(), "─".repeat(60)]);
    assert_eq!(t[0][0].style.fg, Some(Color::DarkGray));
    assert_eq!(t[0][1].style, SpanStyle { fg: Some(Color::Blue), bold: true, italic: false, underlined: false, dim: false });
    let deep = render(&doc(vec![Node::Heading { level: 5, children: vec![text("Five")] }]));
    assert!(deep[0][1].style.dim);
}

#[test]
fn ordered_markers_are_right_aligned_to_two_columns() {
    let items = (0..10).map(|i| Node::ListItem { children: vec![text(&format!("item {i}"))] }).collect();
    let lines = plain(&render(&doc(vec![Node::List { ordered: true, items }])));
    assert_eq!(lines[0], " 1. item 0");
    assert_eq!(lines[9], "10. item 9");
}

#[test]
fn continuation_lines_of_an_item_are_indented() {
    let lines = plain(&render(&doc(vec![Node::List {
        ordered: false,
        items: vec![Node::ListItem { children: vec![para(vec![text("first")]), para(vec![text("second")])] }],
    }])));
    assert_eq!(lines, vec![" • first".to_string(), "   ".to_string(), "   second".to_string()]);
}

#[test]
fn link_text_style_and_target_span() {
    let t = render(&doc(vec![para(vec![link("docs", "u")])]));
    assert_eq!(t[0].len(), 2);
    assert_eq!(t[0][0].text, "docs");
    assert!(t[0][0].style.underlined);
    assert_eq!(t[0][0].style.fg, Some(Color::Blue));
    assert_eq!(t[0][1].text, " (u)");
    assert_eq!(t[0][1].style.fg, Some(Color::DarkGray));
}

#[test]
fn link_without_visible_text_is_not_recorded() {
    let (_t, links) = render_with_links(&doc(vec![para(vec![Node::Link {
        href: "https://x".to_string(),
        children: vec![],
    }])]));
    assert!(links.is_empty());
}

#[test]
fn table_grid_is_exact() {
    let lines = plain(&table(
        &vec![Align::Unset, Align::Right],
        &vec![
            Node::TableRow {
                header: true,
                cells: vec![Node::TableCell { children: vec![text("K")] }, Node::TableCell { children: vec![text("Val")] }],
            },
            Node::TableRow { header: false, cells: vec![Node::TableCell { children: vec![text("ab")] }] },
        ],
    ));
    assert_eq!(
        lines,
        vec![
            "┌────┬─────┐".to_string(),
            "│ K  │ Val │".to_string(),
            "├────┼─────┤".to_string(),
            "│ ab │     │".to_string(),
            "└────┴─────┘".to_string(),
        ]
    );
}

#[test]
fn table_without_rows_draws_nothing() {
    assert!(table(&vec![Align::Left], &vec![]).is_empty());
}

#[test]
fn wide_cell_is_cut_to_thirty_columns() {
    let long = "y".repeat(40);
    let lines = plain(&table(
        &vec![],
        &vec![Node::TableRow { header: false, cells: vec![Node::TableCell { children: vec![text(&long)] }] }],
    ));
    assert_eq!(lines[1], format!("│ {}… │", "y".repeat(29)));
}

#[test]
fn inline_code_and_html_colors() {
    let t = render(&doc(vec![para(vec![
        Node::InlineCode { content: "x".to_string() },
        Node::Html("<br>".to_string()),
    ])]));
    assert_eq!(t[0][0].style.fg, Some(Color::LightYellow));
    assert_eq!(t[0][1].style.fg, Some(Color::DarkGray));
}
