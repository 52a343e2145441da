use scrybe::terminal::blocks::render_with_links;
use scrybe::terminal::{Ast, Color, Node, StyledSpan};
use scrybe::view::{LinkSpan, MarkdownViewState};
use scrybe::viewer::{key_action, rect_contains, Action, Cell, Key, Orientation, Rect, Viewer};

fn text(s: &str) -> Node {
    Node::Text(s.to_string())
}

fn link(label: &str, href: &str) -> Node {
    Node::Link { href: href.to_string(), children: vec![text(label)] }
}

/// Draws the first rendered line into a row of `width` cells starting at
/// column `x0`, one cell per character, the way a terminal shows it.
fn draw_row(line: &[StyledSpan], x0: usize, width: usize) -> Vec<Cell> {
    let mut cells: Vec<Cell> = (0..x0 + width).map(|_| Cell { symbol: " ".to_string(), link_style: false }).collect();
    let mut x = x0;
    for span in line {
        let styled = span.style.fg == Some(Color::Blue) && span.style.underlined;
        for c in span.text.chars() {
            if x < x0 + width {
                cells[x] = Cell { symbol: c.to_string(), link_style: styled };
            }
            x += 1;
        }
    }
    cells
}

fn one_pane(nodes: Vec<Node>, width: u16) -> (Viewer, Vec<Cell>) {
    let (lines, links) = render_with_links(&Ast { nodes });
    let state = MarkdownViewState::new(lines.len());
    let mut v = Viewer::new(vec![state], vec![links]);
    let area = Rect { x: 1, y: 1, width, height: 8 };
    v.set_area(0, area);
    let row = draw_row(&lines[0], 1, width as usize);
    (v, row)
}

#[test]
fn click_on_rendered_link_resolves_its_href() {
    let (v, row) = one_pane(vec![Node::Paragraph { children: vec![link("docs", "https://example.com")] }], 38);
    let col = row.iter().position(|c| c.link_style).expect("link cell rendered") as u16;
    assert_eq!(v.resolve_link_at(&row, col, 1), Some("https://example.com".to_string()));
}

#[test]
fn click_on_plain_text_resolves_to_none() {
    let (v, row) = one_pane(vec![Node::Paragraph { children: vec![text("plain text, no links here")] }], 38);
    assert_eq!(v.resolve_link_at(&row, 1, 1), None);
}

#[test]
fn click_outside_any_pane_resolves_to_none() {
    let (v, row) = one_pane(vec![Node::Paragraph { children: vec![link("docs", "https://example.com")] }], 38);
    assert_eq!(v.resolve_link_at(&row, 0, 9), None);
}

#[test]
fn two_links_with_identical_text_both_resolve_to_the_first_in_document_order() {
    let (v, row) = one_pane(
        vec![Node::Paragraph {
            children: vec![link("dup", "https://first.example"), text(" and "), link("dup", "https://second.example")],
        }],
        78,
    );
    let link_cols: Vec<u16> = (0..row.len()).filter(|&x| row[x].link_style).map(|x| x as u16).collect();
    let first = link_cols[0];
    let second = *link_cols.iter().find(|&&x| x > first + 3).expect("second link run present");
    assert_eq!(v.resolve_link_at(&row, first, 1), Some("https://first.example".to_string()));
    assert_eq!(
        v.resolve_link_at(&row, second, 1),
        Some("https://first.example".to_string()),
        "known limitation: text-matching can't disambiguate identical link text"
    );
}

#[test]
fn j_scrolls_down_q_quits() {
    let mut v = Viewer::new(vec![MarkdownViewState::new(20)], vec![vec![]]);
    let before = v.state(0).scroll();
    v.on_key(Key::Char('j'), false);
    assert!(v.state(0).scroll() >= before);
    v.on_key(Key::Char('q'), false);
    assert!(v.quit_requested());
}

#[test]
fn tab_cycles_focus_and_o_toggles_orientation() {
    let mut v = Viewer::new(vec![MarkdownViewState::new(1), MarkdownViewState::new(1)], vec![vec![], vec![]]);
    assert_eq!(v.focus(), 0);
    v.on_key(Key::Tab, false);
    assert_eq!(v.focus(), 1);
    v.on_key(Key::Tab, false);
    assert_eq!(v.focus(), 0);
    let before = v.orientation();
    v.on_key(Key::Char('o'), false);
    assert_ne!(v.orientation(), before);
}

#[test]
fn scroll_keys_target_the_focused_pane() {
    let mut v = Viewer::new(vec![MarkdownViewState::new(50), MarkdownViewState::new(50)], vec![vec![], vec![]]);
    v.on_key(Key::Tab, false);
    v.on_key(Key::Char('G'), false);
    assert_eq!(v.state(0).scroll(), 0, "unfocused pane must not move");
    assert!(v.state(1).scroll() > 0, "focused pane scrolled");
}

#[test]
fn back_tab_wraps_to_the_last_pane_and_tab_undoes_it() {
    let mut v = Viewer::new(
        vec![MarkdownViewState::new(1), MarkdownViewState::new(1), MarkdownViewState::new(1)],
        vec![vec![], vec![], vec![]],
    );
    v.on_key(Key::BackTab, false);
    assert_eq!(v.focus(), 2);
    v.on_key(Key::Tab, false);
    assert_eq!(v.focus(), 0);
}

#[test]
fn an_empty_viewer_gets_one_empty_pane() {
    let v = Viewer::new(vec![], vec![]);
    assert_eq!(v.pane_count(), 1);
    assert_eq!(v.orientation(), Orientation::Horizontal);
    assert!(!v.quit_requested());
}

#[test]
fn key_bindings() {
    assert_eq!(key_action(Key::Esc, false), Action::Quit);
    assert_eq!(key_action(Key::Char('c'), true), Action::Quit);
    assert_eq!(key_action(Key::Char('c'), false), Action::Nothing);
    assert_eq!(key_action(Key::Char('d'), true), Action::HalfPage(true));
    assert_eq!(key_action(Key::Char('d'), false), Action::Nothing);
    assert_eq!(key_action(Key::Char('u'), true), Action::HalfPage(false));
    assert_eq!(key_action(Key::Char(' '), false), Action::Page(true));
    assert_eq!(key_action(Key::PageUp, false), Action::Page(false));
    assert_eq!(key_action(Key::Up, false), Action::ScrollBy(-1));
    assert_eq!(key_action(Key::Home, false), Action::Top);
    assert_eq!(key_action(Key::End, false), Action::Bottom);
    assert_eq!(key_action(Key::Other, true), Action::Nothing);
}

#[test]
fn ctrl_d_scrolls_half_a_page() {
    let mut v = Viewer::new(vec![MarkdownViewState::new(100)], vec![vec![]]);
    v.sync_pane(0, 10, 100);
    v.on_key(Key::Char('d'), true);
    assert_eq!(v.state(0).scroll(), 5);
    v.on_key(Key::PageDown, false);
    assert_eq!(v.state(0).scroll(), 14);
    v.on_key(Key::End, false);
    assert_eq!(v.state(0).scroll(), 90);
    v.on_key(Key::Char('g'), false);
    assert_eq!(v.state(0).scroll(), 0);
}

#[test]
fn rect_contains_is_half_open() {
    let r = Rect { x: 2, y: 3, width: 4, height: 2 };
    assert!(rect_contains(r, 2, 3));
    assert!(rect_contains(r, 5, 4));
    assert!(!rect_contains(r, 6, 4));
    assert!(!rect_contains(r, 5, 5));
    assert!(!rect_contains(r, 1, 3));
}

#[test]
fn click_run_is_trimmed_and_bounded_by_the_pane() {
    let mut v = Viewer::new(
        vec![MarkdownViewState::new(1)],
        vec![vec![LinkSpan { line: 0, text: "ab".to_string(), href: "h".to_string() }]],
    );
    v.set_area(0, Rect { x: 1, y: 0, width: 3, height: 1 });
    let cell = |s: &str, l: bool| Cell { symbol: s.to_string(), link_style: l };
    // The styled run continues left of the pane; only the pane's part counts.
    let row = vec![cell("z", true), cell(" ", true), cell("a", true), cell("b", true), cell("q", true)];
    assert_eq!(v.resolve_link_at(&row, 2, 0), Some("h".to_string()));
}
