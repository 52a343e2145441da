use scrybe::html::{
    highlight_code, html_from_events, mermaid_blocks, mermaid_sources, render_html, render_tool, MdEvent, MdEventKind,
};
use scrybe::render::{parse_theme, theme_name};
use scrybe::render::Theme;

#[test]
fn test_render_heading() {
    let out = render_html("# Hello Scrybe", Theme::Default);
    assert!(out.html.contains("<h1>"));
    assert!(out.html.contains("Hello Scrybe"));
}

#[test]
fn test_render_empty() {
    let out = render_html("", Theme::Default);
    assert!(!out.body_html.contains("Error"));
}

#[test]
fn test_syntax_highlighting_rust() {
    let md = "```rust\nfn main() {}\n```\n";
    let out = render_html(md, Theme::Default);
    assert!(
        out.body_html.contains("<span"),
        "expected <span elements from syntect, got: {}",
        &out.body_html[..out.body_html.len().min(400)]
    );
}

#[test]
fn test_syntax_highlighting_unknown_lang() {
    let md = "```xyzzy-nonexistent\nsome code\n```\n";
    let out = render_html(md, Theme::Default);
    assert!(out.body_html.contains("some code"));
}

#[test]
fn html_test_math_inline_extracted() {
    let out = render_html("Here is $x^2$ inline.", Theme::Default);
    assert!(out.body_html.contains(r#"class="math-inline""#), "body_html: {}", out.body_html);
}

#[test]
fn html_test_math_block_extracted() {
    let out = render_html("$$\\int f$$", Theme::Default);
    assert!(out.body_html.contains(r#"class="math-block""#), "body_html: {}", out.body_html);
}

#[test]
fn html_test_mermaid_wrapper() {
    let md = "```mermaid\ngraph TD; A-->B;\n```\n";
    let out = render_html(md, Theme::Default);
    assert!(out.body_html.contains(r#"class="mermaid""#), "body_html: {}", out.body_html);
    assert!(!out.body_html.contains("<pre>"));
}

#[test]
fn test_theme_css_injected() {
    let out = render_html("# hi", Theme::Default);
    assert!(out.html.contains("<style>"), "html should contain <style> tag");
    assert!(!out.body_html.starts_with("<style>"));
}

#[test]
fn page_is_style_then_body() {
    let out = render_html("plain", Theme::Dark);
    assert_eq!(out.html, format!("<style>{}</style>\n{}", Theme::Dark.css(), out.body_html));
    assert_eq!(out.body_html, "<p>plain</p>\n");
}

#[test]
fn mermaid_block_is_raw_and_escaped() {
    assert_eq!(
        highlight_code("A-->B & <C>", Some("mermaid")),
        "<pre class=\"code-block\"><code class=\"language-mermaid\">A--&gt;B &amp; &lt;C&gt;</code></pre>"
    );
}

#[test]
fn other_blocks_name_their_language_and_end_with_a_newline() {
    let html = highlight_code("x\n", Some("zz-unknown"));
    assert!(html.starts_with("<pre class=\"code-block\"><code class=\"language-zz-unknown\">"), "{html}");
    assert!(html.ends_with("</code></pre>\n"), "{html}");
    let bare = highlight_code("x\n", None);
    assert!(bare.starts_with("<pre class=\"code-block\"><code>"), "{bare}");
}

#[test]
fn highlighted_lines_keep_every_line_and_get_styled_spans() {
    let html = highlight_code("fn main() {\n    let x = 1;\n}", Some("rust"));
    assert!(html.starts_with("<pre class=\"code-block\"><code class=\"language-rust\">"), "{html}");
    assert!(html.contains("<span style="), "{html}");
    assert!(html.contains("main"), "{html}");
    assert!(html.contains("let"), "{html}");
    assert_eq!(html.matches('\n').count(), 3, "{html}");
}

fn ev(kind: MdEventKind, text: &str, html: &str) -> MdEvent {
    MdEvent { kind, text: text.to_string(), html: html.to_string() }
}

#[test]
fn code_text_is_collected_and_other_events_keep_their_html() {
    let events = vec![
        ev(MdEventKind::Other, "", "<p>"),
        ev(MdEventKind::Text, "a<b", "a&lt;b"),
        ev(MdEventKind::Other, "", "</p>\n"),
        ev(MdEventKind::CodeStartFenced, "mermaid", "<pre><code class=\"language-mermaid\">"),
        ev(MdEventKind::Text, "x>y", "x&gt;y"),
        ev(MdEventKind::Text, "\n", "\n"),
        ev(MdEventKind::CodeEnd, "", "</code></pre>\n"),
    ];
    assert_eq!(
        html_from_events(&events),
        "<p>a&lt;b</p>\n<pre class=\"code-block\"><code class=\"language-mermaid\">x&gt;y\n</code></pre>"
    );
}

#[test]
fn a_fence_without_info_string_has_no_language() {
    let events = vec![
        ev(MdEventKind::CodeStartFenced, "", "<pre><code>"),
        ev(MdEventKind::CodeEnd, "", "</code></pre>\n"),
    ];
    assert!(html_from_events(&events).starts_with("<pre class=\"code-block\"><code>"));
}

#[test]
fn renders_h1_with_versioned_data() {
    let out = render_tool("# Hello world", None);
    assert!(out.html.contains("<h1"));
    assert!(out.body_html.contains("Hello world"));
    assert_eq!(out.theme, "default");
    assert!(!out.html.is_empty());
}

#[test]
fn body_html_excludes_style_wrapper() {
    let out = render_tool("text", None);
    assert!(out.html.contains("<style>"));
    assert!(!out.body_html.contains("<style>"));
}

#[test]
fn theme_is_selected_and_reported() {
    assert_eq!(render_tool("x", Some("dark")).theme, "dark");
    assert_eq!(render_tool("x", Some("solarized")).theme, "solarized");
}

#[test]
fn unknown_theme_falls_back_to_default() {
    assert_eq!(render_tool("x", Some("neon")).theme, "default");
    assert_eq!(parse_theme(Some("neon")), Theme::Default);
}

#[test]
fn theme_names_read_back() {
    for t in [Theme::Default, Theme::Dark, Theme::Solarized] {
        assert_eq!(parse_theme(Some(theme_name(t))), t);
    }
}

#[test]
fn mermaid_blocks_are_found_in_document_order() {
    let src = "# T\n\n```mermaid\ngraph TD; A-->B\n```\n\n```rust\nx\n```\n\n```mermaid\nsequenceDiagram\n```\n";
    assert_eq!(mermaid_blocks(src), vec!["graph TD; A-->B".to_string(), "sequenceDiagram".to_string()]);
    assert!(mermaid_blocks("no diagrams here").is_empty());
}

#[test]
fn only_fences_named_mermaid_are_collected() {
    let events = vec![
        ev(MdEventKind::CodeStartFenced, "mermaidx", ""),
        ev(MdEventKind::Text, "a", ""),
        ev(MdEventKind::CodeEnd, "", ""),
        ev(MdEventKind::CodeStartFenced, "mermaid", ""),
        ev(MdEventKind::Text, "b", ""),
        ev(MdEventKind::Text, "c", ""),
        ev(MdEventKind::CodeEnd, "", ""),
        ev(MdEventKind::Text, "d", ""),
    ];
    assert_eq!(mermaid_sources(&events), vec!["bc".to_string()]);
}

#[test]
fn plain_code_block_keeps_its_text_escaped_in_spans() {
    let out = highlight_code("x < y\nz\n", None);
    assert!(out.starts_with("<pre class=\"code-block\"><code>"), "{out}");
    assert!(out.ends_with("</code></pre>\n"), "{out}");
    assert!(out.contains("<span"), "{out}");
    assert!(out.contains("x &lt; y"), "{out}");
    assert!(!out.contains("x < y"), "{out}");
}

#[test]
fn unknown_language_is_named_and_still_highlighted_as_plain_text() {
    let out = highlight_code("a & b\n", Some("no-such-lang"));
    assert!(out.starts_with("<pre class=\"code-block\"><code class=\"language-no-such-lang\">"), "{out}");
    assert!(out.contains("a &amp; b"), "{out}");
}
