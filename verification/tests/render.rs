use scrybe::render::{extract_math, inject_math, inject_mermaid_wrappers, Theme};

// ── Mermaid wrappers ───────────────────────────────────────────────────────

#[test]
fn mermaid_test_mermaid_wrapper() {
    let input = r#"<pre><code class="language-mermaid">graph TD; A-->B;</code></pre>"#;
    let output = inject_mermaid_wrappers(input);
    assert!(output.contains(r#"class="mermaid""#));
    assert!(output.contains("graph TD; A--&gt;B;"));
    assert!(!output.contains("<pre>"));
    assert!(!output.contains("<code"));
}

#[test]
fn test_mermaid_wrapper_highlighted_pre() {
    let input = r#"<pre class="code-block"><code class="language-mermaid">graph LR; X-->Y;</code></pre>"#;
    let output = inject_mermaid_wrappers(input);
    assert!(output.contains(r#"class="mermaid""#));
    assert!(output.contains("graph LR;"));
}

#[test]
fn test_no_mermaid_passthrough() {
    let input = r#"<pre><code class="language-rust">fn main() {}</code></pre>"#;
    let output = inject_mermaid_wrappers(input);
    assert_eq!(output, input);
}

#[test]
fn test_multiple_mermaid_blocks() {
    let input = [
        r#"<pre><code class="language-mermaid">A-->B</code></pre>"#,
        "<p>text</p>",
        r#"<pre><code class="language-mermaid">C-->D</code></pre>"#,
    ]
    .concat();
    let output = inject_mermaid_wrappers(&input);
    assert_eq!(output.matches(r#"class="mermaid""#).count(), 2);
}

#[test]
fn mermaid_wrapper_exact_output() {
    let input = r#"<p>x</p><pre><code class="language-mermaid">a<"b"</code></pre><p>y</p>"#;
    assert_eq!(
        inject_mermaid_wrappers(input),
        r#"<p>x</p><div class="mermaid" data-source="a&lt;&quot;b&quot;">a<"b"</div><p>y</p>"#
    );
}

#[test]
fn unclosed_mermaid_block_is_kept() {
    let input = r#"<pre><code class="language-mermaid">A-->B"#;
    assert_eq!(inject_mermaid_wrappers(input), input);
}

// ── Math ───────────────────────────────────────────────────────────────────

#[test]
fn math_test_math_inline_extracted() {
    let (processed, phs) = extract_math("Here is $x^2$ inline.");
    assert_eq!(phs.len(), 1);
    assert!(!phs[0].is_block);
    assert_eq!(phs[0].source, "x^2");
    assert_eq!(processed, "Here is MATH_PLACEHOLDER_0 inline.");
    let html = inject_math(&processed, &phs);
    assert_eq!(html, r#"Here is <span class="math-inline" data-math="x^2">x^2</span> inline."#);
}

#[test]
fn math_test_math_block_extracted() {
    let (processed, phs) = extract_math("$$\\int f$$");
    assert_eq!(phs.len(), 1);
    assert!(phs[0].is_block);
    assert_eq!(phs[0].source, "\\int f");
    assert!(processed.contains("MATH_PLACEHOLDER_0"));
    let html = inject_math(&processed, &phs);
    assert!(html.contains(r#"class="math-block""#));
    assert!(html.contains("\\int f"));
}

#[test]
fn test_no_math_passthrough() {
    let (processed, phs) = extract_math("No math here.");
    assert!(phs.is_empty());
    assert_eq!(processed, "No math here.");
}

#[test]
fn test_math_escape_in_attr() {
    let (processed, phs) = extract_math("$a < b$");
    assert_eq!(phs.len(), 1);
    let html = inject_math(&processed, &phs);
    assert!(html.contains("&lt;"));
}

#[test]
fn math_edge_cases() {
    // A lone dollar, an empty pair, and a newline inside stay as text.
    for s in ["costs $5", "$$", "$a\nb$", "$$x"] {
        let (p, phs) = extract_math(s);
        assert!(phs.is_empty(), "{s:?}");
        assert_eq!(p, s);
    }
    // Placeholders are numbered in order.
    let (p, phs) = extract_math("$a$ and $$b$$");
    assert_eq!(p, "MATH_PLACEHOLDER_0 and MATH_PLACEHOLDER_1");
    assert_eq!(phs[0].index, 0);
    assert_eq!(phs[1].index, 1);
    assert!(phs[1].is_block);
}

#[test]
fn inject_without_placeholders_is_identity() {
    assert_eq!(inject_math("<p>MATH_PLACEHOLDER_0</p>", &[]), "<p>MATH_PLACEHOLDER_0</p>");
}

#[test]
fn themes_have_distinct_stylesheets() {
    assert_ne!(Theme::Default.css(), Theme::Dark.css());
    assert_ne!(Theme::Dark.css(), Theme::Solarized.css());
    assert_eq!(Theme::default(), Theme::Default);
    assert!(Theme::Default.css().contains("body"));
}

#[test]
fn placeholder_tokens_are_replaced_whole() {
    let phs: Vec<scrybe::render::MathPlaceholder> = (0..=10)
        .map(|k| scrybe::render::MathPlaceholder { index: k, source: format!("s{k}"), is_block: false })
        .collect();
    assert_eq!(
        inject_math("MATH_PLACEHOLDER_10", &phs),
        "<span class=\"math-inline\" data-math=\"s10\">s10</span>"
    );
    assert_eq!(
        inject_math("a MATH_PLACEHOLDER_1 b MATH_PLACEHOLDER_99", &phs),
        "a <span class=\"math-inline\" data-math=\"s1\">s1</span> b MATH_PLACEHOLDER_99"
    );
}

#[test]
fn only_the_mermaid_blocks_own_pre_is_replaced() {
    let html = "<pre><code class=\"language-rust\">language-mermaid</code></pre><pre><code class=\"language-mermaid\">A</code></pre>";
    assert_eq!(
        inject_mermaid_wrappers(html),
        "<pre><code class=\"language-rust\">language-mermaid</code></pre><div class=\"mermaid\" data-source=\"A\">A</div>"
    );
}

#[test]
fn mermaid_block_after_a_pre_tag_and_a_newline_is_wrapped() {
    let out = inject_mermaid_wrappers("<pre class=\"x\">\n<code class=\"language-mermaid\">A</code></pre>");
    assert_eq!(out, "<div class=\"mermaid\" data-source=\"A\">A</div>");
}

#[test]
fn mermaid_marker_after_text_in_a_pre_is_not_a_block() {
    let html = "<pre>see <code class=\"language-mermaid\">A</code></pre>";
    assert_eq!(inject_mermaid_wrappers(html), html);
}
