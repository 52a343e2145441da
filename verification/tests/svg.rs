use scrybe::digest::source_sha256;
use scrybe::svg::{render_svg, render_svg_with_source};

#[test]
fn renders_flowchart_to_svg() {
    let svg = render_svg("graph TD; A[Start]-->B{Decision}; B-->|yes|C;").unwrap();
    assert!(svg.contains("<svg"), "expected an <svg> root");
}

#[test]
fn renders_sequence_to_svg() {
    let svg = render_svg("sequenceDiagram\n    Alice->>Bob: Hello\n    Bob-->>Alice: Hi").unwrap();
    assert!(svg.contains("<svg"), "expected an <svg> root");
}

#[test]
fn injects_escaped_source_and_sha_into_metadata() {
    let src = "graph TD; A-->B";
    let svg = render_svg_with_source(src).unwrap();
    assert!(svg.contains("<metadata"));
    assert!(svg.contains("scrybe:source"));
    assert!(svg.contains("scrybe:sha256"));
    // The `>` in `A-->B` is XML-escaped inside the metadata.
    assert!(svg.contains("A--&gt;B"), "source should be XML-escaped");
    assert!(svg.contains(&source_sha256(src)), "sha256 should be present");
    // The metadata sits inside the <svg> element, not before it.
    let svg_pos = svg.find("<svg").unwrap();
    let meta_pos = svg.find("<metadata").unwrap();
    assert!(meta_pos > svg_pos, "metadata must sit inside <svg>");
}

#[test]
fn sha256_is_stable_and_hex() {
    let a = source_sha256("graph TD; A-->B");
    let b = source_sha256("graph TD; A-->B");
    assert_eq!(a, b);
    assert_eq!(a.len(), 64);
    assert!(a.chars().all(|c| c.is_ascii_hexdigit()));
}

#[test]
fn provenance_is_injected_into_an_svg_and_errors_pass_through() {
    let out = scrybe::svg::with_provenance(Ok("<svg a=\"1\"><g/></svg>".to_string()), "A-->B").unwrap();
    assert!(out.starts_with("<svg a=\"1\"><metadata"), "{out}");
    assert!(out.contains("A--&gt;B"), "{out}");
    assert!(out.ends_with("</metadata><g/></svg>"), "{out}");
    let err = scrybe::svg::with_provenance(Err(anyhow::Error::msg("bad diagram")), "x").unwrap_err();
    assert_eq!(err.to_string(), "bad diagram");
}
