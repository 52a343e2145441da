use std::cell::Cell;

use scrybe::activity::ActivityFeed;
use scrybe::rpc::Response;
use scrybe::tools::live_result;
use scrybe::figures::{
    embed_captured_png, figure_name, figure_width, is_figure_name, plan_figures,
    prepare_embedded_png_with_uuid, FigureError, MAX_CAPTURED_PNG_BYTES,
};
use scrybe::tools::{
    app_candidates, ensure_running, executable_name, is_truthy, require_args, resolve_app,
    EngineFault, Headless, ToolError, Transport, TransportError, APP_ENV,
};

#[test]
fn enabled_is_truthy_only_for_yes_values() {
    for v in ["1", "true", "TRUE", "yes", "on", " on "] {
        assert!(is_truthy(Some(v)), "{v:?} should be truthy");
    }
    for v in ["0", "false", "no", "off", ""] {
        assert!(!is_truthy(Some(v)), "{v:?} should be falsy");
    }
    assert!(!is_truthy(None));
}

#[test]
fn resolve_prefers_scrybe_app_env_when_it_exists() {
    let app = resolve_app(
        |k: &str| if k == APP_ENV { Some("/custom/Scrybe.app".to_string()) } else { None },
        |p: &str| p == "/custom/Scrybe.app",
    );
    assert_eq!(app, Some("/custom/Scrybe.app".to_string()));
}

#[test]
fn resolve_skips_a_missing_env_override_and_falls_through() {
    let app = resolve_app(
        |k: &str| if k == APP_ENV { Some("/gone/Scrybe.app".to_string()) } else { None },
        |p: &str| p == "/Applications/Scrybe.app",
    );
    assert_eq!(app, Some("/Applications/Scrybe.app".to_string()));
}

#[test]
fn resolve_falls_back_to_system_then_user_applications() {
    let sys = resolve_app(|_: &str| None, |p: &str| p == "/Applications/Scrybe.app");
    assert_eq!(sys, Some("/Applications/Scrybe.app".to_string()));

    let user = resolve_app(
        |k: &str| if k == "HOME" { Some("/Users/me".to_string()) } else { None },
        |p: &str| p == "/Users/me/Applications/Scrybe.app",
    );
    assert_eq!(user, Some("/Users/me/Applications/Scrybe.app".to_string()));
}

#[test]
fn resolve_is_none_when_nothing_is_installed() {
    assert_eq!(resolve_app(|_: &str| None, |_: &str| false), None);
}

#[test]
fn candidates_are_in_priority_order() {
    assert_eq!(
        app_candidates(Some("/x/Scrybe.app"), Some("/home/u")),
        vec!["/x/Scrybe.app", "/Applications/Scrybe.app", "/home/u/Applications/Scrybe.app"]
    );
    assert_eq!(app_candidates(None, None), vec!["/Applications/Scrybe.app"]);
}

#[test]
fn ensure_running_short_circuits_without_launching_when_already_live() {
    let launched = Cell::new(false);
    let ok = ensure_running(
        || true,
        || {
            launched.set(true);
            true
        },
        || {},
        20,
    );
    assert!(ok);
    assert!(!launched.get());
}

#[test]
fn ensure_running_is_false_when_launch_fails() {
    assert!(!ensure_running(|| false, || false, || {}, 20));
}

#[test]
fn ensure_running_polls_until_the_app_comes_up() {
    let ticks = Cell::new(0u32);
    let ok = ensure_running(|| ticks.get() >= 3, || true, || ticks.set(ticks.get() + 1), 20);
    assert!(ok);
    assert_eq!(ticks.get(), 3);
}

#[test]
fn ensure_running_gives_up_after_the_budget() {
    let sleeps = Cell::new(0u32);
    let ok = ensure_running(|| false, || true, || sleeps.set(sleeps.get() + 1), 5);
    assert!(!ok);
    assert_eq!(sleeps.get(), 5);
}

#[test]
fn width_is_at_least_two() {
    assert_eq!(figure_width(1), 2);
    assert_eq!(figure_width(2), 2);
    assert_eq!(figure_width(9), 2);
    assert_eq!(figure_width(10), 2);
    assert_eq!(figure_width(99), 2);
}

#[test]
fn width_grows_with_magnitude() {
    assert_eq!(figure_width(100), 3);
    assert_eq!(figure_width(120), 3);
    assert_eq!(figure_width(999), 3);
    assert_eq!(figure_width(1000), 4);
}

#[test]
fn is_figure_name_matches_only_the_generated_pattern() {
    assert!(is_figure_name("foo_fig_01.png", "foo"));
    assert!(is_figure_name("foo_fig_001.png", "foo"));
    assert!(is_figure_name("foo_fig_7.png", "foo"));
    assert!(!is_figure_name("foo.png", "foo"));
    assert!(!is_figure_name("foo_fig_.png", "foo"));
    assert!(!is_figure_name("foo_fig_ab.png", "foo"));
    assert!(!is_figure_name("foo_fig_01.jpg", "foo"));
    assert!(!is_figure_name("foo_bar_fig_01.png", "foo"));
    assert!(!is_figure_name("other_fig_01.png", "foo"));
}

#[test]
fn figure_names_are_zero_padded_and_recognized() {
    assert_eq!(figure_name("doc", 1, 2), "doc_fig_01.png");
    assert_eq!(figure_name("doc", 100, 3), "doc_fig_100.png");
    assert_eq!(figure_name("doc", 7, 1), "doc_fig_7.png");
    assert!(is_figure_name(&figure_name("doc", 12, 4), "doc"));
}

#[test]
fn plan_names_siblings_in_document_order() {
    let blocks = vec!["graph TD; A-->B".to_string(), "graph LR; X-->Y".to_string()];
    let plans = plan_figures(&blocks, "notes", Some("/tmp/docs"));
    assert_eq!(plans.len(), 2);
    assert_eq!(plans[0].path, "/tmp/docs/notes_fig_01.png");
    assert_eq!(plans[1].path, "/tmp/docs/notes_fig_02.png");
    assert_eq!(plans[1].source, "graph LR; X-->Y");
    let rel = plan_figures(&blocks[..1], "foo", None);
    assert_eq!(rel[0].path, "foo_fig_01.png");
    assert!(plan_figures(&[], "foo", None).is_empty());
}

#[test]
fn docx_binary_name_is_platform_specific() {
    assert_eq!(executable_name("scrybe-docx", true), "scrybe-docx.exe");
    assert_eq!(executable_name("scrybe-docx", false), "scrybe-docx");
}

#[test]
fn tool_errors_and_faults() {
    let e = ToolError::new("heading_not_found", "no such heading");
    assert_eq!(e.code, "heading_not_found");
    assert_eq!(e.message, "no such heading");
    assert_eq!(EngineFault::UnknownTool("x".into()).message(), "unknown tool: x");
    assert_eq!(EngineFault::BadArgs("y".into()).message(), "invalid arguments: y");
    assert_eq!(TransportError::NoApp.message(), "no Scrybe app is running");
}

#[test]
fn headless_transport_has_no_live_app() {
    assert!(!Headless.is_live());
    assert!(matches!(Headless.call("open", serde_json::Value::Null), Err(TransportError::NoApp)));
}

#[test]
fn missing_required_arg_is_bad_args() {
    let required = vec!["path".to_string(), "source".to_string()];
    assert_eq!(require_args(&required, &["path".to_string(), "source".to_string()]), Ok(()));
    assert_eq!(
        require_args(&required, &["path".to_string()]),
        Err(EngineFault::BadArgs("missing required argument: source".to_string()))
    );
    assert_eq!(require_args(&[], &[]), Ok(()));
}

#[test]
fn activity_subject_names_the_document() {
    assert_eq!(ActivityFeed::new("bafy123").subject(), "scrybe.activity.bafy123");
}

fn minimal_png() -> Vec<u8> {
    let mut out = b"\x89PNG\r\n\x1a\n".to_vec();
    out.extend_from_slice(&scrybe::codec::encode_chunk(b"IHDR", &[0, 0, 0, 1, 0, 0, 0, 1, 8, 2, 0, 0, 0]));
    out.extend_from_slice(&scrybe::codec::encode_chunk(b"IEND", &[]));
    out
}

#[test]
fn captured_png_gets_its_source_and_reads_back() {
    let png = minimal_png();
    let e = prepare_embedded_png_with_uuid(&png, "graph TD; A-->B", "id-1").unwrap();
    assert_eq!(e.uuid, "id-1");
    assert_eq!(e.sha256, scrybe::digest::source_sha256("graph TD; A-->B"));
    let back = scrybe::codec::extract(&e.bytes).unwrap();
    assert_eq!(back.source, "graph TD; A-->B");
    let fresh = embed_captured_png(&png, "graph TD; A-->B").unwrap();
    assert_eq!(fresh.uuid.len(), 36);
}

#[test]
fn captured_png_limits_and_failures() {
    let big = vec![0u8; MAX_CAPTURED_PNG_BYTES + 1];
    assert!(matches!(
        embed_captured_png(&big, "x"),
        Err(FigureError::CapturedTooLarge { bytes, .. }) if bytes == MAX_CAPTURED_PNG_BYTES + 1
    ));
    let huge_source = "a".repeat(1024 * 1024 + 1);
    assert!(matches!(embed_captured_png(&minimal_png(), &huge_source), Err(FigureError::SourceTooLarge { .. })));
    assert!(matches!(embed_captured_png(b"not a png", "x"), Err(FigureError::Embed(_))));
    // Re-stamping a PNG replaces its payload.
    let once = prepare_embedded_png_with_uuid(&minimal_png(), "first", "a").unwrap();
    let twice = prepare_embedded_png_with_uuid(&once.bytes, "second", "b").unwrap();
    assert_eq!(scrybe::codec::extract(&twice.bytes).unwrap().source, "second");
    // A PNG without IEND cannot take a payload.
    assert!(matches!(embed_captured_png(b"\x89PNG\r\n\x1a\n", "x"), Err(FigureError::Embed(_))));
}

#[test]
fn live_app_transport_reads_the_client_answer() {
    assert_eq!(
        live_result(Ok(Response::ok(1, serde_json::Value::Bool(true)))),
        Ok(Some(serde_json::Value::Bool(true)))
    );
    assert_eq!(
        live_result(Ok(Response::err(1, -32601, "Method not found"))),
        Err(TransportError::Io("-32601: Method not found".to_string()))
    );
    assert_eq!(
        live_result(Err("no Scrybe running (socket /tmp/x missing)".to_string())),
        Err(TransportError::NoApp)
    );
    assert_eq!(live_result(Err("broken pipe".to_string())), Err(TransportError::Io("broken pipe".to_string())));
}

fn two_diagram_doc() -> &'static str {
    "# Report\n\n```mermaid\ngraph TD; A-->B\n```\n\n\
     Prose.\n\n```mermaid\ngraph LR; C-->D\n```\n"
}

/// The figure plans for document `doc` saved at `path`: its Mermaid blocks,
/// named after the file's stem, beside it.
fn plan_for(doc: &str, path: &str) -> Vec<scrybe::figures::FigurePlan> {
    let p = std::path::Path::new(path);
    let stem = p.file_stem().and_then(|s| s.to_str()).unwrap_or("document").to_string();
    let dir = p.parent().filter(|d| !d.as_os_str().is_empty()).map(|d| d.to_string_lossy().into_owned());
    plan_figures(&scrybe::html::mermaid_blocks(doc), &stem, dir.as_deref())
}

#[test]
fn plan_names_siblings_with_two_pad() {
    let plans = plan_for(two_diagram_doc(), "/a/b/report.md");
    assert_eq!(plans.len(), 2);
    assert_eq!(plans[0].path, "/a/b/report_fig_01.png");
    assert_eq!(plans[1].path, "/a/b/report_fig_02.png");
}

#[test]
fn plan_preserves_document_order() {
    let plans = plan_for(two_diagram_doc(), "/a/b/report.md");
    assert_eq!(plans[0].source, "graph TD; A-->B");
    assert_eq!(plans[1].source, "graph LR; C-->D");
}

#[test]
fn plan_zero_blocks_is_empty() {
    let plans = plan_for("# Just prose\n\nNo diagrams.\n", "/x/doc.md");
    assert!(plans.is_empty());
}

#[test]
fn plan_stem_comes_from_file_stem() {
    let plans = plan_for("```mermaid\ngraph TD; A-->B\n```\n", "/deep/nested/my.notes.md");
    assert_eq!(plans[0].path, "/deep/nested/my.notes_fig_01.png");
}

#[test]
fn plan_no_parent_uses_current_dir() {
    let plans = plan_for("```mermaid\ngraph TD; A-->B\n```\n", "foo.md");
    assert_eq!(plans.len(), 1);
    assert_eq!(plans[0].path, "foo_fig_01.png");
}

#[test]
fn plan_pads_to_three_for_many() {
    let mut src = String::new();
    for _ in 0..100 {
        src.push_str("```mermaid\ngraph TD; A-->B\n```\n\n");
    }
    let plans = plan_for(&src, "/d/big.md");
    assert_eq!(plans.len(), 100);
    assert_eq!(plans[0].path, "/d/big_fig_001.png");
    assert_eq!(plans[99].path, "/d/big_fig_100.png");
}

#[test]
fn export_path_checks_come_in_order() {
    use_export_path_error();
}

fn use_export_path_error() {
    let e = scrybe::tools::export_path_error("a.md", false, "out.docx", Some("/nope"), true).unwrap();
    assert_eq!(e.code, "input_not_found");
    assert_eq!(e.message, "input Markdown file not found (or not a file): a.md");
    let e = scrybe::tools::export_path_error("a.md", true, "/nope/out.docx", Some("/nope"), true).unwrap();
    assert_eq!(e.code, "bad_output");
    assert_eq!(e.message, "output directory does not exist: /nope");
    let e = scrybe::tools::export_path_error("a.md", true, "out.docx", None, true).unwrap();
    assert_eq!(e.code, "symlinked_output");
    assert_eq!(e.message, "refusing to write through a symlinked output target: out.docx");
    assert!(scrybe::tools::export_path_error("a.md", true, "out.docx", None, false).is_none());
}
