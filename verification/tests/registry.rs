use scrybe::registry::{Registry, ToolEntry};
use scrybe::tools::{EngineFault, Facet};

fn entry(name: &str, required: &[&str], mutates: bool, facet: Facet) -> ToolEntry {
    ToolEntry { name: name.to_string(), required: required.iter().map(|s| s.to_string()).collect(), mutates, facet }
}

fn registry() -> Registry {
    let mut reg = Registry::new();
    reg.register(entry("render", &["source"], false, Facet::Core));
    reg.register(entry("mermaid_to_png", &["source", "output_path"], true, Facet::Mermaid));
    reg.register(entry("extract", &["png_path"], false, Facet::Mermaid));
    reg
}

fn keys(ks: &[&str]) -> Vec<String> {
    ks.iter().map(|s| s.to_string()).collect()
}

#[test]
fn registry_finds_registered_tools_by_name() {
    let reg = registry();
    assert!(reg.get("render").is_some());
    assert!(reg.names().contains(&"render".to_string()));
    assert_eq!(reg.names(), keys(&["render", "mermaid_to_png", "extract"]));
    assert_eq!(reg.len(), 3);
    assert!(!reg.is_empty());
    assert!(Registry::new().is_empty());
    let spec = reg.get("mermaid_to_png").expect("registered");
    assert!(spec.mutates);
    assert_eq!(spec.facet, Facet::Mermaid);
    assert_eq!(reg.find("extract"), Some(2));
}

#[test]
fn unknown_tool_is_engine_fault() {
    let reg = registry();
    let err = reg.route("no_such_tool", &[]).unwrap_err();
    assert!(matches!(err, EngineFault::UnknownTool(ref n) if n == "no_such_tool"));
}

#[test]
fn missing_output_path_is_engine_fault() {
    let reg = registry();
    let err = reg.route("mermaid_to_png", &keys(&["source"])).unwrap_err();
    assert!(
        matches!(err, EngineFault::BadArgs(ref m) if m.contains("output_path")),
        "expected BadArgs for missing output_path, got {err:?}"
    );
}

#[test]
fn complete_arguments_route_to_the_tool() {
    let reg = registry();
    assert_eq!(reg.route("mermaid_to_png", &keys(&["output_path", "source", "extra"])), Ok(1));
    assert_eq!(reg.route("render", &keys(&["source"])), Ok(0));
}

#[test]
fn the_first_missing_argument_is_named() {
    let reg = registry();
    assert_eq!(
        reg.route("mermaid_to_png", &[]),
        Err(EngineFault::BadArgs("missing required argument: source".to_string()))
    );
}
