//! Scrybe: verified core logic of the Scrybe Markdown editor — the PNG iTXt
//! codec for Mermaid source, the Mermaid diagram parsers, HTML
//! post-processing, scroll state for the terminal viewer, and the pure
//! decision logic of the CLI/MCP tooling.

pub mod terminal;
pub mod text;
pub mod digest;
pub mod codec;
pub mod escape;
pub mod html;
pub mod svg;
pub mod parser;
pub mod registry;
pub mod render;
pub mod view;
pub mod viewer;
pub mod tui_view;
pub mod rpc;
pub mod tools;
pub mod figures;
pub mod activity;
