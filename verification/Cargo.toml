[package]
name = "scrybe"
version = "0.1.0"
edition = "2021"
publish = false

[dependencies]
sha2 = "=0.10.9"
hex = "=0.4.3"
serde = { version = "=1.0.229", features = ["derive"] }
serde_json = "=1.0.154"
uuid = { version = "=1.29.0", features = ["v4"] }
mermaid-rs-renderer = "=0.3.1"
unicode-width = "=0.2.0"
ratatui = "=0.29.0"
thiserror = "=2.0.21"
anyhow = "=1.0.104"
tempfile = "=3.27.0"
which = "=8.0.6"
pulldown-cmark = "=0.13.6"
syntect = { version = "=5.3.0", default-features = false, features = ["default-fancy"] }
crossterm = "=0.28.1"
open = "=5.4.5"
interprocess = "=2.4.7"
clap = { version = "=4.6.7", features = ["derive"] }

[dev-dependencies]
ratatui = { version = "=0.29.0", features = ["unstable-rendered-line-info"] }
