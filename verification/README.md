# scrybe

The core of the Scrybe Markdown editor as a verified library: the functions
in `src/` carry Verus contracts and are proved against them, except the
thin `external_body` wrappers around outside crates (SHA-256, hex, JSON,
UUIDs, UTF-8 decoding, Unicode width, graphemes, Markdown parsing, syntax
highlighting, Mermaid rendering), whose contracts are trusted.

## Layout

- `src/` — the library, verified by Verus.
  - `text`, `escape`, `digest` — character and byte helpers, HTML/XML
    escaping, SHA-256 digests of diagram sources.
  - `parser` — Mermaid diagram detection and the flowchart and sequence
    diagram parsers.
  - `codec` — the PNG chunk codec that embeds a diagram's source, UUID and
    digest in an iTXt chunk and reads it back, verifying the digest.
  - `svg` — SVG rendering through `mermaid-rs-renderer` with source
    provenance metadata.
  - `render`, `html` — Markdown to HTML: math placeholders, Mermaid
    wrappers, syntax-highlighted code blocks, themes.
  - `terminal`, `view`, `tui_view`, `viewer` — Markdown to styled terminal
    lines, word-wrap row counting, scroll state, and the split-pane viewer's
    key and mouse decisions.
  - `rpc`, `tools`, `registry`, `figures`, `activity` — the JSON-RPC
    envelopes and reply checks, the tool catalogue and argument gate,
    auto-launch decisions, figure naming and planning.
- `app/` — the program around the library: sockets, files, the terminal,
  the command line, and the JSON wire formats.
- `tests/` — tests of the library.
