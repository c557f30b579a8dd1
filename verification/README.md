# neodos-toolkit

Developer tooling for NeoDOS kernel sources, verified with Verus.

- `src/` — the library. Every function with a body is proved by Verus against its
  contract, except the small `#[verifier::external_body]` wrappers around calls into
  `dashmap`, `url`, `serde_json` and a few std functions (lowercasing, character classes, UTF-8
  decoding, string quoting, file names): their contracts are trusted, and each one's doc
  comment says what it claims of the outside function. The library covers:
  - `parsers/`: ELF64, NEM v3 driver images, NeoFS v2 superblocks, registry hive headers;
  - `indexer`, `database`, `cache`, `workspace`, `config`: the symbol index over Rust
    sources, the cache of open documents, change detection and configuration;
  - `analysis/`: kernel summary, ABI compatibility, architectural invariants;
  - `lsp/`: the language server's request handlers and message-loop decisions;
  - `mcp/`: the agent server's tools and message routing;
  - `json`: whether a text is JSON and what its object's members are, through `serde_json`;
  - `text`: character-level helpers shared by all of the above.
- `tests/` — tests of the library.
- `app/` — the program: standard input and output, the file system, JSON, and the
  conversions to the protocol types. Run it as `neodos lsp` (the default) or `neodos mcp`.
