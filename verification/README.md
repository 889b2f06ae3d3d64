# maodie_compiler

A verified front end and WebAssembly backend for the Maodie language, written in Verus.

The library (`src/`) covers the whole compile path. Every stage is verified free of panics and
keeps its output well formed; how much of each stage's result its contract fixes differs:

- `source`, `text`, `diagnostic`: source files with line indexes, UTF-8 offsets, diagnostics
  and their rendering.
- `lexer`, `highlight`, `incremental`, `lex_laws`: the lexer, specified exactly by a scanning
  function over characters; syntax highlighting; and incremental highlight sessions whose caches
  are proved equal to a full pass after every update.
- `ast`, `parser`, `hir`, `resolver`, `corelib`, `log_format`, `typeck`: parsing, name
  resolution with the preloaded core library, and type checking. The dump formats and the
  order of the parse diagnostics are exact. Beyond that, these contracts state the shape of
  what is built, how paths resolve, the declarations, and parts of the checking. They do not
  state the full AST, HIR or type table as a function of the source.
- `mir`, `wasm`: lowering to MIR with well-formed control flow, with the blocks that a `?` lowers
  to stated exactly, the shape of an `if`, and the single returning block of a body that never
  branches; WAT and WASM output stated exactly for a given MIR package, up to the string
  table and the local slot layout it chooses; and a MIR execution helper whose results are
  specified by a step semantics.
- `pipeline`, `wasm_api`: the compile pipeline with its dumps and artifacts, and the request
  logic of the host-facing API (options, highlight sessions and their versions, API errors).

`app/` holds the WebAssembly ABI: raw memory buffers, JSON decoding and encoding, and the
session handles owned by the host.

The Unicode `White_Space` class is written out in `src/unicode.rs` as `char::is_whitespace`
reports it; `XID_Start` and `XID_Continue` come from the `unicode-ident` crate through the two
trusted functions there.
