# etac

The front end of a compiler for Eta, written in Verus: every function of the
library is specified with `requires`/`ensures` and proved.

## Layout

- `src/` — the verified library.
  - `span`, `source_map`, `cache`: the global byte space shared by all loaded
    files, file-name interning, and resolving a span back to its file.
  - `diagnostic`, `emitter`: diagnostics, the context that records and counts
    them, and how a diagnostic is laid out as a report.
  - `token`, `lexer`, `lexlog`: tokens and their rendering, the lexer (with
    laws: it always moves forward, tokens spell their source text, literal
    payloads are Unicode scalar values), and the `--lex` output.
  - `syntax`: syntax errors and their diagnostics.
  - `resolve`, `driver`, `session`: command-line paths, `use` lookup, loading,
    the compilation outcome, flags and diagnostic-file placement, and `run`,
    which drives the front end over a command line.
  - `ast`, `typecheck`, `context`: the syntax tree, types, and the scoped
    typing environments.
  - `printer`, `testgen`, `testing`: annotation contexts for printing trees,
    generated test names, and an in-memory source store.
- `app/main.rs` — the `etac` command: argument parsing, file I/O, writing the
  `--lex` files and drawing diagnostics.
- `tests/` — scenarios for the lexer, resolution and the rest of the front
  end.
