# ejectest

Extract inline `#[cfg(test)] mod tests { ... }` blocks of Rust source files
into sibling `_tests.rs` files, and check a tree for inline test modules
that remain.

The library in `src/` is written in Verus: every function carries a
contract, and the properties below are proved.

- `scan_state.rs`, `scanner.rs`: the lexical state machine that tells code
  from comments and literals, and the search for the first
  `#[cfg(test)] mod tests` block and its matching closing brace.
- `eject.rs`: the extraction itself (stub, dedented test file, lifted
  attributes, trailing-newline normalization) and the parse check through
  `syn`.
- `classify.rs`, `report.rs`, `render.rs`, `filelist.rs`: classification,
  per-file results, text and JSON output, and file-list filtering.
- `properties.rs`, `indentation.rs`, `escaping.rs`: laws that relate
  several functions, such as that an extracted file is classified as
  external (so a second run changes nothing), that dedenting twice is
  dedenting once, and that escaped JSON strings read back exactly.
- `text.rs`: UTF-8 lengths, Unicode white space and line splitting.

`app/` holds the command line (`apply`, `check`), directory walking and
file access; `tests/` exercises the library on concrete inputs.
