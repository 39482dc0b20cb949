# cad-jww

A library for the JWW (Jw_cad) binary drawing format and for the text sources
and edit history of a CAD project, written in Verus: each function states its
behaviour in `requires` / `ensures` clauses over mathematical models, and Verus
proves that the code meets them.

## Layout

- `src/codec/` reads and writes JWW documents: the header, entity lists,
  block definitions and the records they hold, the inspection that decides
  whether a file can be rewritten without loss, and the laws relating the
  reader to the writer (`codec/roundtrip.rs`).
- `src/import.rs`, `src/import_read.rs`: the importer's lenient reader and its
  rules (source ids, layer tables, block expansion plans, limits).
- `src/export.rs`: the exporter's rules (codes for colors, line types and
  paper sizes, the generated JWW header with its layer slots, preserved-record
  checks, block numbering, provenance).
- `src/edit.rs`, `src/history.rs`, `src/history_record.rs`,
  `src/manifest.rs`, `src/recovery.rs`: line-preserving edits of NDJSON
  sources, the undo/redo index and its entries, manifest revisions and crash
  recovery decisions.
- `src/text.rs`: CP932 and UTF-8 conversions and the string helpers the rest
  relies on.
- `app/` holds what is not verified: file system work, atomic publication,
  serde forms of the library's records and the floating-point converter from
  JWW records to project entities.
- `tests/` exercises the library on concrete values.

Outside crates are reached from `src/` only through a few trusted functions,
each documented where it is declared: `encoding_rs` for CP932, `blake3` for
revisions, and std's lossy UTF-8 decoding and `Debug` quoting.
