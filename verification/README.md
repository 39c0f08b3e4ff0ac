# mdvs — Markdown Validation & Search (verified core)

`mdvs` treats a directory of markdown files as a database: frontmatter fields
are declared in `mdvs.toml`, validated, and indexed for search. This crate is
its core, written in Verus: the functions in `src/` carry contracts that the
verifier checks. The calls into outside crates (`regex`, `globset`,
`xxhash-rust`, `chrono`, `tabled`, `terminal_size`, and two of std's) go
through small wrappers whose contracts are trusted, not proved; each says in
its doc comment what it claims of the outside function.

Layout:

- `src/schema/` — the `mdvs.toml` model (`config`), field type expressions
  and their parser (`shared`), constraints, and the translation between the
  configuration and canonical JSON Schema 2020-12 (`json_schema`), with
  proofs that canonical schemas pass the subset check, that the schema does
  not depend on the order of fields or ignored names, that a field read back
  from its schema is the same field, and that a whole configuration is read
  back as the same fields and ignored names when its fields are portable
  (scalars, arrays of them to any depth, arrays of objects; constraints that
  JSON Schema can hold, on a type they apply to; no empty constraints table)
  and its dotted names form a tree. A configuration that validation accepts
  is such a configuration when its constraints tables are not empty, its
  float bounds are finite, its names are distinct and no ignored name heads
  a dotted field name. `schema/load` picks a schema file's reader by its
  extension.
- Field types are `String`, `Integer`, `Float`, `Boolean`, arrays and
  objects. `Date` and `DateTime` are not field types: the type parser and
  the conversion from the serde form refuse them, so no schema with a
  `date` or `date-time` format is written, though one is still read.
- `src/preprocess.rs` — value preprocessors and their inference.
- `src/index/` — build metadata and hashes (`storage`), the typed `data`
  columns (`columns`), `--where` clause translation (`where_clause`, with
  `where_twice`: with no prefix, no aliases and no field named `data`, a
  clause without quoted literals translates a second time to the same
  text), search
  planning (`backend`) and the mock embedder's hash stream (`embed`).
- `src/block.rs`, `src/render.rs`, `src/table.rs`, `src/output.rs`,
  `src/outcome/` — command output as blocks, rendered as Markdown or as
  terminal tables drawn by `tabled`.
- `src/scaffold/` — placeholder substitution in platform templates.
- `app/` — the command-line program: argument parsing, file I/O, serde forms
  of the configuration, and the `f32`/`f64` arithmetic that the verified
  library does not hold.
- `tests/` — scenarios run against the compiled library.
