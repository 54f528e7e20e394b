# deltalake_core — schema evolution and column mapping, verified

A library for the schema side of Delta tables: evolving a table's schema (new columns,
renames, drops, type changes), turning column mapping on, and writing and reading Parquet
columns under their physical names. Every function under `src/` carries a contract that
Verus proves.

## Layout

- `src/schema.rs` — struct types, fields, data types and their mathematical views;
  building a struct type (names distinct ignoring case, metadata columns only at the top
  level and each once), type equality as Delta compares types.
- `src/schema_ext.rs` — invariants, generated columns, column mapping metadata and the
  logical-to-physical mapping of a schema. The random numbers behind physical names are
  handed in by the caller (`app/` draws them from the operating system).
- `src/constraints.rs`, `src/column_mapping.rs` — the walks behind those four.
- `src/merge.rs` — merging one schema into another.
- `src/generated_columns.rs` — writer checks for generated columns, column ids.
- `src/schema_evolution.rs` — the schema evolution builder and what a change leaves the
  table with; the schema-aware write and merge settings.
- `src/column_mapping_builder.rs` — turning column mapping on for a table.
- `src/writer.rs` — physical column names for written files, writer settings and
  configuration, chunking of batches, gathering of uploads.
- `src/schema_match.rs` — comparing Arrow schemas, and the check of a batch against the
  schema of the files it is written to.
- `src/schema_adapter.rs` — reading file columns back under their table names.
- `src/json.rs` — JSON values as the library holds them, read by `serde_json`, and the
  lookups that find a field's invariant.
- `src/table.rs`, `src/commit.rs`, `src/errors.rs`, `src/strmap.rs`, `src/text.rs` — table
  state, commit properties, errors, a string-keyed map, decimal text.
- `app/` — conversions to and from `delta_kernel` and Arrow types, settings read from the
  environment, random numbers for column mapping, the schema check of a batch before it
  is written.
- `tests/` — tests on concrete values.

Public proof functions named `law_*` state what holds across calls: ids handed out in
sequence, idempotence of turning column mapping on, read-back of physical names, and more.
