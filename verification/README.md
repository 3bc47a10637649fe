# dbx_core

The core logic of the dbx database tool, written in Verus. The library's
logic states its behaviour in `requires` / `ensures` and Verus proves it;
the calls into outside crates (sqlparser, regex, rayon, chrono) stand behind
small trusted functions whose contracts say what those crates return, and
what sqlparser makes of a text is named rather than spelled out.

## Layout

- `src/` — the verified library.
  - `tag` — tag inheritance whitelists and validation.
  - `sql_parse`, `sql_risk`, `ast_filter` — SQL statements classified by
    risk, DDL impact reports, and the filter that lets only schema DDL pass
    (parsing goes through `sqlparser`).
  - `two_phase_commit` — the coordinator of a two-phase commit as a state
    machine: it is given what came of the last step and says what to do next.
  - `schema_types`, `schema_diff`, `schema_compare`, `schema_shard`,
    `schema_patterns` — comparing two schemas: tables, columns, indexes,
    foreign keys, triggers, routines, sequences, rules, owners and grants,
    whole or in shards, and grouping tables by naming pattern; `column_renames`
    finds columns that were renamed rather than dropped and added.
  - `schema_sql`, `schema_sync` — the SQL that brings a target schema in line
    with a source schema.
  - `schema_graph`, `schema_coverage`, `schema_rollback` — the foreign-key
    dependency graph, how much of it a comparison covers, and the plan that
    undoes a synchronisation.
  - `schema_prepare` — one comparison from start to end.
  - `schema_identity` — comparing a schema with itself finds nothing to do.
  - `schema_schedule`, `dialect_types`, `web_error` — batch sizing, the data
    types each dialect declares, and the web API's error.
  - `text` — string helpers with their specifications.
- `app/` — what runs around the library: the asynchronous driver of two-phase
  commits, the web routes, the process-wide dialect registry, and the scores
  computed in floating point.
- `tests/` — the tests, run against the compiled library.

## Not provided

- Table-rename scoring and the type-compatibility comparison of columns: both
  score in floating point through a type-inference engine that is not part
  of this code. A comparison takes the table renames it should apply as an
  argument instead.
- The mapping of column types from one dialect to another when synchronising
  schemas.
- Text that sqlparser cannot read is classified by this library's own rule,
  its first keyword (`keyword_risk`): SELECT, WITH, SHOW, DESCRIBE, DESC and
  EXPLAIN read, anything else writes.
