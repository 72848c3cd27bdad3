# bulk-merge

Loads bibliographic metadata dumps (LibGen MySQL dumps, Open Library dumps) into
PostgreSQL tables.

- `src/` is the library, verified with Verus: the MySQL dump reader and statement
  parsers, row preparation and batching, the offline TSV conversion and the
  staging/swap load decisions, the planning and checks of every command, the SQL text
  of each statement, Open Library line parsing and row building, value typing, and
  progress rate limiting. Calls into chrono, serde_json, sha2, hex and the standard library that the
  library relies on are declared with the contracts it trusts.
- `app/` is the `bulk-merge` program around it: command line (clap), configuration file
  (toml/serde), logging (tracing), files, and the database connection (sqlx/tokio).
- `tests/` exercises the library on concrete inputs.
