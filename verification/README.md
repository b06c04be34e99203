# foundry_db

The core of an AST-first PostgreSQL layer, with its behaviour stated in
contracts and proved with Verus.

- `src/` is the verified library: the query tree and its builders, the
  PostgreSQL compiler with numbered bindings, pagination (offset and
  cursor), migration bookkeeping and the lifecycle commands' plans, SQL
  observability (fingerprints, redaction, slow-query and N+1 logs), loaded
  records, and the per-request cache of model extension rows.
- `app/` is ordinary Rust around it: the serde forms of the library's
  types, the process-wide logs and per-request scopes, and the lifecycle
  commands that wait for the migration lock and run the library's plans
  against a database session.
- `tests/` exercises the library on concrete values.

Calls into `base64`, `url` and `uuid` stand behind small trusted wrappers in
`src/`, each with a doc comment that says what its contract claims.
