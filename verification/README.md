# ttt — a small dependent type theory kernel, verified with Verus

The library (`src/`) is checked by Verus: every function carries a contract
over mathematical models (`Seq`, `Map`, spec functions), and the laws of the
library are proof functions.

- `kernel/` — De Bruijn terms and universe levels, semantic values and
  environments, parallel substitution and shifting, names and name
  contexts, textual rendering, and run-time checks of metatheoretic
  properties.
- `eval/` — normalization by evaluation: evaluation, quotation,
  application, conversion checking; `semantics.rs` holds the spec functions
  that the contracts are stated over.
- `typeck/` — bidirectional type checking with metavariables, constraint
  solving by unification, and the typing context.
- `optimize/` — timed high-level API, batched De Bruijn index operations,
  substitution fusion with a composition cache, hash-consing and a value
  pool, and kernel work packaged as tasks.
- `lean/` — Lean terms, levels and names, the translation context, the
  translator in both directions (with the round-trip law in
  `roundtrip.rs`), a translator with three levels of hash-keyed caches
  (`optimize.rs`, over `lru` and `dashmap`), theorem categories and
  statement patterns, translation tasks, counters, cache entries and
  configuration, and the decisions of a Lean server connection
  (`server.rs`: lifecycle, request bookkeeping, responses, message
  framing).
- `term.rs`, `types.rs`, `arena.rs`, `check.rs`, `nbe.rs`, `compress.rs` —
  the calculus with Σ and identity types over De Bruijn levels, its type
  checker and normalizer, and proof-relevant type compression.
- `assoc.rs`, `text.rs`, `shared.rs` — association maps with distinct keys,
  text search, and the few trusted calls into `std`.

`app/` is the command-line demonstration and the process-wide state
(metavariable and name generators, shared optimization tables, timing
benchmarks, floating-point ratios, the displayable Lean error) and the
Lean server process, which performs the steps `lean/server.rs` decides. `tests/`
exercises the library with concrete values.
