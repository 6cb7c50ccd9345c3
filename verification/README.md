# rig_resources

Reusable resources for agent kernels, verified with Verus: a versioned
behaviour-pattern registry, an environmental baseline store, an in-memory
entity graph over `petgraph`, memory-lookup records, security findings and
ECS signal extraction, and the trace envelopes that record each decision.

## Layout

- `src/` — the verified library. Each public function states its result in
  `ensures` over spec models (`Seq`, `Map`, views); the `law_*` proof
  functions state the properties that span calls (registration keeps the
  highest version, upserting an edge is idempotent, a read gives back the
  last write, expansion returns exactly the entities within the requested
  depth, adding a row's signals twice changes nothing).
  - `graph/backend.rs` holds the trusted contracts of the `petgraph` calls;
    `text.rs` and `json.rs` hold those of the few `std` and `serde_json`
    calls.
  - Floating-point values travel as their bit patterns (`F32Bits`,
    `F64Bits`); the library stores and compares them but never computes
    with them.
- `app/` — the unverified adapters: async store traits with lock-shared
  stores, the `rig_compose` tools and skills, serde wire forms of the
  library's records, context projections, and the floating-point
  arithmetic (online statistics, bound tests, centrality, scores).
- `tests/` — executable tests of the library.
