# heyting

Complex logical query answering over knowledge graphs: multi-hop queries with
AND, OR, NOT and implication, evaluated in a residuated-lattice truth algebra
over one-hop scorer outputs.

## Layout

- `src/` is the verified library (Verus). It holds the parts of the engine
  that live on integers and sets, each with a contract:
  - `temporal`: `TimeSet`, a bitset of timestamp ids over a fixed axis,
    modelled as a `Set<int>` within `0..n`, closed under union,
    intersection and complement (De Morgan, involution, partition laws);
    `VirtualRelations`, the registry that turns `(base relation, window)`
    pairs into fresh relation ids and resolves them back.
  - `kg`: `EdgeIndex`, the weighted edge store behind the fuzzy and
    temporal graphs, modelled as the log of added edges; each edge records
    whether its weight is positive, and the tails of a hop are exactly its
    positive edges.
  - `prune`: the `CandidateSource` seam and candidate normalization
    (sorted, duplicate-free, same members).
  - `eval`: the easy/hard answer split.
  - `adapters`: construction shape checks for box scorers, the refusals of
    box materialization, and the mapping of retrieval-index hits to
    candidate entities.
  - `query`, `abduce`, `calibration`, `conformal`, `provenance`:
    evaluation settings, configuration, wrappers, and error types with the
    input checks they come from.
- `app/` is ordinary Rust around the library: truth degrees, embeddings and
  scores are floating point, so the truth algebras, the query evaluator, the
  fuzzy graphs, conformal calibration and the model adapters (which call
  `tranz`, `subsume`, `statskit`, `precinct`, `vicinity` and `hyperball`)
  stand there and call into the library.
- `tests/` exercises the library.
