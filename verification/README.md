# prism

Analytics packs and fuzzy inference for Converge formations, with the parts
that decide things written in Verus and proved against their contracts.

- `src/` is the verified library. Numbers are binary64 bit patterns
  (`float_bits`), compared exactly as the hardware compares them. It holds
  the input checks of every analytic pack and fuzzy rule base (each check
  returns the first refusal, in a stated order), the pack metadata and the
  plan invariants that are decided by comparisons, the parts of the solvers
  that select and order rather than compute (k-means seeding and nearest
  centroid, pair enumeration, trend runs, outlier selection, threshold
  labelling, stable sorts by score, posterior order, the k-means assignment
  step and its stopping rule), the degree of a fuzzy antecedent, Mamdani
  inference from checked rule base to aggregated memberships, the firing of
  Sugeno and Tsukamoto rules, the decisions of the training pipeline (split
  sizes, monitoring status, deployment), the choice of consequents for
  defuzzification, an ordered name map, and small text rules (format
  detection, cache file names, rule ids, summaries).
- `app/` is ordinary Rust around it: serde forms of the inputs and outputs,
  the floating-point arithmetic of the solvers and membership evaluation, the Converge `Pack`
  and `Suggestor` implementations, and Polars/calamine ingestion and feature
  extraction.
- `tests/` exercises the library from outside.

Outside this crate's scope:

- Neural-network inference with Burn (a `Model`/`ModelConfig` multilayer
  perceptron, an `InferenceAgent`, `run_batch_inference`): Burn is not a
  dependency.
- Model-training pipeline agents and their records (dataset, validation,
  feature engineering, hyperparameter search, training, evaluation,
  registry, monitoring, deployment, sample inference); their split,
  monitoring and deployment decisions are in `pipeline`.
- An execution identity on proposals (`prism_execution_identity`): the
  Converge version used here has no such type, so proposals carry the
  `prism` provenance string.
- Fetching, caching and scanning parquet files through converge-storage,
  which is not a dependency; the cache file naming is part of the library.
