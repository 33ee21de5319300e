# argus

The verified core of Argus, an online risk and factor exposure engine.

- `src/` is the library, verified with Verus: domain newtypes and their text,
  the error type, the interval bookkeeping of the Hayashi-Yoshida estimator
  (with its whole-run guarantee that every overlapping interval pair is reported
  exactly once),
  the pair layout of the covariance matrix and the routing of ticks to pairs,
  the tick arena, the canonical tick schema and batch validation, the routing
  of ticks to shards over `ringbuf` rings, and the metric names of the risk
  policy.
- `app/` is ordinary Rust around it: the floating-point estimators (Welford,
  Hayashi-Yoshida sums, recursive least squares), the risk policy, Arrow
  conversion, the Yahoo Finance equity adapter, the shard threads, the PyO3
  bindings and a throughput benchmark.
- `tests/` exercises the library.
