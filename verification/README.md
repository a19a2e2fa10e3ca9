# pipex

A pipeline processing library with machine-checked contracts. Items enter a pipeline
as successes; each step maps the successful values and carries the errors
of earlier steps along. A step whose function names a strategy hands its
results to that strategy: a custom one registered under the name in a
`StrategyRegistry` first, otherwise the built-in one (ignore, collect, fail
fast, log and ignore); the errors that log-and-ignore drops are handed out
to be reported.

Layout:

- `src/` — the verified library: results that carry a strategy name,
  the strategies over vectors and fixed-size arrays, strategy dispatch and
  the registry of custom strategies, synchronous pipeline steps, the
  bounded memoization cache, the Rust-to-WGSL expression translation and
  the text operations it is built on, the decisions of the purity check,
  the argument grammar and type check of the attributes and the names they
  generate, and the benchmark workloads.
- `tests/` — tests of the library.
- `app/` — the benchmark program and what needs the outside world: async,
  parallel and streaming steps, the process-wide strategy registry and its
  reporting on stderr, GPU execution with wgpu, and the code
  transformations behind the `pure`, `error_strategy` and `memoized`
  attributes.
