# bofuzz

Static-feature weight scheduling for a coverage-guided fuzzer, verified with Verus.

A feature map gives every coverage site of a target one number per static feature. The scheduler
combines these numbers with a weight vector into one weight per site, turns the weights of the sites
that a testcase reaches into a factor on its score, and searches for weight vectors under which
fuzzing finds more.

## Layout

- `src/` is the library. Its functions carry contracts, and Verus proves them.
  - `feature_sched/`: the schema of the features and the mask that picks the active ones, the feature
    map, the candidate vectors, the weights of the sites, the accounting for testcases, the search
    over weight vectors and its stage.
  - `libfun/`: the fuzzer with a fixed set of eight features, whose search runs in windows of time.
  - `double.rs`, `text.rs`, `table.rs`: numbers by their bit patterns, texts, tables with text keys.
  - `json.rs`, `rng.rs`, `clock.rs`: what is taken from `serde_json` and `libafl_bolts`. Their
    contracts are believed, and each says what.
- `tests/` runs the library.
- `app/` is the fuzzer around it: command line, files, target, the stages of LibAFL, and the
  floating-point kernels.

## Numbers

The library orders floating-point numbers and tells NaN and the infinities from the others, by their
bit patterns. Where it needs a sum, a norm, a density or a draw, the caller hands in the calculation,
and the contracts say what is calculated of what.
