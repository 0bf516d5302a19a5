# dhanush

An HTTP load tester whose configuration, request selection, scheduling and
statistics logic is verified with Verus.

- `src/` — the verified library:
  - `config.rs`: command line and YAML configuration into groups of endpoints
    (defaults, precedence, header parsing, duration parsing, errors);
  - `http_client.rs`: request templates, weighted endpoint selection, client
    settings;
  - `worker.rs`: when a worker stops and how an outcome is counted;
  - `stats.rs`: per-worker statistics and their merging;
  - `engine.rs`: ramp-up start delays, the duration timer, result order;
  - `reporter.rs`: number formatting, status-code order and class, totals;
  - `text.rs`, `error.rs`, `cli.rs`: string helpers, the error type, the
    command-line values.
- `app/` — the executable: argument parsing with `clap`, file reading,
  the `tokio`/`reqwest` runtime, progress bars and printing.
- `tests/` — tests of the library on concrete values.
