# bzt_rs

A load-test runner for Taurus-style configurations (YAML, JSON, TOML),
built on Goose. The decisions it makes are in a library whose contracts are
proved with Verus; the program around it does the I/O.

- `src/` — the verified library: configuration models and the shorthand
  normalizer, `-o` overrides on JSON documents, placeholder interpolation,
  macro and environment resolution (sensitive names refused), conditions and
  assertions, extraction rules, pacing, SLA totals and breaches, report
  pieces (XML escaping, JUnit text, live statistics), dry-run validation and
  the mock server's answers.
- `app/` — the `bzt` command: argument parsing, file and network I/O, the
  Goose attack, InfluxDB pushes, the control API and the floating-point
  metric values.
- `tests/` — tests of the library on concrete values.
