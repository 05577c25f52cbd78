# sniffdiff

Symbol-level review facts for Python diffs, verified with Verus.

`sniffdiff` compares two sides of a Git comparison (two refs, a ref and the
working tree, the index and the working tree, or `HEAD` and the index),
parses the Python files of both sides with tree-sitter, and reports which
functions, methods and classes changed, how their signatures and structural
complexity moved, who calls them, whether their tests moved, and a compact
report of what deserves review first.

## Layout

- `src/` — the verified library.
  - `git.rs` — `git diff --name-status` lines, file listings, Git errors.
  - `paths.rs`, `text.rs` — path and string functions with their specs.
  - `python/` — tree-sitter behind one trusted wrapper whose result is a
    named function of the text (`tree.rs`), the syntax tree as plain values, and symbol, signature, complexity,
    fingerprint and import/call reference extraction over it.
  - `analysis/` — snapshots of each side, the symbol diff, reference facts,
    test facts, review signals and the whole pipeline.
  - `output/report/` — the report model: selection, labels, complexity,
    callers and tests, omitted counts.
  - `cli.rs` — ref ranges and numeric options of the command line.
  - `timing.rs` — phase timings and their text.
- `tests/` — unit and scenario tests of the library.
- `app/` — the command: argument parsing, running Git, YAML and JSON output.
