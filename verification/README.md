# sizetrail

A read-only storage attribution reporter for developer toolchains on macOS
(Xcode and CoreSimulator, Homebrew, Docker Desktop, Go), written as a Verus
library with a thin command-line program around it.

## Layout

- `src/` — the verified library: the model, parsers, classification and the
  decisions of a scan, each a function with a `requires`/`ensures` contract checked
  by Verus:
  - `model.rs` — the report model, finding IDs, home-relative report paths,
    vendor size parsing and the disposition interval of a set of extents;
  - `scan.rs` — assembling adapter reports into one ordered document;
  - `capacity.rs`, `fsx.rs` — volume capacity facts and object measurements
    decoded from attribute buffers;
  - `policy.rs` — the registry of external probes, their limits and the
    invocation tracker that enforces them;
  - `rules.rs` — the rule model and its validation;
  - `command.rs` — exclusions, exit statuses, readiness and explanation routing;
  - `adapters/` — probe state machines, output parsers, inventory items and
    classification for each toolchain;
  - `json.rs`, `lexical.rs`, `text.rs`, `paths.rs`, `order.rs` — JSON
    documents, text and path algebra, and stable sorting, with their lemmas.
- `tests/` — executable tests of the library.
- `app/` — the `sizetrail` program: argument handling, file-system walks,
  Darwin system calls, process execution, reading the TOML rule files and JSON
  rendering. It runs what the library decides and hands the results back to it;
  the order in which the walks of a store visit directories is its own.

Calls into `serde_json` (JSON parsing) and a few standard-library conversions
(`str::from_utf8`, `String::from_utf8_lossy`, collecting characters into a
`String`) sit behind small trusted wrappers in `src/`; each one's contract is
stated in its doc comment.
