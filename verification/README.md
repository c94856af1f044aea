# aiprog

Building blocks of a Lua scripting engine for AI programs, written in Verus.
The library holds the engine's decisions and text processing, not the
engine itself (handler registry, script execution): text helpers, file
selection, time conversions, the Lua runtime policy, native-helper
decisions and the generated API documentation. Function contracts say
what is given back, and Verus proves them. Where a result comes from an
outside crate (`mlua`, `regex`, `time`, ...), the contract says what the
library does with it, and the trusted wrapper around the call says what is
claimed of the crate. Where the clock or the machine decides (the current
time, the local UTC offset), the function that reads them states what holds
of every reading, and a function that takes the reading as an argument
(`utc_midnight_micro`, `local_midnight_micro`,
`epoch_micro_to_offset_datetime`) states the result exactly.

## Layout

- `src/base/` — text helpers (trimming, ensuring prefixes and suffixes,
  truncation, marker replacement), line and split utilities, Markdown
  tables, JSONC parsing, file selection (exclude globs, content matchers,
  listing statistics) and time conversions.
- `src/engine/` — the Lua runtime policy and restricted Lua states, dotted
  path installation decisions, the native helper functions (`null`,
  `is_*`, `merge`), handler doc-comment parsing, and the generated API
  documentation (TypeScript-like type expressions from JSON schemas,
  signatures, module blocks).
- `src/error.rs`, `src/error_lua_details.rs` — the library error and Lua
  error details with the annotated source around the failing line.
- `src/lua_exts/`, `src/support/` — messages of the Lua value accessors and
  the calls into `mlua` and `regex`.
- `src/test_support/` — request parsing and response building of a small
  HTTP test server.
- `app/` — ordinary Rust around the library: file and network I/O, async
  serving, installing the native helper functions and values at dotted
  paths in a Lua state, floating-point helpers, and copies of library
  types with `serde` derives.
- `tests/` — tests of the library on concrete values.

Calls into outside crates (`mlua`, `regex`, `aho-corasick`, `jsonc-parser`,
`serde_json`, `simple-fs`, `time`) go through small trusted wrappers whose
doc comments say what their contracts claim.
