# dvop

The logic of the Dvop editor as a Verus-verified library: extension
manifests and their validation, the built-in extensions and their saved
state, code-completion data and suggestions, snippet expansion, import
detection, the debugger session and its GDB commands, Rust project
detection, the tab bookkeeping of the editor, the audio player registry,
and a file-content cache. Public functions have contracts saying what
they return or change; where an answer depends on the disk (whether a
manifest exists, what a file holds), the disk's answers are handed in as
values or closures and the contract is stated over them. Laws that relate
several calls are stated as lemmas.

## Layout

- `src/` — the verified library.
  - `text.rs`, `paths.rs`, `lexical.rs` — string and path helpers, and the
    trusted wrappers around the few `str`, `char` and `Path` functions of
    std (their ASCII cases are stated; Unicode tables and path splitting
    are named, not restated).
  - `extensions/` — manifests, validation, built-in extensions, the
    extension manager, hooks, Rust completion and diagnostics.
  - `completion/` — completion data, the suggestion list, snippet
    expansion, import contexts and import paths.
  - `debugger/` — the session state machine, GDB command lines, output
    parsing, Cargo metadata and project detection, the panel's decisions.
  - `handlers.rs` — which page shows which file, tab labels, shortcuts.
  - `audio.rs`, `file_cache.rs` — music detection, the player registry,
    and the file-content cache.
- `tests/` — tests run against the compiled library.
- `app/` — the unverified glue: global state, files, processes and JSON
  (serde), handing plain values to the library.

Outside crates called from `src/` sit behind trusted wrappers whose doc
comments say what is assumed: `regex`, `serde_json`, `toml` and `home`.
