# llmfit_core

Header introspection for GGUF model files, remote inspection of such headers
over HTTP range requests, and the planning rules (quantization names, model
selection, server command lines) built on them. The library is verified with
Verus: every public function carries a contract, and the properties that span
functions are stated and proved as lemmas.

## Layout

- `src/` — the verified library.
  - `format.rs` — the GGUF header layout as a specification over bytes, and
    the law that bytes after a settled outcome are never read.
  - `passed_over.rs` — what the reader looks at: skipped payloads are never
    read, and a header's length is exact.
  - `header.rs` — the executable reader, proved against `format.rs`; metadata
    is a type whose invariant keeps one entry per key, in key order.
  - `scan.rs` — reading a header from a stream one decision at a time: how
    far to read ahead, where to resume after a passed-over payload, and when
    to stop.
  - `ggml.rs`, `value.rs` — tensor element types and metadata values.
  - `summary_spec.rs`, `summary.rs` — the model summary (weights, quant mix,
    component split, layer runs, KV cache size) and its laws.
  - `remote.rs` — resolve URLs, redirects, `Content-Range`, repository file
    choice, and the state machine of a lazily fetched byte window.
  - `plan.rs` — run paths, quantization names, model selection, server
    command lines.
  - `text.rs` — character-level helpers with their specifications.
- `tests/` — executable tests of the library.
- `app/` — the unverified runtime: file and network access (through `ureq`)
  driven by the library's decisions, serialisable copies of the summary types
  (through `serde`), and the two computations that need floating point: the
  KV cache size in GiB and the fit grade of a run path.
