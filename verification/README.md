# lean_ctx

Verified core logic of the lean-ctx context server, written in Verus.

`src/` is the library. Its functions are verified against their contracts,
except a few small trusted wrappers (`#[verifier::external_body]`) around
std and serde_json calls, whose contracts are taken as given:

- `jsonc` — comment stripping for JSON with comments, then parsing with serde_json.
- `sanitizer` — removal of degenerate output lines (CJK artifacts, symbol floods)
  and ASCII replacements for dense Unicode symbols.
- `relevance` — keyword and query-term extraction, budgeted selection, the
  bounded keyword index with oldest-first eviction.
- `introspect` — per-provider token breakdown of LLM request bodies, and the
  cumulative introspection state.
- `roots` — `file://` URI decoding and project-root choice.
- `config_heal` — the relocation plan for a stray `config.toml`.
- `tool_visibility` — the `tools/list` visibility policy.
- `dashboard` — dispatch of the dashboard endpoints, request checks of the
  overlay and policy endpoints, and the team ROI decisions.
- `ocla` — what an `ocla` command line asks for.

Public proof functions named `law_*` state properties that relate several
calls or hold of every input.

`app/` holds what cannot be verified: file and network I/O, the clock, the
command-line parser, serde conversions, lock polling, and the floating-point
BM25 scoring of the relevance tracker.
