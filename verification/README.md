# seck

Analysis of untrusted files by a sandboxed local model. The untrusted bytes
stay behind an IO boundary: the host hands them to an in-sandbox reader over
a framed pipe, the reader wraps them in nonce-delimited markers for the
model, and a trace checker confirms on real runs that no tainted byte
reached a path, an exec, the network, or any descriptor but the two pipes.

## Layout

- `src/` — the library, verified with Verus. Each module states its
  behaviour in `requires`/`ensures` over mathematical models (`Seq`, `Set`,
  spec functions) and proves it:
  - `reader` (wire format, field-by-field stream reading, prompt, reader
    session), `reader_ipc` and
    `reader_priv` (the split reader's messages and prompt), `proto`;
  - `pipeline` (analyst, auditor, judge; per-pass seeds), run through a
    `plugin::Recorded` backend that records each request it is sent and
    each answer it gives;
  - `report` (schema, sanitizer, terminal renderer), `tui` (viewer state);
  - `trace_check` (strace parser, IO-boundary checker);
  - `sandbox` (profile identities, container argv and runtime choice);
  - `web` (bind check, single-use token, HTML, headers), `pair`, `net`;
  - `text`, `codec`, `json` — shared character helpers, the encodings, and
    what JSON text holds under a named member.
  Calls into `sha3`, `hex`, `base64`, `html-escape`, `rand`, `x25519-dalek`,
  `qrcode` and `serde_json` stand behind small trusted functions whose
  contracts say what those crates return.
- `tests/` — tests against the compiled library.
- `app/` — the programs around it: file descriptors, processes, the
  platform sandboxes' system calls, serialisation, the web server, the
  terminal UI and the desktop portal.
