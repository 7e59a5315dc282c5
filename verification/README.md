# checkbox_frontend

The core of a collaborative checkbox grid that also broadcasts a Doom screen
through SpacetimeDB, written in Verus: each function states what it does in
`requires`/`ensures`, and Verus proves it.

- `src/` — the verified library: chunk coordinates (`grid`), chunk
  decompression (`compression`), checkbox cells and the local chunk store
  (`cells`), line drawing (`line`), Doom frame deltas and snapshots (`frames`,
  `doom`), message framing between server, worker and main thread (`wire`,
  `le`), the client session and its reactions to server messages (`session`),
  bookmark queries (`bookmark`), hex colours (`color`) and small helpers
  (`status`, `endpoint`, `protocol`).
- `tests/` — tests of the library on concrete values.
- `app/` — the browser front end, the networking worker and the SpacetimeDB
  module: DOM, WebGL, websockets, timers, JSON and the database tables, handing
  plain values to the library.

Calls into brotli, flate2 and SpacetimeDB's BSATN codec are made through small
trusted wrappers: the bytes of a client message are stated in full, while what
decompression and message decoding yield is named as a function of the input
bytes.
