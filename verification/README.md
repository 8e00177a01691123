# bitkit

Width-aware bit manipulation, and the verified core of `browser-control`, a
small command line that drives a browser over the Chrome DevTools Protocol.

The library under `src/` is written in Verus: every function carries a
contract over a mathematical model, and Verus proves the code against it.

- Bits: `bitspec` (words as naturals, bit extract/deposit), `accel`
  (gather/scatter), `morton` (Z-order keys), `align`, `bytes`, `format`,
  `explain`, and `Flags` / `BitError` in the crate root.
- Browser control: `cdp` (target choice, endpoint discovery, exception
  messages), `netidle` (in-flight requests and the network-idle decision),
  `daemon` (event rings, page activity, daemon commands), `actions` (input
  parsing), `js` (injected scripts), `cloud` (provider presets and
  overrides), `lifecycle`, `workspace`, `report`, `cli`, `output`.
- `text` and `json` hold the character-level helpers the rest builds on.

`app/` is the command-line program: argument parsing, the WebSocket and HTTP
clients, the daemon's socket loop, processes and files. It hands plain values
to the library and acts on what comes back.
