# gremlin

A terminal browser for the Gemini protocol. The library under `src/` holds
what the browser decides, proved with Verus; `app/` is the terminal program
around it.

- `src/text.rs` — character operations (whitespace, trimming, splitting,
  joining, prefix and suffix removal) with their specifications.
- `src/parser/` — text/gemini pages: styling each line, numbering links,
  finding the address of the selected link.
- `src/networking/` — addresses (`UrlParsed`), Gemini status lines and
  responses, the built-in help page, DNS names (through webpki) and HTML
  tag removal (through voca_rs).
- `src/interface/input.rs` — which key presses mean which commands.
- `src/state/` — the browsing state and how each command changes it.
- `src/laws.rs` — properties across these operations (history moves undo each
  other, one selected link per page, keyboard and browser modes agree, ...).
- `app/` — keyboard thread, TLS/TCP, files, HTTPS and drawing with tui.
