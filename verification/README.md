# tether

The logic of a self-hosted web terminal controller (password login, sessions and rate
limiting, tmux pane mirroring, pseudo-terminal bookkeeping, the WebSocket bridge and the
HTTP access rules), written in Verus with its contracts proved.

Layout:

- `src/auth.rs`, `src/auth_laws.rs`: Argon2 password check, sessions that expire after seven
  days, five failed logins per address per ten-minute window; the laws that tie them together.
- `src/parse.rs`, `src/text.rs`: line, field and number parsing of command output, string
  building, hexadecimal and decimal rendering.
- `src/tmux.rs`, `src/mirror.rs`: tmux pane listings, discovery of terminals, mirror state,
  subscriber lists.
- `src/pty.rs`, `src/registry.rs`, `src/fanout.rs`: the terminal table, a string-keyed table
  that can list its keys, subscriber pruning.
- `src/bridge.rs`: what each WebSocket or terminal event leads to.
- `src/web.rs`: access to routes, login replies, cookies, addresses, assets, QR codes.
- `app/`: the program around the library (command line, axum server, threads, system calls).
- `tests/`: tests of the library.
