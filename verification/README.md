# tor_router

A daemon that runs SOCKS5 listeners, each routed through a Tor instance that
exits in a chosen country, with a web panel and a command-line client to
manage the routes. The daemon keeps the fastest instance per route, swapping
in a new one when it answers faster.

The decisions and text formats of the daemon form a library verified with
Verus; the program around it does the I/O.

## Layout

- `src/` — the verified library.
  - `text.rs`: decimal and hexadecimal text, trimming, number parsing.
  - `config.rs`: route and settings records, their database rows, and the
    law that settings read back as they were saved.
  - `routes.rs`: route administration (create, edit, delete, restart marks).
  - `reconcile.rs`: the reload plan that brings the running routes in line
    with the database, and its laws.
  - `socks5.rs`: the SOCKS5 server handshake as a step function.
  - `status.rs`: the status entries the panel shows.
  - `session.rs`: login, signed session tokens, the session cookie and check.
  - `panel.rs`: panel addresses, how the panel is served, and the
    command-line menu's dialogues.
  - `countries.rs`: the exit-country list.
  - `tor.rs`: Tor instance configuration and the worker's decisions.
  - `router.rs`, `daemon.rs`: listener slots, restart signals, the log.
- `tests/` — tests of the library, run against the real outside crates.
- `app/` — the executable: argument handling, SQLite storage, the HTTP API,
  Tor processes, the listeners and the interactive menu.
