# Aster

Aster is a natural, history-first shell completion system. It would rather show
nothing than offer a completion it cannot justify.

The library under `src/` holds every rule that decides what is suggested,
recorded, parsed or rendered. It is written in Verus: each function states what
it does in its contract, and the laws that span functions stand beside them as
proof functions.

- `text`, `number`, `order`, `paths`, `records`: characters, numerals, orders,
  paths and streams.
- `store`: the shared history, kept in SQLite through `rusqlite`.
- `commands`: installed commands, what their manuals and help texts say, and the
  cache of it.
- `engine`: completions, path candidates, fuzzy search and segments.
- `protocol`, `client`, `daemon`: what shells and the daemon say to each other.
- `output`, `preview`, `integration`: what shells are given to show and to load.
- `config`: settings and the places of files.

The program under `app/` drives the library: it parses the command line, reads
and writes files and sockets, starts processes and keeps time.

What the library believes without proof of `rusqlite`, of `anyhow` and of the
standard library stands in `store/database.rs`, `text.rs`, `number.rs` and
`preview/file.rs`.
