# ptu

A port and socket inspection tool (`ptu list`, `ptu get port`, `ptu get pid`)
whose logic is a library verified with Verus.

- `src/` — the verified library.
  - `text.rs`, `number.rs`: characters, lines, words, trimming, searching;
    reading and writing unsigned numbers, each against a model over `Seq<char>`.
  - `model/`: sockets, processes and filters with their views; the socket
    table (drawn by `tabled`) and the process report.
  - `platform/`: turning a snapshot of the system into sockets and processes —
    `/proc/net/{tcp,udp}[6]` and `/proc/<pid>` on Linux, the output of `lsof`
    and `ps` on macOS — and the filters.
  - `commands/`: the `list` and `get` commands, producing a report to print.
  - `cli.rs`: the commands and their options.
  - `laws.rs`: properties of the whole, proved.
- `app/` — the program: argument parsing (clap), reading `/proc` or running
  `lsof`/`ps` into a snapshot, JSON output (serde), printing.
- `tests/` — tests of the library on fixed snapshots.
