# kedu

An application-level resource monitor for macOS terminals: a background
service samples CPU, memory, disk and network use per process, gathers the
processes into applications and keeps a bounded history; a terminal client
subscribes to the service and draws the history as stacked charts.

## Layout

- `src/` — the library, verified with Verus:
  - `collector/` — application identity (the first, outermost `.app`
    bundle of a path, inherited from ancestors), per-scan baselines, grouping of processes into
    applications, `nettop` row parsing and network deltas, merging network
    rates into snapshots.
  - `config.rs` — settings, defaults and validation.
  - `history.rs` — the bounded history (by age and by count).
  - `daemon.rs` — zeroing of disabled metrics.
  - `launchd.rs` — `launchctl` output parsing, LaunchAgent property list.
  - `tui.rs` — the terminal client's state machine: selection, hovering,
    the chart's window (one sample per column: the newest samples while
    live, frozen and panned in a history view), trimming, key and mouse
    handling.
  - `text.rs` — character-level text helpers used by the parsers.
- `app/` — the program around the library: command line, configuration
  file, SQLite persistence, Unix socket, libproc and `nettop` calls,
  floating-point rates, and drawing with ratatui.
- `tests/` — tests of the library.
