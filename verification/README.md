# speed_meter

The logic of a desktop network speed meter and usage dashboard, verified with
Verus: network counters turned into transfer rates, traffic attributed to
processes, usage gathered for a SQLite history, data-limit alerts, and a speed
test's sampling and scoring.

- `src/` — the verified library.
  - `traffic.rs`: connection snapshots, per-process traffic between two
    snapshots, proportional scaling to the adapter's byte count, rates.
  - `telemetry.rs`: the adapter meter (counter resets, spikes), crediting a
    tick's traffic, screen time, ping and flush schedules, interface and
    battery readings.
  - `tick.rs`: one second of the telemetry loop as steps on the state it
    carries (adapter reading, attribution, gathering, end of tick and flush).
  - `accumulator.rs`, `tracking.rs`, `keyed.rs`: the keyed state kept between
    ticks (usage per process, process names, armed connections).
  - `speedtest.rs`, `stats.rs`: DNS latency, throughput samples, the trimmed
    mean, and the progress records of each stage.
  - `db.rs`: report periods, retention settings and purge cutoffs.
  - `alerts.rs`, `ui.rs`: data-limit alerts, window toggling and tray menu.
  - `decimal.rs`, `text.rs`, `clock.rs`: integer text, string matching, and
    the wall clock (through `chrono`).
- `app/` — the Tauri shell: commands, tray, hotkeys, Windows system calls,
  SQLite statements and HTTP transfers, calling the library for every decision.
- `tests/` — tests of the library on concrete values.
