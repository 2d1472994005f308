# timeline

A local activity timeline for Windows: it records which application is in the
foreground, which browser tab is active and whether the user is active, idle,
locked or paused, keeps daily usage rollups in SQLite and serves a local web UI.

The library in `src/` holds the project's rules and computations, each function
with a contract proved by Verus:

- `text`, `paths`, `clock`: character sequences, Windows path text, and calendar
  conversions (through the `time` crate).
- `zone`: local dates of instants and the split of intervals at local midnights
  (fixed offsets or tables of local midnights with 23- and 25-hour days).
- `segments`: heartbeats and closing of segments, the day view, and intersections
  with active presence.
- `rollup`, `stats`, `trend`: daily usage rollups and their rebuilds, day
  summaries, the month calendar, focus statistics, active switches and the usage
  trend.
- `tracker`, `state`, `window`, `model`: the collectors' decisions for windows,
  presence (locked, idle or active) and browser events, pausing, and break
  reminders.
- `config`, `agent_config`, `cli`: configuration defaults, validation, path
  resolution and command-line options.
- `api`: request validation and normalization of the HTTP API.
- `export`: CSV records, CRC-32 and the stored ZIP archive of an export.
- `updater`: the self-updater's arguments, release selection and health checks.

`app/` is the executable around it: configuration files, the SQLite store, the
HTTP server, the collectors' loops and the updater's downloads. Its raw Win32
readings (foreground window, input desktop, last input, dynamic time zone) need
the Windows bindings, which this build does not link; there they report the
platform as unsupported. `tests/` exercises
the library.
