# sentinel_reporter

Audits the CSV log of a genetic trading-strategy optimizer and writes a
Markdown report with inline SVG charts, a 0–100 risk score and training advice;
it can watch the log and rewrite the report whenever it changes, and serve a
live web dashboard.

Layout:

- `src/` — the verified library (Verus): decoding of the log (CSV bytes through
  the csv crate, then each row: counts, status,
  timestamps, error reporting), session bookkeeping (record entries, latest
  record, full and incremental reads), risk-score combination and bands, the
  fixed report texts and chart placeholders, the dashboard layout, and the
  watcher's decision step. Real-valued metrics are carried as a type parameter
  and never computed with here.
- `app/` — the command-line program: file and network I/O, the watch loop, the
  web dashboard, and all floating-point metric arithmetic (trends, criteria,
  risk contributions, statistics, plotted charts, the full report).
- `tests/` — tests of the library.
