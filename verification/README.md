# rapla_ical_proxy

Calendar overlays for Rapla class schedules, verified with Verus.

- `src/` is the verified library:
  - `text.rs`: decimal rendering with zero padding;
  - `calendar.rs`: dates, times, events and calendars, and their `%Y-%m-%d` / `%H:%M` texts;
  - `db.rs`: stored calendars and overlay deltas, and the names of delta kinds;
  - `overlay.rs`: match keys, reading overlay events (through chrono), and the merge of deltas into a calendar, with its laws;
  - `api.rs`: listing entries, feed links, delta requests and responses, Basic credentials (through base64);
  - `web.rs`: the asset path of a request under `/web/`.
- `app/` is the HTTP server around it: axum routes, the SQLite store, JSON forms of the library's types, embedded assets.
- `tests/` exercises the library on concrete values, partly against chrono, base64 and std.
