# zcode_usage

The data layer of a desktop usage widget for the ZCode CLI, with its logic verified by
Verus: log scanning and session statistics, task merging, plan-quota parsing, request
signing, the dashboard page reader, the background refresh decisions and the caches.

- `src/` — the verified library (one module per concern; each public function states
  its result in `ensures`, and the `law_*` proof functions state properties that span
  several calls).
- `tests/` — tests on concrete values.
- `app/` — the desktop program around the library: window, IPC commands, file,
  database and network access, JSON rendering, and the floating-point display values.
