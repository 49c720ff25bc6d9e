# almagest

The logic of Almagest — dashboards as files — as a verified Rust library.

- `src/` is the library, verified with Verus: the dashboard DSL and its
  validation, typed parameters and SQL substitution, date-range presets, URL
  state and its round trip, value formatting (the exact, integer parts),
  sessions, CSRF and the login throttle, the `.alm` format's migrations and
  records, the importers' decisions, and the HTTP handlers' decisions.
  Outside crates (chrono, base64, hmac/sha2, argon2, serde_json, uuid,
  mime_guess) are reached through small trusted wrappers whose contracts say
  what each call returns.
- `tests/` runs the library on concrete values.
- `app/` holds what the library leaves out: serde forms of its types, float
  rendering of display formats, and terminal output.
