# usage_tracker

The verified core of a menu-bar usage tracker for a coding agent: the
engine that installs and removes the app's telemetry configuration in the
agent's `settings.json`, the parsers for session transcripts and OTLP log
events, and the decision procedures around them (health diagnosis, backfill
planning, query facets, calendar windows, tray and onboarding state).

- `src/` is the library, written in Verus. Every function carries a
  contract over mathematical models (`Seq`, `Map`-like entry lists, `int`),
  and the properties that span several calls are stated and proved as
  `law_*` proof functions (`merge_laws.rs`, `collapse_laws.rs`,
  `parse_laws.rs`, and beside the functions they concern).
- Calls into `serde_json`, `similar` and `chrono` stand behind small
  trusted wrappers whose contracts say what those crates document.
- `tests/` runs the library on concrete inputs.
- `app/` is the unverified edge: file and clock access, the floating-point
  pricing and budget arithmetic, and serializable copies of library types.
