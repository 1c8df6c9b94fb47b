# sentinel (Dropper DNS shield core)

A Verus-verified library for Dropper, a local DNS shield: the URLhaus
blocklist and Tranco popular-domain allowlist tables, the Tranco CSV parser,
the user allow-list (allow once / allow forever / forget, with its sorted
persisted form), the operational error catalogue, and the HTML-escaping
block-page renderer.

- `src/` — the verified library. Every public function carries a contract;
  the `law_*` proof functions state properties that span several calls.
- `tests/` — executable tests of the library.
- `app/` — the service around it: command line, tokio runtime, axum
  block-page server, HTTP feed downloads, TOML persistence on disk.
