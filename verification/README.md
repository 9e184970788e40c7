# sl_studio

The verified core of SL Studio, a workbench for forensic analysis of document
collections: evidence files are registered by fingerprint, their text is
extracted, a language model turns the text into facts, and the facts are
searched, tagged, linked into evidence chains and exported.

## Layout

- `src/` — the library, written in Verus. Every public function carries a
  contract over mathematical models (`Seq`, `Set`, spec functions), proved by
  Verus. Modules:
  - `registry` — content and change fingerprints (SHA-256, hex), the priority
    a rescan gives a file, file types, scan progress.
  - `search`, `sql` — full-text query normalisation and the SQL text of the
    search, tag and timeline screens; `LIKE` escaping.
  - `tags`, `csv` — tag columns and CSV fields.
  - `chains` — evidence-chain detection and chain suggestions.
  - `compare`, `backup` — comparing two projects; backup and restore routing.
  - `batch`, `workflow` — the decisions of batch extraction and analysis, and
    the lock that lets one long operation run at a time.
  - `models`, `config`, `report`, `migrations`, `schema`, `presets`, `dedup`.
- `tests/` — tests run against the compiled library.
- `app/` — the application around the library: SQLite, file system,
  network, PDF rendering, JSON, and the statistics that compute in floating
  point.
