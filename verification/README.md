# uad

The decision logic of a debloating tool for Android devices, verified with
Verus.

- `src/label.rs`: readable labels derived from package ids
  (`com.google.android.youtube.tv` reads `YouTube (TV)`), with the laws that
  the top-level domain and generic segments never matter, that ids with
  nothing meaningful fall back to their last segment, and that title-casing
  is idempotent where Unicode casing behaves.
- `src/package_row.rs`: what one row of the apps list shows and allows.
- `src/config.rs`: the configuration (general, per-device, filters, last
  device) and how each save changes it, with read-back and frame laws.
- `src/ai.rs`: the AI enrichment prompt, which answers are kept, how
  lookups are batched and merged (the last lookup of a package wins), and
  trimming of chat replies.
- `src/lists.rs`: the package classifications.
- `src/text.rs`: character helpers and the std character functions used.
- `app/`: file, environment and network access around the library.
