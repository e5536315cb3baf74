# gendesk

The verified core of GenDesk, a desktop tool that runs batches of
image-to-image generation: prompt documents are imported into groups,
every reference image attached to a group is combined with each prompt,
and a scheduler sends the resulting tasks to the configured API keys,
retrying, cooling keys down and pausing the queue by fixed rules.

Layout:

- `src/` — the library, checked by Verus.
  - `importer/` — decoding and parsing prompt documents (`syntax`: line
    grammar, `model`: the parse as a specification, `parse`: the parser,
    `stem`: file-name cleanup, `laws`: properties of every parse).
  - `engine/` — the task status machine, error classes and retry policy,
    back-off, key scheduling state and the queue breaker (`dispatch`),
    batch expansion (`batch`), the key assignment of a dispatch round
    (`queue`), progress estimation, events, key loading.
  - `files/` — data layout, output naming, `YYMMDD` dates, content
    fingerprints, the JPEG header scan and scaled decoding, and the
    thumbnail, upload-copy and preview bytes (`thumb`).
  - `db/` — rows the engine reads, startup decisions (backup before the
    destructive migration, explanation of a refused database, recovery of
    interrupted exports), batch retirement, restoring works.
  - `format.rs`, `text.rs` — number rendering and character helpers.
- `tests/` — tests of the library.
- `app/` — the desktop side: SQLite queries, file I/O, credential lookups,
  the asynchronous scheduler loop, and the error type as sent to the UI.
