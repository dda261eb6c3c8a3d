# shellbooks

A terminal audiobook player and library manager. The library logic lives in
`src/` and is verified with Verus; the terminal front end, audio output, tag
reading and file I/O live in `app/`.

- `src/library.rs`: books, progress, import planning, rescans, deletion,
  book ids and cover resolution.
- `src/chapters.rs`, `src/metadata.rs`: chapter lists and tag application.
- `src/app.rs`, `src/list.rs`, `src/browser.rs`: key handling and selection
  state of the library view and the file browser.
- `src/text.rs`, `src/paths.rs`, `src/sort.rs`: string, path and sorting
  helpers with their specifications.
- `tests/`: scenario tests run against the compiled library.
