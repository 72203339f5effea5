# manatan

The Manatan launcher: it settles on a data directory, gathers loose local
manga archives into one folder per title, starts the Suwayomi server and
serves the web interface, with a fallback that serves downloaded chapters
straight from disk and middleware that fixes page lists and page images.

The decisions of the launcher live in a library verified with Verus:

- `src/endpoints.rs`: the manga API routes, their parsing and the page cache
  parameter.
- `src/pages.rs`: rewriting of page URLs in page lists, and the page lists of
  downloaded chapters.
- `src/names.rs`, `src/titles.rs`, `src/archives.rs`: archive entries, titles
  and folder names of local manga, and how archives are gathered per title.
- `src/natural.rs`: the natural order of names and a stable sort by it.
- `src/media.rs`, `src/serving.rs`: content types and the web front.
- `src/launcher.rs`, `src/plans.rs`, `src/updates.rs`: option values, process
  and file checks, migration plans, the chapter folder search, the runtime
  bridge preflight and the update status.
- `src/text.rs`, `src/numbers.rs`: text and number helpers with their models.

`app/` is the program around the library: command line, file system, HTTP
server, child process and update downloads. `tests/` exercises the library.
