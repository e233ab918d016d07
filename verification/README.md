# hyperlit

Extracts documentation written in source code comments and markdown files, keeps it in
a document store, searches it, and serves it over HTTP.

The library under `src/` is verified with Verus: the public functions state in their
contracts what they return (the shutdown flag of a server handle, shared with other
threads, is the exception), and the laws of the library (what a store gives back after an
insertion, the order of search results, the distinctness of extracted document
identifiers, what undoes an edit, ...) are proof functions.

- `text`, `strmap`, `path`: strings, string maps and file paths as sequences of characters.
- `document`, `store`, `search`, `scan_search`, `site`: documents, their storage and search.
- `extractor`, `highlight`, `comment`, `ranges`, `tags`, `template`: reading documents out
  of markdown files and source code comments; `highlight` runs syntect line by line.
- `config`, `scanner`, `glob`, `watcher`, `edit`: configuration, finding files, reacting to
  changes, editing files.
- `http`, `sse`, `api`, `document_service`, `pal`: the HTTP types, server-sent events, the
  API services and the platform layer's computations.
- `error`, `ids`, `cli`: errors, unique identifiers, command line arguments.

`app/` holds the program around the library: argument parsing, file system access, the
HTTP server thread and logging. `tests/` holds the tests.
