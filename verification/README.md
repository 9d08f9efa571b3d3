# Papervault

Search and viewer for PDF and text files, with tags by hand and by a language
model. The rules of the program are a library that Verus proves; the program
around it does the input and output.

## Layout

- `src/` – the library
  - `tags` – the tag store: documents, tags, auto-tag status, token cache
  - `auto_tagger` – circuit breaker, prompt and reply of DeepSeek, names and
    tokens, the tagging worker
  - `indexer` – the text of files, content hashes, the indexing pipeline
  - `search` – schema, queries, results and what goes into the index
  - `browser`, `preview`, `session`, `tag_view`, `window`, `actions` – what the
    window shows and what a click does
  - `config`, `logging`, `messages`, `paths`, `tray`, `watcher`, `error` – the rest
    of the program's rules
  - `text`, `times`, `order`, `json` – texts, times as texts, stable sorting, JSON values
- `app/` – the program: files and their PDF pages, SQLite, the index on disk, threads,
  HTTP, pdfium, egui
- `tests/` – tests of the library

## What is trusted

Calls of other crates stand behind small functions whose contracts are believed,
each with a comment that names the call: `blake3` for content hashes, `chrono` for
times, `serde_json` for JSON values, `tantivy` for the search index, and a few
functions of the standard library.
