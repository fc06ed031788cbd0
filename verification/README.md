# agentsearch

Index and search the sessions of local AI agents (Hermes, Moltis, Nanobot) and markdown
notes, with incremental re-indexing and BM25 search. Which sources are read, and where,
comes from `~/.config/agentsearch/config.toml` or its defaults.

The library under `src/` is written in Verus and proved against its contracts:

- `text` — UTF-8 lengths, cutting text at a byte budget on a character boundary,
  decimal numbers, searching and trimming text.
- `turns` — grouping the messages of a session into chunks, one per user turn.
- `sources` — how each agent's records become chunks and fingerprints (a reader for Pi
  sessions is included; no indexing run uses it).
- `dates` — timestamps read from text through chrono.
- `config` — the configuration and its defaults.
- `catalog` — the sources an indexing run reads.
- `sync` — which items to index again, which to skip, which to drop, and the run's counts.
- `search` — which ranked matches become hits, their snippets, and their grouping by session.

`app/` is the command-line program around it: reading files and databases, the
tantivy index, the SQLite sync state, and printing.

## Adding a source

Write how its records become chunks in `src/sources/`, add it to
`catalog::ConfiguredSource` and `catalog::build_sources` (with its setting), and implement
the `Source` trait (`name`, `scan`, `load`) for it in `app/readers.rs`, where its files or
database are read. The trait lives in `app/` because `scan` and `load` read files and
databases.
