# kanji_etymology

The verified core of a kanji etymology dictionary for Korean learners of
Japanese, written in Verus.

- `src/` — the library, every function with a contract proved by Verus:
  content files (`frontmatter`, `schema`, `pipeline`), the search index and
  its search (`index`, `keyed`, `search`, `kana`), the KANJIDIC2 importer
  (`kanjidic`, `skeleton`, `import`), the command line (`cli`), the feedback
  proxy's rules and request flow (`feedback`, `feedback_flow`) and the web
  pages' decisions (`web`), on top of a small string toolkit (`text`).
- `tests/` — example-based tests of the library.
- `app/` — the `build-data` program (file reading and writing, YAML and JSON),
  the Cloudflare Worker glue of the feedback proxy and the web app's data
  fetching; each defers its decisions to the library.
