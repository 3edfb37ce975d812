# allayindexer

The indexer behind AllayHub: it finds Nukkit plugins on GitHub and turns each repository's
`plugin.yml`, README, releases and git tree into an index entry in the index directory.
The command line offers `discover`; the decisions of an update run (which entries are
still to visit, what progress is kept) are in the library.

- `src/` is the library, verified with Verus. It covers the GitHub client's decisions
  (retries, rate limits, token reuse, response caching, URL building and encoding),
  search grouping, paging and deduplication, the cache file's gzip framing, the app's
  JWT, README post-processing (image and link
  rewriting, gallery collection), license and icon resolution, the conversion of a
  `plugin.yml` into an index entry, identifier splitting for search, and the saved
  progress files.
- `app/` is the `allayindexer` command line: argument handling, logging, HTTP over
  `ureq`, JSON/YAML parsing with serde, the postcard encoding and the reading and writing
  of the cache file, the clock, and the threads
  that process repositories in parallel.
- `tests/` holds the tests of the library.
