# webcrawler

The core of a web crawler for mapping the web attack surface of an
application, written in Verus: the logic is proved against its contracts,
and the network, graph database and HTTP server stay around it.

- `src/` — the verified library: URL normalization and registered domains
  (`url_normalize`), link extraction (`crawler`), URL jobs and their retry,
  deduplication and scoping rules (`job`), the processing of one job as a
  state machine (`feeding`), the crawl API's decisions (`routes`), the idle
  backoff (`poll`) and the API models (`models`). Calls into `url`, `psl`,
  `scraper` and std's Unicode string functions go through small trusted
  wrappers whose contracts are documented where they stand.
- Where a job's links were kept in a `HashMap` keyed by their normalized
  URL and the new ones in `HashSet`s, the library keeps `Vec`s instead and
  states what the map and sets gave as invariants: no two candidates share
  a key (`well_keyed`, the first link of each key kept) and no child pair
  occurs twice (`distinct_pairs`). vstd's specification of `HashMap` and
  `HashSet` gives their contents only for keys that obey its key model, and
  `String` is not among them, so nothing could be proved of a map keyed by
  URL text.
- The state machines (`Feeding`, `CreateCrawl`) keep their well-formedness
  as type invariants over private fields, so a caller never has to re-check
  it between steps.
- `app/` — ordinary Rust around it: the graph queries (neo4rs), page fetching
  (reqwest), the loops that run the state machines, serde copies of the
  models and the axum replies.
- `tests/` — tests of the library on concrete values.
