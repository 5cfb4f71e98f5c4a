# progscrape

The library behind a programming-news aggregator, written in Verus: each function carries a
contract that the verifier proves.

- `src/` is the verified library:
  - page scrapers for Hacker News and Slashdot (`hacker_news`, `slashdot`, over the HTML model of
    `dom`), Lobsters (`lobsters`, over the XML model of `xml`) and Reddit (`reddit`, over the JSON
    model of `json`);
  - URLs and their normalization (`url`, `urlnormalizer`), story identifiers (`story_id`), dates
    and durations (`date`), title cleanup (`html`, `titletrimmer`), tagging (`tagger`, `tagset`),
    search queries (`query`), what a story takes from its scrapes (`story`);
  - the gathering of scrapes into stories before they are indexed, and what indexing a story
    comes to: adding its scrape identifiers to a story found near its date, or inserting it
    (`memindex`), with the batching of the stories and scrapes written while indexing; the terms
    of a story's score that a scrape's fields decide (`scoring`); the summary of a backed-up shard and whether it needs writing again
    (`backup`);
  - scrape sources, configuration and the dispatch of a fetched page to its scraper (`source`,
    `scrapers`), the month shards of the story store
    (`shard`), persistence bookkeeping (`persist`), the job schedule (`cron`), the bounded
    collector of the best stories (`collector`), template filters (`filters`), the registry of
    static files served under the hash of their contents (`static_files`), and the reading of the
    archives of the earlier site (`legacy`);
  - `text` holds the character-sequence helpers the others share.
- `tests/` exercises the library.
- `app/` is a command-line front end: it reads configuration, saved pages, compressed archives and
  directories of static files, and totals story scores (floating point, which the library does
  not hold) from the library's score terms.

Outside crates (`url`, `urlnorm`, `regex`, `base64`, `chrono`, `serde_json`, `roxmltree`, `tl`,
`rand`, `sha2`, `infer`) are called from the library through small trusted wrappers whose
contracts state what the crates document. `app/` also uses `serde` and `flate2`.
