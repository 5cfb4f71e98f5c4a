use progscrape::scrapers::{
    FeedConfig, HackerNewsConfig, LobstersConfig, RedditConfig, ScrapeConfig, ScrapeConfigSource,
    debug_scrape_error, ScrapeError, ScrapeExtractor, ScraperHttpResponseInput, ScraperHttpResult, Scrapers, SlashdotConfig,
    SubredditConfig, TypedScrape, WebScrapeHttpResult, WebScrapeURLResult, WebScraper,
};
use progscrape::source::ScrapeSource;

fn strs(v: &[&str]) -> Vec<String> {
    v.iter().map(|x| x.to_string()).collect()
}

fn config() -> ScrapeConfig {
    let sub = SubredditConfig { is_tag: false, flair_is_tag: false };
    ScrapeConfig {
        hacker_news: HackerNewsConfig {
            homepage: "https://news.ycombinator.com/".to_owned(),
            pages: strs(&["", "news?p=2"]),
        },
        slashdot: SlashdotConfig { homepage: "https://slashdot.org/".to_owned() },
        lobsters: LobstersConfig { feed: "https://lobste.rs/rss".to_owned(), tag_denylist: vec![] },
        reddit: RedditConfig {
            api: "https://www.reddit.com/r/${subreddits}.json".to_owned(),
            subreddit_batch: 2,
            limit: 100,
            subreddits: vec![
                ("rust".to_owned(), sub),
                ("golang".to_owned(), sub),
                ("programming".to_owned(), sub),
            ],
        },
        feed: FeedConfig {},
    }
}

#[test]
fn reddit_urls_come_in_batches() {
    let c = config();
    assert_eq!(c.reddit.subsources(), strs(&["rust", "golang", "programming"]));
    assert_eq!(
        c.reddit.provide_urls(c.reddit.subsources()),
        strs(&[
            "https://www.reddit.com/r/rust+golang.json?limit=100",
            "https://www.reddit.com/r/programming.json?limit=100",
        ])
    );
    assert_eq!(c.reddit.provide_urls(vec![]).len(), 0);
}

#[test]
fn fixed_page_sources_fetch_their_pages() {
    let c = config();
    assert_eq!(
        c.hacker_news.provide_urls(vec![]),
        strs(&["https://news.ycombinator.com/", "https://news.ycombinator.com/news?p=2"])
    );
    assert_eq!(c.slashdot.provide_urls(vec![]), strs(&["https://slashdot.org/"]));
    assert_eq!(c.lobsters.provide_urls(vec![]), strs(&["https://lobste.rs/rss"]));
    assert_eq!(c.feed.provide_urls(vec![]).len(), 0);
    assert_eq!(c.hacker_news.subsources().len(), 0);
}

#[test]
fn scrapers_list_every_source_with_its_subsources() {
    let scrapers = Scrapers::new(&config());
    let poss = scrapers.compute_scrape_possibilities();
    let sources: Vec<ScrapeSource> = poss.scrapes.iter().map(|x| x.0).collect();
    assert_eq!(sources, ScrapeSource::all());
    assert_eq!(poss.scrapes[3].1, strs(&["rust", "golang", "programming"]));
    assert_eq!(scrapers.compute_scrape_subsources(ScrapeSource::Other).len(), 0);
    assert_eq!(
        scrapers.compute_scrape_url_demands(ScrapeSource::Reddit, strs(&["a"])),
        strs(&["https://www.reddit.com/r/a.json?limit=100"])
    );
    assert_eq!(scrapers.compute_scrape_url_demands(ScrapeSource::Other, strs(&["a"])).len(), 0);
    let _extractor = ScrapeExtractor::new(&config());
}

#[test]
fn http_results_keep_the_page_or_the_error() {
    let scrapers = Scrapers::new(&config());
    let page = r#"<rss><channel><item><title>A</title><guid>https://lobste.rs/s/abc</guid><link>https://example.com/a</link><pubDate>Sat, 26 Oct 2024 14:38:11 +0000</pubDate></item></channel></rss>"#;
    match scrapers.scrape_http_result(ScrapeSource::Lobsters, ScraperHttpResponseInput::Fetched(page.to_owned())) {
        Some(ScraperHttpResult::Scraped(body, scrapes)) => {
            assert_eq!(body, page);
            assert_eq!(scrapes.len(), 1);
            assert_eq!(scrapes[0].source(), ScrapeSource::Lobsters);
            assert_eq!(scrapes[0].title(), "A");
            match &scrapes[0] {
                TypedScrape::Lobsters(s) => assert_eq!((s.id.as_str(), s.position, s.score, s.num_comments), ("abc", 1, 0, 0)),
                _ => panic!("expected a Lobsters story"),
            }
        }
        _ => panic!("expected scrapes"),
    }
    match scrapers.scrape_http_result(ScrapeSource::Lobsters, ScraperHttpResponseInput::Fetched("<rss".to_owned())) {
        Some(ScraperHttpResult::Failed(ScraperHttpResponseInput::Fetched(body), msg)) => {
            assert_eq!(body, "<rss");
            assert!(msg.starts_with("Xml("));
        }
        _ => panic!("expected a scrape error"),
    }
    match scrapers.scrape_http_result(ScrapeSource::Reddit, ScraperHttpResponseInput::Fetched("[1]".to_owned())) {
        Some(ScraperHttpResult::Failed(_, msg)) => assert_eq!(msg, "StructureError(\"Failed to parse Reddit JSON\")"),
        _ => panic!("expected a structure error"),
    }
    assert!(scrapers.scrape_http_result(ScrapeSource::Reddit, ScraperHttpResponseInput::Fetched("{}".to_owned())).is_none());
    match scrapers.scrape_http_result(
        ScrapeSource::Other,
        ScraperHttpResponseInput::HTTPError(404, "gone".to_owned()),
    ) {
        Some(ScraperHttpResult::Failed(ScraperHttpResponseInput::HTTPError(code, body), msg)) => {
            assert_eq!(code, 404);
            assert_eq!(body, "gone");
            assert_eq!(msg, "HTTP Error");
        }
        _ => panic!("expected an HTTP error"),
    }
    match WebScraper::scrape::<u32>(
        &config(),
        ScrapeSource::Lobsters,
        WebScrapeHttpResult::Fetched("<rss/>".to_owned()),
        Err("XML parse error".to_owned()),
    ) {
        WebScrapeURLResult::Failed(WebScrapeHttpResult::Fetched(body), msg) => {
            assert_eq!(body, "<rss/>");
            assert_eq!(msg, "XML parse error");
        }
        _ => panic!("expected a scrape error"),
    }
    assert_eq!(WebScraper::compute_all_scrapes(&config()).scrapes.len(), 5);
    assert_eq!(
        WebScraper::compute_urls(&config(), ScrapeSource::Slashdot, vec![]),
        strs(&["https://slashdot.org/"])
    );
}

#[test]
fn scrape_error_text_is_its_debug_form() {
    let e = ScrapeError::StructureError("Missing \"data\"".to_owned());
    assert_eq!(debug_scrape_error(&e), format!("{:?}", e));
    let e = ScrapeError::Json(serde_json::from_str::<serde_json::Value>("{").unwrap_err());
    assert_eq!(debug_scrape_error(&e), format!("{:?}", e));
    assert!(debug_scrape_error(&e).starts_with("Json("));
    let e = ScrapeError::Xml(roxmltree::Document::parse("<a").unwrap_err());
    assert_eq!(debug_scrape_error(&e), format!("{:?}", e));
}

#[test]
fn a_page_that_is_not_json_fails_with_the_json_error() {
    let scrapers = Scrapers::new(&config());
    match scrapers.scrape_http_result(ScrapeSource::Reddit, ScraperHttpResponseInput::Fetched("{".to_owned())) {
        Some(ScraperHttpResult::Failed(ScraperHttpResponseInput::Fetched(body), msg)) => {
            assert_eq!(body, "{");
            assert!(msg.starts_with("Json(Error("));
        }
        _ => panic!("expected a JSON error"),
    }
}
