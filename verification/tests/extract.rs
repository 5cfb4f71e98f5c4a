use progscrape::hacker_news::{HackerNewsArgs, HackerNewsScraper};
use progscrape::lobsters::LobstersStory;
use progscrape::lobsters::LobstersScraper;
use progscrape::reddit::{RedditArgs, RedditScraper};
use progscrape::scrapers::{
    FeedConfig, FeedScraper, FeedStory, HackerNewsConfig, LobstersConfig, RedditConfig, ScrapeStory, SubredditConfig,
};
use progscrape::source::ScrapeSource;
use progscrape::date::StoryDate;
use progscrape::url::StoryUrl;

#[test]
fn hacker_news_titles_carry_tags() {
    let scraper = HackerNewsScraper::default();
    let config = HackerNewsConfig::default();
    assert_eq!(vec!["show", "pdf"], scraper.tags_from_title(&config, "Show HN: A paper [pdf]"));
    assert_eq!(vec!["ask"], scraper.tags_from_title(&config, "Ask HN: What now?"));
    assert_eq!(vec!["video"], scraper.tags_from_title(&config, "A talk [video]"));
    assert!(scraper.tags_from_title(&config, "Showing HN [pdf] twice").is_empty());
}

#[test]
fn hacker_news_core() {
    let page = r#"<table><tr class="athing" id="42"><td><span class="rank">3.</span></td><td class="votelinks"></td>
        <td><span class="titleline"><a href="https://example.com/">Show HN: Thing</a></span></td></tr>
        <tr><td class="subtext"><span class="score" id="score_42">7 points</span>
        <span class="age" title="2023-01-09T20:25:00"><a href="item?id=42">now</a></span>
        <a href="item?id=42">discuss</a></td></tr></table>"#;
    let scraper = HackerNewsScraper::default();
    let (stories, _) = match scraper.scrape(HackerNewsArgs::default(), page.to_owned()) {
        Ok(r) => r,
        Err(_) => panic!("parses"),
    };
    let core = scraper.extract_core(&HackerNewsConfig::default(), &stories[0]);
    assert_eq!(ScrapeSource::HackerNews, core.source.source);
    assert_eq!(None, core.source.subsource);
    assert_eq!("42", core.source.id);
    assert_eq!("Show HN: Thing", core.title);
    assert_eq!(vec!["show".to_owned()], core.tags);
    assert_eq!(Some(2), core.rank);
}

#[test]
fn lobsters_core_leaves_out_denied_tags() {
    let story = LobstersStory {
        id: "abc".to_owned(),
        title: "Verifying things".to_owned(),
        url: StoryUrl::parse("https://example.com/v").expect("url"),
        num_comments: 0,
        position: 0,
        score: 0,
        date: StoryDate::year_month_day(2023, 1, 9).expect("date"),
        tags: vec!["rust".to_owned(), "meta".to_owned(), "formalmethods".to_owned()],
    };
    let config = LobstersConfig { feed: String::new(), tag_denylist: vec!["meta".to_owned()] };
    let core = LobstersScraper::default().extract_core(&config, &story);
    assert_eq!(vec!["rust".to_owned(), "formalmethods".to_owned()], core.tags);
    assert_eq!(None, core.rank);
    assert_eq!("abc", core.source.id);
}

#[test]
fn reddit_core_takes_tags_from_the_subreddit_configuration() {
    let listing = r#"{"kind": "Listing", "data": {"children": [{"kind": "t3", "data": {
        "subreddit": "rust", "title": "Announcing Rust", "url": "https://blog.rust-lang.org/x",
        "id": "zmk3c1", "link_flair_text": "Announcement", "num_comments": 1, "score": 2, "downs": 0,
        "ups": 2, "upvote_ratio": 0.99, "created_utc": 1671116466.0}}]}}"#;
    let scraper = RedditScraper::default();
    let (stories, _) = match scraper.scrape(RedditArgs::default(), listing.to_owned()) {
        Some(Ok(r)) => r,
        _ => panic!("parses"),
    };
    let config = RedditConfig {
        api: String::new(),
        subreddit_batch: 1,
        limit: 1,
        subreddits: vec![("rust".to_owned(), SubredditConfig { is_tag: true, flair_is_tag: true })],
    };
    let core = scraper.extract_core(&config, &stories[0]);
    assert_eq!(vec!["announcement".to_owned(), "rust".to_owned()], core.tags);
    assert_eq!(Some("rust".to_owned()), core.source.subsource);
    assert_eq!(None, core.rank);
    let other = RedditConfig { subreddits: vec![], ..config };
    assert!(scraper.extract_core(&other, &stories[0]).tags.is_empty());
}

#[test]
fn feed_stories_keep_their_tags_and_have_no_rank() {
    let story = FeedStory {
        id: "item-1".to_owned(),
        title: "A feed story".to_owned(),
        url: StoryUrl::parse("https://example.com/feed/1").unwrap(),
        date: StoryDate::from_millis(5_000).unwrap(),
        tags: vec!["rust".to_owned(), "news".to_owned()],
    };
    let core = FeedScraper::default().extract_core(&FeedConfig::default(), &story);
    assert_eq!(ScrapeSource::Feed, core.source.source);
    assert_eq!(None, core.source.subsource);
    assert_eq!("item-1", core.source.id);
    assert_eq!("A feed story", core.title);
    assert_eq!("https://example.com/feed/1", core.url.raw());
    assert_eq!(StoryDate::from_millis(5_000).unwrap(), core.date);
    assert_eq!(vec!["rust".to_owned(), "news".to_owned()], core.tags);
    assert_eq!(None, core.rank);

    let mut merged = story;
    let other = FeedStory {
        id: "item-1".to_owned(),
        title: "Changed".to_owned(),
        url: StoryUrl::parse("https://example.com/other").unwrap(),
        date: StoryDate::from_millis(1_000).unwrap(),
        tags: vec![],
    };
    merged.merge(other);
    assert_eq!("A feed story", merged.title);
    assert_eq!(2, merged.tags.len());
}
