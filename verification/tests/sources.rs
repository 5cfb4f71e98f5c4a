use progscrape::source::{ScrapeId, ScrapeSource};
use progscrape::url::StoryUrl;

#[test]
fn source_names_round_trip() {
    for source in ScrapeSource::all() {
        assert_eq!(ScrapeSource::try_from_str(source.into_str()), Some(source));
    }
    assert_eq!(ScrapeSource::try_from_str("other"), Some(ScrapeSource::Other));
    assert_eq!(ScrapeSource::try_from_str("hn"), None);
    assert_eq!(ScrapeSource::HackerNews.into_str(), "hacker_news");
    assert_eq!(ScrapeSource::all().len(), 5);
}

#[test]
fn scrape_ids_parse_with_and_without_subsource() {
    let id = ScrapeId::from_string("reddit-rust-abc123").expect("parses");
    assert_eq!(id.source, ScrapeSource::Reddit);
    assert_eq!(id.subsource.as_deref(), Some("rust"));
    assert_eq!(id.id, "abc123");
    assert_eq!(id.to_string(), "reddit-rust-abc123");

    let id = ScrapeId::from_string("hacker_news-42").expect("parses");
    assert_eq!(id, ScrapeSource::HackerNews.id("42"));
    assert_eq!(id.to_string(), "hacker_news-42");

    assert_eq!(ScrapeId::from_string("nosuchsource-42"), None);
    assert_eq!(ScrapeId::from_string("nodash"), None);
    // A dash after the subsource stays in the id.
    let id = ScrapeId::from_string("lobsters-a-b-c").expect("parses");
    assert_eq!(id, ScrapeSource::Lobsters.subsource_id("a", "b-c"));
}

#[test]
fn comments_urls_per_source() {
    assert_eq!(
        ScrapeSource::HackerNews.id("123").comments_url(),
        "https://news.ycombinator.com/item?id=123"
    );
    assert_eq!(ScrapeSource::Lobsters.id("abcd").comments_url(), "https://lobste.rs/s/abcd/");
    assert_eq!(ScrapeSource::Feed.id("x").comments_url(), "");
    assert_eq!(ScrapeSource::Lobsters.comments_url("q", Some("sub")), "https://lobste.rs/s/q/");
}

#[test]
fn lobsters_ids_come_back_from_comments_urls() {
    assert_eq!(
        ScrapeSource::Lobsters.id_from_comments_url("https://lobste.rs/s/abcd/"),
        Some(ScrapeSource::Lobsters.id("abcd"))
    );
    assert_eq!(
        ScrapeSource::Lobsters.id_from_comments_url("https://lobste.rs/s/abcd//"),
        Some(ScrapeSource::Lobsters.id("abcd"))
    );
    assert_eq!(ScrapeSource::Lobsters.id_from_comments_url("https://example.com/s/abcd"), None);
    assert_eq!(ScrapeSource::Feed.id_from_comments_url("https://lobste.rs/s/abcd/"), None);
}

#[test]
fn self_posts_point_at_the_comments_host() {
    let hn = ScrapeSource::HackerNews.id("4242");
    let own = StoryUrl::parse("https://news.ycombinator.com/item?id=4242").unwrap();
    let other = StoryUrl::parse("https://example.com/4242").unwrap();
    let wrong_id = StoryUrl::parse("https://news.ycombinator.com/item?id=1").unwrap();
    assert!(hn.is_likely_self_post(&own));
    assert!(!hn.is_likely_self_post(&other));
    assert!(!hn.is_likely_self_post(&wrong_id));
    assert!(ScrapeSource::Lobsters.is_comments_host("lobste.rs"));
    assert!(!ScrapeSource::Feed.is_comments_host("lobste.rs"));
}
