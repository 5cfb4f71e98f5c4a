use progscrape::lobsters::LobstersScraper;
use progscrape::scrapers::{LobstersConfig, ScrapeError};

fn sample_feed() -> String {
    r#"<?xml version="1.0" encoding="UTF-8"?>
<rss version="2.0">
  <channel>
    <title>Lobsters</title>
    <link>https://lobste.rs/</link>
    <item>
      <title>Verifying Rust programs</title>
      <link>https://example.com/verify</link>
      <guid isPermaLink="false">https://lobste.rs/s/abc123</guid>
      <author>someone@users.lobste.rs (someone)</author>
      <pubDate>Mon, 09 Jan 2023 20:25:00 -0000</pubDate>
      <comments>https://lobste.rs/s/abc123/verifying_rust_programs</comments>
      <description>text</description>
      <category>rust</category>
      <category>formalmethods</category>
    </item>
    <item>
      <title>Missing a link</title>
      <guid>https://lobste.rs/s/def456</guid>
      <pubDate>Mon, 09 Jan 2023 21:00:00 -0000</pubDate>
      <source>elsewhere</source>
    </item>
    <item>
      <title>Second story</title>
      <link>https://example.org/two</link>
      <guid>https://lobste.rs/s/ghi789</guid>
      <pubDate>Tue, 10 Jan 2023 08:00:00 -0000</pubDate>
    </item>
  </channel>
</rss>"#
        .to_owned()
}

#[test]
fn lobsters_test_parse_sample() {
    let scraper = LobstersScraper::default();
    for file in [sample_feed()] {
        let stories = scraper.scrape(&LobstersConfig::default(), file).ok().unwrap();
        for story in stories.0 {
            println!("{}. [{}] {} ({})", story.position, story.id, story.title, story.url.to_string());
        }
    }
}

#[test]
fn lobsters_items_become_stories_or_warnings() {
    let scraper = LobstersScraper::default();
    let (stories, warnings) = scraper.scrape(&LobstersConfig::default(), sample_feed()).ok().unwrap();
    assert_eq!(stories.len(), 2);
    assert_eq!(stories[0].id, "abc123");
    assert_eq!(stories[0].title, "Verifying Rust programs");
    assert_eq!(stories[0].url.raw(), "https://example.com/verify");
    assert_eq!(stories[0].tags, vec!["rust".to_owned(), "formalmethods".to_owned()]);
    assert_eq!(stories[0].position, 1);
    assert_eq!((stories[0].num_comments, stories[0].score), (0, 0));
    assert_eq!(stories[0].date.year(), 2023);
    assert_eq!(stories[1].id, "ghi789");
    assert_eq!(stories[1].position, 3);
    assert_eq!(scraper.extract_core(&LobstersConfig::default(), &stories[0]).rank, Some(0));
    assert_eq!(scraper.extract_core(&LobstersConfig::default(), &stories[1]).rank, Some(2));
    assert_eq!(
        warnings,
        vec![
            "Unknown sub-node 'source'".to_owned(),
            "Story did not contain all required fields".to_owned(),
        ]
    );
    assert!(matches!(scraper.scrape(&LobstersConfig::default(), "<rss".to_owned()), Err(ScrapeError::Xml(_))));
}
