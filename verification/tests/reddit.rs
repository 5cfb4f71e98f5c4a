use progscrape::reddit::{RedditArgs, RedditScraper};
use progscrape::scrapers::ScrapeError;

/// A listing in the shape of Reddit's `/r/<subreddits>.json`: two stories, a child of another
/// kind, and a story without an id.
fn sample_listing() -> String {
    r#"{
  "kind": "Listing",
  "data": {
    "after": "t3_10ab",
    "dist": 4,
    "children": [
      {
        "kind": "t3",
        "data": {
          "subreddit": "rust",
          "title": "Announcing Rust 1.66.0 &amp; friends",
          "url": "https://blog.rust-lang.org/2022/12/15/Rust-1.66.0.html",
          "id": "zmk3c1",
          "link_flair_text": "announcement",
          "num_comments": 113,
          "score": 1021,
          "downs": 0,
          "ups": 1021,
          "upvote_ratio": 0.99,
          "created_utc": 1671116466.0
        }
      },
      {
        "kind": "t3",
        "data": {
          "subreddit": "programming",
          "title": "Why we moved off microservices",
          "url": "https://example.com/posts/monolith?utm_source=reddit",
          "id": "zn0q7x",
          "link_flair_text": null,
          "num_comments": 12,
          "score": 87,
          "downs": 0,
          "ups": 87,
          "upvote_ratio": 0.91,
          "created_utc": 1671120000
        }
      },
      {
        "kind": "t1",
        "data": { "body": "a comment" }
      },
      {
        "kind": "t3",
        "data": {
          "subreddit": "rust",
          "title": "No id here",
          "url": "https://example.com/",
          "num_comments": 0,
          "score": 1,
          "downs": 0,
          "ups": 1,
          "upvote_ratio": 1.0,
          "created_utc": 1671120001
        }
      }
    ]
  }
}"#
    .to_owned()
}

#[test]
fn reddit_json_test_parse_sample() {
    let scraper = RedditScraper::default();
    for file in [sample_listing()] {
        let stories = scraper.scrape(RedditArgs::default(), file).unwrap().ok().unwrap();
        for story in stories.0 {
            println!("[{}] {} ({})", story.subreddit, story.title, story.url.to_string());
        }
    }
}

#[test]
fn reddit_listing_children_become_stories_or_errors() {
    let scraper = RedditScraper::default();
    let (stories, errors) = scraper
        .scrape(RedditArgs::default(), sample_listing())
        .expect("listing has data")
        .ok()
        .expect("listing parses");
    assert_eq!(stories.len(), 2);
    assert_eq!(stories[0].title, "Announcing Rust 1.66.0 & friends");
    assert_eq!(stories[0].subreddit, "rust");
    assert_eq!(stories[0].flair, "announcement");
    assert_eq!(stories[0].num_comments, 113);
    assert_eq!(stories[0].upvote_ratio.text, "0.99");
    assert_eq!(stories[0].upvote_ratio.raw.as_f64(), Some(0.99));
    assert_eq!(stories[0].position, 0);
    assert_eq!(stories[1].flair, "");
    assert_eq!(stories[1].position, 1);
    assert_eq!(stories[1].url.host(), "example.com");
    assert_eq!(errors, vec![
        "Unknown story type: Some(\"t1\")".to_owned(),
        "Missing field \"id\"".to_owned(),
    ]);
}

#[test]
fn reddit_pages_with_the_wrong_shape_are_errors() {
    let scraper = RedditScraper::default();
    assert!(matches!(scraper.scrape(RedditArgs::default(), "not json".to_owned()), Some(Err(ScrapeError::Json(_)))));
    match scraper.scrape(RedditArgs::default(), "[1, 2]".to_owned()) {
        Some(Err(ScrapeError::StructureError(m))) => assert_eq!(m, "Failed to parse Reddit JSON"),
        _ => panic!("expected a structure error"),
    }
    match scraper.scrape(RedditArgs::default(), "{\"data\": {}}".to_owned()) {
        Some(Err(ScrapeError::StructureError(m))) => assert_eq!(m, "Missing children element"),
        _ => panic!("expected a structure error"),
    }
    assert!(scraper.scrape(RedditArgs::default(), "{\"kind\": \"Listing\"}".to_owned()).is_none());
}

#[test]
fn reddit_field_errors_name_the_field_and_value() {
    let scraper = RedditScraper::default();
    let listing = r#"{"kind": "Listing", "data": {"children": [
        {"kind": "t3", "data": {"created_utc": 1671116466, "url": "https://e.com/", "title": "t", "score": 1}},
        {"kind": "t3", "data": {"created_utc": 1671116466, "url": "https://e.com/", "title": "t", "num_comments": -5}},
        {"kind": "t3", "data": {"created_utc": "yesterday"}},
        {"kind": "t3", "data": {"created_utc": 1671116466, "url": "https://e.com/", "title": "t", "num_comments": 1,
            "score": 1, "downs": 0, "ups": 1, "upvote_ratio": "high"}},
        {"data": {}}
    ]}}"#;
    let (stories, errors) = scraper
        .scrape(RedditArgs::default(), listing.to_owned())
        .expect("listing has data")
        .ok()
        .expect("listing parses");
    assert!(stories.is_empty());
    assert_eq!(errors, vec![
        "Missing or invalid field \"num_comments\" (value was Null)".to_owned(),
        "Failed to parse num_comments as integer (value was Number(-5))".to_owned(),
        "Missing or invalid field \"created_utc\" (value was String(\"yesterday\"))".to_owned(),
        "Missing or invalid field \"upvote_ratio\" (value was String(\"high\"))".to_owned(),
        "Unknown story type: None".to_owned(),
    ]);
}
