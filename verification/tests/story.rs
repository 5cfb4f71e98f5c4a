use progscrape::date::StoryDate;
use progscrape::hacker_news::HackerNewsStory;
use progscrape::json::JsonNumber;
use progscrape::lobsters::LobstersStory;
use progscrape::reddit::RedditStory;
use progscrape::scrapers::TypedScrape;
use progscrape::source::ScrapeSource;
use progscrape::story::{story_date, title_choice};
use progscrape::url::StoryUrl;

fn url() -> StoryUrl {
    StoryUrl::parse("https://example.com/story").unwrap()
}

fn hn(title: &str, millis: i64) -> TypedScrape {
    TypedScrape::HackerNews(HackerNewsStory {
        title: title.to_owned(),
        url: url(),
        id: "1".to_owned(),
        points: 0,
        comments: 0,
        position: 0,
        date: StoryDate::from_millis(millis).unwrap(),
    })
}

fn reddit(title: &str, millis: i64) -> TypedScrape {
    TypedScrape::Reddit(RedditStory {
        title: title.to_owned(),
        url: url(),
        subreddit: "rust".to_owned(),
        flair: String::new(),
        id: "r".to_owned(),
        position: 0,
        upvotes: 0,
        downvotes: 0,
        num_comments: 0,
        score: 0,
        upvote_ratio: JsonNumber {
            as_u64: Some(1),
            as_i64: Some(1),
            as_f64_truncated: Some(1),
            text: "1".to_owned(),
            raw: serde_json::Number::from(1u64),
        },
        date: StoryDate::from_millis(millis).unwrap(),
    })
}

fn lobsters(title: &str, millis: i64) -> TypedScrape {
    TypedScrape::Lobsters(LobstersStory {
        id: "l".to_owned(),
        title: title.to_owned(),
        url: url(),
        num_comments: 0,
        position: 0,
        score: 0,
        date: StoryDate::from_millis(millis).unwrap(),
        tags: vec![],
    })
}

#[test]
fn title_comes_from_the_most_trusted_source() {
    let scrapes = vec![reddit("A long title from Reddit", 0), lobsters("Lobsters title", 0), hn("HN title, longer than others", 0)];
    assert_eq!(title_choice(&scrapes), (ScrapeSource::HackerNews, "HN title, longer than others".to_owned()));
    let scrapes = vec![reddit("Reddit", 0), lobsters("Lobsters title", 0)];
    assert_eq!(title_choice(&scrapes), (ScrapeSource::Lobsters, "Lobsters title".to_owned()));
}

#[test]
fn title_ties_go_to_the_shorter_in_bytes() {
    let scrapes = vec![reddit("a longer title", 0), reddit("short", 0), reddit("other", 0)];
    assert_eq!(title_choice(&scrapes), (ScrapeSource::Reddit, "short".to_owned()));
    // Three two-byte characters are longer than four one-byte ones.
    let scrapes = vec![reddit("\u{e9}\u{e9}\u{e9}", 0), reddit("abcd", 0)];
    assert_eq!(title_choice(&scrapes), (ScrapeSource::Reddit, "abcd".to_owned()));
    assert_eq!(title_choice(&[]), (ScrapeSource::Other, "Unknown title".to_owned()));
}

#[test]
fn story_date_is_the_earliest_scrape() {
    let scrapes = vec![reddit("a", 3_000), hn("b", 1_000), lobsters("c", 2_000)];
    assert_eq!(story_date(&scrapes), StoryDate::from_millis(1_000));
    assert_eq!(story_date(&[]), None);
}
