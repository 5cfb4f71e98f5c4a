use progscrape::date::StoryDate;
use progscrape::hacker_news::HackerNewsStory;
use progscrape::json::JsonNumber;
use progscrape::reddit::RedditStory;
use progscrape::scoring::{score_terms, ScoreTerm};
use progscrape::scrapers::{FeedStory, TypedScrape};
use progscrape::url::StoryUrl;

fn date() -> StoryDate {
    StoryDate::from_millis(1_705_276_800_000).unwrap()
}

fn hn(url: &str, comments: u32) -> TypedScrape {
    TypedScrape::HackerNews(HackerNewsStory {
        title: "A story".to_owned(),
        url: StoryUrl::parse(url).unwrap(),
        id: "1".to_owned(),
        points: 0,
        comments,
        position: 0,
        date: date(),
    })
}

fn reddit(url: &str, title: &str, upvotes: u32, num_comments: u32) -> TypedScrape {
    TypedScrape::Reddit(RedditStory {
        title: title.to_owned(),
        url: StoryUrl::parse(url).unwrap(),
        subreddit: "rust".to_owned(),
        flair: String::new(),
        id: "r".to_owned(),
        position: 0,
        upvotes,
        downvotes: 0,
        num_comments,
        score: 0,
        upvote_ratio: JsonNumber {
            as_u64: Some(1),
            as_i64: Some(1),
            as_f64_truncated: Some(1),
            text: "1".to_owned(),
            raw: serde_json::Number::from(1u64),
        },
        date: date(),
    })
}

#[test]
fn a_plain_hacker_news_story_has_no_terms() {
    assert_eq!(score_terms(&hn("https://example.com/a", 100)), vec![]);
}

#[test]
fn many_comments_earn_five() {
    assert_eq!(score_terms(&hn("https://example.com/a", 101)), vec![(ScoreTerm::CommentCount, 5)]);
}

#[test]
fn image_links_lose_less_on_hacker_news() {
    assert_eq!(score_terms(&hn("https://i.imgur.com/x.png", 0)), vec![(ScoreTerm::ImageLink, -5)]);
    assert_eq!(
        score_terms(&reddit("https://gfycat.com/x", "A story", 10, 10)),
        vec![(ScoreTerm::ImageLink, -10)]
    );
}

#[test]
fn reddit_terms_come_in_order() {
    let long_title = "x".repeat(131);
    assert_eq!(
        score_terms(&reddit("https://www.reddit.com/r/rust/comments/1", &long_title, 5, 50)),
        vec![
            (ScoreTerm::SelfLink, -20),
            (ScoreTerm::LongRedditTitle, -5),
            (ScoreTerm::UpvoteCount, -20),
            (ScoreTerm::CommentCount, 5),
        ]
    );
    assert_eq!(
        score_terms(&reddit("https://example.com/a", "A story", 11, 3)),
        vec![(ScoreTerm::UpvoteCount, 10), (ScoreTerm::CommentCount, -5)]
    );
}

#[test]
fn a_feed_story_has_no_terms() {
    let s = TypedScrape::Feed(FeedStory {
        id: "f".to_owned(),
        title: "A story".to_owned(),
        url: StoryUrl::parse("https://example.com/a").unwrap(),
        date: date(),
        tags: vec![],
    });
    assert_eq!(score_terms(&s), vec![]);
}
