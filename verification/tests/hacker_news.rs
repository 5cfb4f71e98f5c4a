use progscrape::hacker_news::{HackerNewsArgs, HackerNewsScraper, HackerNewsStory};
use progscrape::scrapers::ScrapeStory;
use progscrape::source::ScrapeSource;

fn scrape(input: String) -> (Vec<HackerNewsStory>, Vec<String>) {
    match HackerNewsScraper::default().scrape(HackerNewsArgs::default(), input) {
        Ok(r) => r,
        Err(_) => panic!("the page should parse"),
    }
}

/// A title row and an info row in the markup of the front page.
fn story_rows(id: u32, rank: u32, href: &str, title: &str, points: u32, comments: &str) -> String {
    format!(
        r#"<tr class="athing" id="{id}">
      <td align="right" valign="top" class="title"><span class="rank">{rank}.</span></td>
      <td valign="top" class="votelinks"><center><a id="up_{id}" href="vote?id={id}&amp;how=up&amp;goto=news"><div class="votearrow" title="upvote"></div></a></center></td>
      <td class="title"><span class="titleline"><a href="{href}">{title}</a><span class="sitebit comhead"> (<a href="from?site=example.com"><span class="sitestr">example.com</span></a>)</span></span></td>
    </tr>
    <tr>
      <td colspan="2"></td>
      <td class="subtext"><span class="subline">
        <span class="score" id="score_{id}">{points} points</span> by <a href="user?id=someone" class="hnuser">someone</a>
        <span class="age" title="2023-01-09T20:25:00"><a href="item?id={id}">2 hours ago</a></span>
        <span id="unv_{id}"></span> | <a href="hide?id={id}&amp;goto=news">hide</a> | <a href="item?id={id}">{comments}</a>
      </span></td>
    </tr>
    <tr class="spacer" style="height:5px"></tr>
"#
    )
}

fn page(rows: &str) -> String {
    format!(
        r#"<html lang="en"><head><title>Hacker News</title></head><body><center>
<table id="hnmain" border="0" cellpadding="0" cellspacing="0" width="85%">
<tr><td><table border="0" cellpadding="0" cellspacing="0" class="itemlist">
{rows}
</table></td></tr>
</table></center></body></html>"#
    )
}

fn sample_page() -> String {
    let mut rows = String::new();
    for i in 1..=30u32 {
        rows += &story_rows(34000000 + i, i, &format!("https://example.com/story/{i}"), &format!("Story number {i}"), 10 * i, &format!("{i}&nbsp;comments"));
    }
    page(&rows)
}

#[test]
fn hacker_news_test_parse_sample() {
    let stories = scrape(sample_page());
    assert!(stories.0.len() >= 25);
    for story in stories.0 {
        println!(
            "{}. [{}] {} ({}) c={} p={}",
            story.position, story.id, story.title, story.url.raw(), story.comments, story.points
        );
    }
}

#[test]
fn hacker_news_story_fields() {
    let (stories, errors) = scrape(sample_page());
    assert_eq!(30, stories.len());
    let first = &stories[0];
    assert_eq!("34000001", first.id);
    assert_eq!(1, first.position);
    assert_eq!("Story number 1", first.title);
    assert_eq!(10, first.points);
    assert_eq!(1, first.comments);
    assert_eq!("https://example.com/story/1", first.url.raw());
    let expected = progscrape::date::StoryDate::parse_from_rfc3339("2023-01-09T20:25:00Z").unwrap();
    assert_eq!(expected, first.date);
    let last = &stories[29];
    assert_eq!(30, last.position);
    assert_eq!(300, last.points);
    assert_eq!(30, last.comments);
    // The outer layout row holds a table; the spacer rows are neither title nor info rows.
    assert!(errors.iter().any(|e| e == "Story table cannot contain other tables"));
    assert_eq!(30, errors.iter().filter(|e| *e == "Unknown node type").count());
}

#[test]
fn hacker_news_entities_relative_links_and_discussions() {
    let rows = story_rows(1, 1, "item?id=1", "Ask HN: A &amp; B?", 5, "discuss");
    let (stories, _) = scrape(page(&rows));
    assert_eq!(1, stories.len());
    assert_eq!("Ask HN: A & B?", stories[0].title);
    assert_eq!("https://news.ycombinator.com/item?id=1", stories[0].url.raw());
    assert_eq!(0, stories[0].comments);
    assert_eq!(5, stories[0].points);
}

#[test]
fn hacker_news_sorted_by_position() {
    let mut rows = String::new();
    rows += &story_rows(3, 3, "https://c.example.com/", "Third", 1, "3&nbsp;comments");
    rows += &story_rows(1, 1, "https://a.example.com/", "First", 1, "1&nbsp;comment");
    rows += &story_rows(2, 2, "https://b.example.com/", "Second", 1, "discuss");
    let (stories, _) = scrape(page(&rows));
    let titles: Vec<&str> = stories.iter().map(|s| s.title.as_str()).collect();
    assert_eq!(vec!["First", "Second", "Third"], titles);
}

#[test]
fn hacker_news_unmatched_and_bad_rows() {
    let only_title = r#"<tr class="athing" id="77">
      <td class="title"><span class="rank">1.</span></td>
      <td class="votelinks"></td>
      <td class="title"><span class="titleline"><a href="https://example.com/">Lonely</a></span></td></tr>"#;
    let bad_points = r#"<tr><td class="subtext"><span class="score" id="score_8">many points</span>
      <span class="age" title="2023-01-09T20:25:00"><a href="item?id=8">now</a></span>
      <a href="item?id=8">discuss</a></td></tr>"#;
    let no_votes = r#"<tr class="athing" id="9"><td><span class="titleline"><a href="https://example.com/">x</a></span></td></tr>"#;
    let rows = format!("{only_title}{bad_points}{no_votes}");
    let (stories, errors) = scrape(page(&rows));
    assert!(stories.is_empty());
    assert!(errors.iter().any(|e| e == "Failed to parse number: 'many points'"));
    assert!(errors.iter().any(|e| e == "Missing votelinks"));
    assert_eq!(Some(&"Unmatched story/info for id 77".to_owned()), errors.last());
}

#[test]
fn hacker_news_merge_takes_later_text_and_larger_counts() {
    let (mut stories, _) = scrape(sample_page());
    let second = stories.remove(1);
    let mut first = stories.remove(0);
    first.merge(second);
    assert_eq!("34000001", first.id);
    assert_eq!(1, first.position);
    assert_eq!("Story number 2", first.title);
    assert_eq!(20, first.points);
    assert_eq!(2, first.comments);
    assert_eq!(ScrapeSource::HackerNews, <progscrape::hacker_news::HackerNewsStory as ScrapeStory>::TYPE);
}
