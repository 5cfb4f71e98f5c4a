use progscrape::scrapers::SlashdotConfig;
use progscrape::slashdot::{SlashdotScraper, SlashdotStory};

fn article(n: u32, link: &str, title: &str, external: &str, comments: Option<u32>, topics: &[&str], date: &str) -> String {
    let bubble = match comments {
        Some(c) => format!(r#"<span class="comment-bubble"><a href="{link}#comments" title="">{c}</a></span>"#),
        None => String::new(),
    };
    let images: String = topics
        .iter()
        .map(|t| format!(r#"<a href="//slashdot.org/index2.pl?fhfilter={t}"><img src="//a.fsdn.com/sd/topics/{t}_64.png" width="64" height="64" alt="{t}" title="{t}"></a>"#))
        .collect();
    format!(
        r#"<article id="firehose-{n}" data-fhid="{n}" class="fhitem fhitem-story article usermode thumbs grid_24">
  <header>
    <h2 class="story">
      <span id="title-{n}" class="story-title"><a onclick="return toggle_fh_body_wrap_return(this);" href="{link}">{title}</a> <span class=" no extlnk"><a class="story-sourcelnk" href="{external}" title="External link">(source)</a></span></span>
      {bubble}
    </h2>
    <div class="details" id="details-{n}">
      <span class="story-byline">Posted by msmash <time datetime="{date}">{date}</time> from the some-department dept.</span>
    </div>
  </header>
  <div class="body" id="fhbody-{n}"><div id="text-{n}" class="p">Story text.</div></div>
  <span class="topic" id="topic-{n}">{images}</span>
</article>
"#
    )
}

fn page(articles: &str) -> String {
    format!(r#"<!DOCTYPE html><html><head><title>Slashdot</title></head><body><div id="firehose"><div id="firehoselist">{articles}</div></div></body></html>"#)
}

fn scrape(input: String) -> (Vec<SlashdotStory>, Vec<String>) {
    match SlashdotScraper::default().scrape(&SlashdotConfig::default(), input) {
        Ok(r) => r,
        Err(_) => panic!("the page should parse"),
    }
}

fn sample_page() -> String {
    let mut a = String::new();
    a += &article(
        1,
        "//news.slashdot.org/story/23/01/09/2025247/a-story-about-rust",
        "A Story About Rust",
        "https://www.example.com/rust",
        Some(42),
        &["Programming", "Open Source"],
        "on Monday January 09, 2023 @08:25PM",
    );
    a += &article(
        2,
        "//tech.slashdot.org/story/23/01/09/1942204/second-story",
        "Second Story Here",
        "https://example.org/second",
        None,
        &["AI"],
        "on Monday January 09, 2023 @11:00AM",
    );
    page(&a)
}

#[test]
fn slashdot_test_parse_sample() {
    let stories = scrape(sample_page());
    for error in stories.1 {
        println!("{}", error);
    }
    for story in stories.0 {
        println!(
            "[{}] {} ({}) c={} t={:?}",
            story.id, story.title, story.url.raw(), story.num_comments, story.tags
        );
    }
}

#[test]
fn slashdot_story_fields() {
    let (stories, errors) = scrape(sample_page());
    assert!(errors.is_empty(), "{errors:?}");
    assert_eq!(2, stories.len());
    let s = &stories[0];
    assert_eq!("23/01/09/2025247", s.id);
    assert_eq!("A Story About Rust", s.title);
    assert_eq!("https://www.example.com/rust", s.url.raw());
    assert_eq!(42, s.num_comments);
    assert_eq!(vec!["programming".to_owned(), "open source".to_owned()], s.tags);
    let expected = SlashdotScraper::parse_time("on Monday January 09, 2023 @08:25PM").ok().unwrap();
    assert_eq!(expected, s.date);
    let t = &stories[1];
    assert_eq!("23/01/09/1942204", t.id);
    assert_eq!(0, t.num_comments);
    assert_eq!(vec!["ai".to_owned()], t.tags);
}

#[test]
fn slashdot_story_errors() {
    let mut a = String::new();
    a += &article(1, "//news.slashdot.org/story/23/01/x", "Long enough", "https://e.com/", None, &[], "on Monday January 09, 2023 @08:25PM");
    a += &article(2, "//news.slashdot.org/story/23/01/09/1/y", "Tiny", "https://e.com/", None, &[], "on Monday January 09, 2023 @08:25PM");
    a += &article(3, "//news.slashdot.org/story/23/01/09/1/y", "Long enough", "not a url", None, &[], "on Monday January 09, 2023 @08:25PM");
    a += &article(4, "//news.slashdot.org/story/23/01/09/1/y", "Long enough", "https://e.com/", None, &[], "yesterday");
    let (stories, errors) = scrape(page(&a));
    assert!(stories.is_empty());
    assert_eq!(
        vec![
            "Invalid link format: //news.slashdot.org/story/23/01/x".to_owned(),
            "Title was too short: Tiny".to_owned(),
            "Invalid href: not a url".to_owned(),
            "Failed to parse date: yesterday".to_owned(),
        ],
        errors
    );
}

#[test]
fn slashdot_id_with_exactly_four_parts() {
    let a = article(1, "//news.slashdot.org/story/23/01/09/2025247", "Long enough", "https://e.com/", Some(3), &[], "on January 1, 2020 @12:30PM");
    let (stories, errors) = scrape(page(&a));
    assert!(errors.is_empty(), "{errors:?}");
    assert_eq!("23/01/09/2025247", stories[0].id);
    assert_eq!(3, stories[0].num_comments);
}
