use std::io::{Read, Write};

use progscrape::date::StoryDate;
use progscrape::legacy::{backup_records, import_legacy_1, import_legacy_2, lines_of, LegacyError};
use progscrape::scrapers::TypedScrape;
use progscrape::source::ScrapeSource;

fn summary(s: &TypedScrape) -> (ScrapeSource, String, String, String, StoryDate) {
    match s {
        TypedScrape::HackerNews(s) => {
            assert_eq!((s.points, s.comments, s.position), (0, 0, 0));
            (ScrapeSource::HackerNews, s.id.clone(), s.title.clone(), s.url.raw().to_owned(), s.date)
        }
        TypedScrape::Reddit(s) => {
            assert_eq!((s.upvotes, s.downvotes, s.num_comments, s.score, s.position), (0, 0, 0, 0, 0));
            assert!(s.subreddit.is_empty() && s.flair.is_empty());
            assert_eq!((s.upvote_ratio.as_u64, s.upvote_ratio.text.as_str()), (Some(0), "0"));
            (ScrapeSource::Reddit, s.id.clone(), s.title.clone(), s.url.raw().to_owned(), s.date)
        }
        TypedScrape::Lobsters(s) => {
            assert!(s.tags.is_empty());
            (ScrapeSource::Lobsters, s.id.clone(), s.title.clone(), s.url.raw().to_owned(), s.date)
        }
        TypedScrape::Slashdot(s) => {
            (ScrapeSource::Slashdot, s.id.clone(), s.title.clone(), s.url.raw().to_owned(), s.date)
        }
        TypedScrape::Feed(s) => (ScrapeSource::Feed, s.id.clone(), s.title.clone(), s.url.raw().to_owned(), s.date),
    }
}

#[test]
fn legacy_lines_keep_their_newlines() {
    let lines = lines_of(b"a\nb\n\nc");
    assert_eq!(lines, vec![b"a\n".to_vec(), b"b\n".to_vec(), b"\n".to_vec(), b"c".to_vec()]);
    assert!(lines_of(b"").is_empty());
    assert_eq!(lines_of(b"x\n"), vec![b"x\n".to_vec()]);
}

#[test]
fn backup_records_end_with_a_closing_brace() {
    let records = backup_records(b"{\"a\":1}\n{\n\"b\":2\n}\n{\"partial\"");
    assert_eq!(records, vec![b"{\"a\":1}\n".to_vec(), b"{\n\"b\":2\n}\n".to_vec()]);
    // A brace that does not end its line does not end the record.
    assert_eq!(backup_records(b"{\"a\":\"}x\"\n}\n"), vec![b"{\"a\":\"}x\"\n}\n".to_vec()]);
    assert!(backup_records(b"}").is_empty());
}

#[test]
fn first_archive_record() {
    let data = [
        r#"{"date":"2015-01-02 03:04:05.678","title":"A &amp; B","url":"http://example.com/x?a=1&amp;amp;b=2","redditProgId":"abc","redditTechId":"None","hackerNewsId":"123"}"#,
        "\n",
        r#"{"date":"2015-01-02 03:04:05.678","title":"Spaces","url":"http://example.com/a b /","redditTechId":"def"}"#,
        "\n"
    ].concat();
    let stories = import_legacy_1(data.as_bytes()).ok().expect("archive reads");
    let date = StoryDate::from_millis(1420167845678).unwrap();
    let got: Vec<_> = stories.iter().map(summary).collect();
    assert_eq!(
        got,
        vec![
            (ScrapeSource::Reddit, "abc".to_owned(), "A & B".to_owned(), "http://example.com/x".to_owned(), date),
            (ScrapeSource::HackerNews, "123".to_owned(), "A & B".to_owned(), "http://example.com/x".to_owned(), date),
            (ScrapeSource::Reddit, "def".to_owned(), "Spaces".to_owned(), "http://example.com/ab/".to_owned(), date),
        ]
    );
    assert_eq!(stories[0].source(), ScrapeSource::Reddit);
    assert_eq!(stories[1].source(), ScrapeSource::HackerNews);
}

#[test]
fn first_archive_errors() {
    let missing_title = br#"{"date":"2015-01-02 03:04:05.678","url":"http://example.com/"}"#;
    assert!(matches!(import_legacy_1(missing_title), Err(LegacyError::MissingField)));
    let bad_date = br#"{"date":"yesterday","title":"t","url":"http://example.com/"}"#;
    assert!(matches!(import_legacy_1(bad_date), Err(LegacyError::MissingField)));
    let amp_without_query = br#"{"date":"2015-01-02 03:04:05.678","title":"t","url":"http://example.com/&amp;amp;"}"#;
    assert!(matches!(import_legacy_1(amp_without_query), Err(LegacyError::MissingField)));
    let bad_url = br#"{"date":"2015-01-02 03:04:05.678","title":"t","url":"not a url"}"#;
    match import_legacy_1(bad_url) {
        Err(LegacyError::InvalidField(name, value)) => {
            assert_eq!(name, "url");
            assert_eq!(value.as_deref(), Some("not a url"));
        }
        _ => panic!("expected an invalid URL"),
    }
    assert!(matches!(import_legacy_1(b"{\"date\": 1\n"), Err(LegacyError::JSONError(_))));
    assert!(matches!(import_legacy_1(b"\xff\xfe\n"), Err(LegacyError::UTF8Error(_))));
    // The first record that fails decides, though later records are fine.
    let mixed = [
        r#"{"date":"2015-01-02 03:04:05.678","title":"t","url":"http://example.com/"}"#,
        "\n",
        "oops\n"
    ].concat();
    assert!(matches!(import_legacy_1(mixed.as_bytes()), Err(LegacyError::JSONError(_))));
}

#[test]
fn second_archive_record() {
    let data = [
        "{\n",
        r#""date": 1420167845678, "title": "T &lt;3", "url": "https://example.com/p?x=1&amp;amp;y=2","#,
        "\n",
        r#""hn": "1", "reddit": ["r1", "None", "r2"], "lobsters": "l""#,
        "\n}\n",
        r#"{"date": 1420167845678, "title": "U", "url": "https://example.com/q", "hn": "None", "reddit": [], "lobsters": "None"}"#,
        "\n",
        "{\"unfinished\": "
    ].concat();
    let stories = import_legacy_2(data.as_bytes()).ok().expect("archive reads");
    let date = StoryDate::from_millis(1420167845678).unwrap();
    let url = "https://example.com/p".to_owned();
    let got: Vec<_> = stories.iter().map(summary).collect();
    assert_eq!(
        got,
        vec![
            (ScrapeSource::HackerNews, "1".to_owned(), "T <3".to_owned(), url.clone(), date),
            (ScrapeSource::Reddit, "r2".to_owned(), "T <3".to_owned(), url.clone(), date),
            (ScrapeSource::Reddit, "r1".to_owned(), "T <3".to_owned(), url.clone(), date),
            (ScrapeSource::Lobsters, "l".to_owned(), "T <3".to_owned(), url, date),
        ]
    );
}

#[test]
fn second_archive_errors() {
    let no_reddit = b"{\"date\": 1, \"title\": \"t\", \"url\": \"https://example.com/\", \"hn\": \"1\"}\n";
    assert!(matches!(import_legacy_2(no_reddit), Err(LegacyError::MissingField)));
    let text_date = b"{\"date\": \"1\", \"title\": \"t\", \"url\": \"https://example.com/\", \"reddit\": []}\n";
    assert!(matches!(import_legacy_2(text_date), Err(LegacyError::MissingField)));
    let far_date = b"{\"date\": 9000000000000000000, \"title\": \"t\", \"url\": \"https://example.com/\", \"reddit\": []}\n";
    assert!(matches!(import_legacy_2(far_date), Err(LegacyError::MissingField)));
    let bad_url = b"{\"date\": 1, \"title\": \"t\", \"url\": \"nope\", \"reddit\": []}\n";
    match import_legacy_2(bad_url) {
        Err(LegacyError::InvalidField(name, value)) => {
            assert_eq!(name, "url");
            assert_eq!(value.as_deref(), Some("nope"));
        }
        _ => panic!("expected an invalid URL"),
    }
}

#[test]
fn framing_keeps_the_bytes() {
    let data: &[u8] = b"{\"a\":1}\nnoise\n{\"b\":2}\n\ntrailing";
    assert_eq!(lines_of(data).concat(), data.to_vec());
    let records = backup_records(data);
    let joined = records.concat();
    assert_eq!(joined, data[..joined.len()].to_vec());
    assert!(records.iter().all(|r| r.ends_with(b"}\n")));
    assert_eq!(records.len(), 2);
}

/// A gzip archive of the given text, as the archives of the earlier site are stored.
fn gzipped(text: &str) -> Vec<u8> {
    let mut encoder = flate2::write::GzEncoder::new(Vec::new(), flate2::Compression::default());
    encoder.write_all(text.as_bytes()).unwrap();
    encoder.finish().unwrap()
}

fn gunzipped(bytes: &[u8]) -> Vec<u8> {
    let mut out = vec![];
    flate2::read::GzDecoder::new(bytes).read_to_end(&mut out).unwrap();
    out
}

fn first_archive() -> Vec<u8> {
    gzipped(
        &[
            r#"{"date":"2014-06-01 10:00:00.000","title":"Rust 0.11 released","url":"http://blog.rust-lang.org/","redditProgId":"27abc","redditTechId":"None","hackerNewsId":"7834567"}"#,
            "\n",
            r#"{"date":"2014-06-02 11:30:15.250","title":"Go &amp; you","url":"http://golang.org/doc/","redditProgId":"None","redditTechId":"28def","hackerNewsId":"None"}"#,
            "\n",
        ]
        .concat(),
    )
}

fn second_archive() -> Vec<u8> {
    gzipped(
        &[
            r#"{"date": 1420167845678, "title": "A story", "url": "https://example.com/a", "hn": "8800001", "reddit": ["2r1"], "lobsters": "abcd"}"#,
            "\n",
        ]
        .concat(),
    )
}

#[test]
fn test_read_legacy_1() {
    let stories = import_legacy_1(&gunzipped(&first_archive())).ok().expect("archive reads");
    assert!(stories.len() > 0);
    assert_eq!(stories.len(), 3);
}

#[test]
fn test_read_legacy_2() {
    let stories = import_legacy_2(&gunzipped(&second_archive())).ok().expect("archive reads");
    assert!(stories.len() > 0);
    assert_eq!(stories.len(), 3);
}

#[test]
fn test_read_legacy_all() {
    let mut stories = import_legacy_1(&gunzipped(&first_archive())).ok().expect("first archive reads");
    stories.extend(import_legacy_2(&gunzipped(&second_archive())).ok().expect("second archive reads"));
    assert!(!stories.is_empty());
    assert_eq!(stories.len(), 6);
}
