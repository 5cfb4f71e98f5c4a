use std::hash::{DefaultHasher, Hash, Hasher};

use progscrape::url::{ParsedUrl, StoryUrl, StoryUrlNorm};
use progscrape::urlnormalizer::{
    token_stream, url_normalization_string, urls_are_same, EscapedCompareToken, UrlPatterns,
};

fn parsed(s: &str) -> ParsedUrl {
    ParsedUrl::parse(s).expect("Failed to parse this URL")
}

#[test]
fn perf_test_normalization() {
    let pats = UrlPatterns::new();
    let url = parsed("http://content.usatoday.com/communities/sciencefair/post/2011/07/invasion-of-the-viking-women-unearthed/1?csp=34tech&utm_source=feedburner&utm_medium=feed&utm_campaign=Feed:+usatoday-TechTopStories+%28Tech+-+Top+Stories%29&siteID=je6NUbpObpQ-K0N7ZWh0LJjcLzI4zsnGxg#.VAcNjWOna51");
    for _ in 0..10000 {
        url_normalization_string(&pats, &url);
    }
}

#[test]
fn test_compare_token() {
    for (a, b) in [("abc", "abc"), ("abc.", "abc."), ("ab+c", "ab c"), ("ab%2ec", "ab.c")] {
        assert_eq!(EscapedCompareToken(a.to_owned()), EscapedCompareToken(b.to_owned()));
    }
}

#[test]
fn test_compare_token_ne() {
    for (a, b) in [
        ("abc", "abc."),
        ("abc.", "abc"),
        ("abc", "abc%"),
        ("abc", "abc%xx"),
        ("ab+c", "ab  c"),
        ("ab%2ec", "ab/c"),
    ] {
        assert_ne!(EscapedCompareToken(a.to_owned()), EscapedCompareToken(b.to_owned()));
    }
}

#[test]
fn test_url_normalization_identical() {
    let pats = UrlPatterns::new();
    for a in [
        "http://x.com",
        "http://1.2.3.4",
        "http://google.com/path/?query",
        "http://google.com/path/?query=bar",
        "http://facebook.com/path/?fbclid=bar&somequery=ok",
    ] {
        assert!(urls_are_same(&pats, &parsed(a), &parsed(a)), "{} != {}", a, a);
    }
}

#[test]
fn test_url_normalization_same() {
    let pats = UrlPatterns::new();
    for (a, b) in [
        ("http://google.com", "https://google.com"),
        ("http://google%2ecom", "https://google.com"),
        ("https://www.google.com", "https://google.com"),
        ("https://www.google.com/foo.html", "https://www.google.com/foo"),
        ("https://www.google.com/?#", "https://www.google.com"),
        ("https://www.google.com/", "https://www.google.com"),
        ("https://www.google.com/foo", "https://www.google.com/foo/"),
        ("https://www.google.com//foo", "https://www.google.com/foo"),
        ("http://x.com?utm_source=foo", "http://x.com"),
        ("http://x.com?fbclid=foo&gclid=bar", "http://x.com"),
        ("http://x.com?fbclid=foo", "http://x.com?fbclid=basdf"),
        ("http://x.com", "http://x.com#something"),
    ] {
        let (a, b) = (parsed(a), parsed(b));
        assert_eq!(url_normalization_string(&pats, &a), url_normalization_string(&pats, &b));
        assert!(urls_are_same(&pats, &a, &b));
    }
}

#[test]
fn test_url_normalization_different() {
    let pats = UrlPatterns::new();
    for (a, b) in [
        ("http://1.2.3.4", "http://1.2.3.5"),
        ("https://google.com", "https://facebook.com"),
        ("https://google.com/abc", "https://google.com/def"),
        ("https://google.com/?page=1", "https://google.com/?page=2"),
        ("https://google.com/?page=%31", "https://google.com/?page=%32"),
        ("http://arxiv.org/abs/1405.0126", "http://arxiv.org/abs/1405.0351"),
        ("http://www.bmj.com/content/360/bmj.j5855", "http://www.bmj.com/content/360/bmj.k322"),
        (
            "https://groups.google.com/forum/#!topic/mailing.postfix.users/6Kkel3J_nv4",
            "https://groups.google.com/forum/#!topic/erlang-programming/nFWfmwK64RU",
        ),
    ] {
        let (a, b) = (parsed(a), parsed(b));
        assert_ne!(url_normalization_string(&pats, &a), url_normalization_string(&pats, &b));
        assert!(!urls_are_same(&pats, &a, &b));
    }
}

#[test]
fn token_stream_of_a_full_url() {
    let pats = UrlPatterns::new();
    let tokens: Vec<String> = token_stream(&pats, &parsed("https://www2.example.com/a//b/page.html?z=1&utm_term=x&a=2#!frag"))
        .into_iter()
        .map(|t| t.0)
        .collect();
    assert_eq!(
        tokens,
        vec!["example.com", "a", "b", "page", "a", "2", "a=2", "z", "1", "z=1", "frag"]
    );
    assert_eq!(
        url_normalization_string(&pats, &parsed("http://www.google.com/")),
        "google.com:"
    );
}

#[test]
fn story_url_keeps_raw_host_and_normalization() {
    let url = StoryUrl::parse("http://www.google.com/?q=search").expect("parses");
    assert_eq!(url.raw(), "http://www.google.com/?q=search");
    assert_eq!(url.host(), "google.com");
    assert_eq!(url.normalization().string(), "google.com:q:search:");
    assert_eq!(url.to_string(), "http://www.google.com/?q=search");
    assert!(StoryUrl::parse("not a url").is_none());
    assert!(StoryUrl::parse("mailto:someone@example.com").is_none());
}

#[test]
fn story_url_norm_round_trips_its_string() {
    let norm = StoryUrlNorm::from_string("google.com:".to_owned());
    assert_eq!(norm.string(), "google.com:");
    assert_eq!(norm.hash(), StoryUrlNorm::from_string("google.com:".to_owned()).hash());
    assert_ne!(norm.hash(), StoryUrlNorm::from_string("example.com:".to_owned()).hash());
}

#[test]
fn story_url_norm_hash_is_the_default_hasher_of_its_string() {
    let mut hasher = DefaultHasher::new();
    "google.com:".hash(&mut hasher);
    let expected = hasher.finish() as i64;
    assert_eq!(StoryUrlNorm::from_string("google.com:".to_owned()).hash(), expected);
}
