use progscrape::query::StoryQuery;
use progscrape::tagger::{StoryTagger, TagConfig, TaggerConfig};

fn tagger() -> StoryTagger {
    let tags = vec![
        ("rust".to_owned(), TagConfig::default()),
        (
            "c++".to_owned(),
            TagConfig { internal: Some("cplusplus".to_owned()), symbol: true, ..Default::default() },
        ),
    ];
    StoryTagger::new(&TaggerConfig { tags: vec![("testing".to_owned(), tags)] })
}

#[test]
fn searches_become_queries() {
    let t = tagger();
    assert!(matches!(StoryQuery::from_search(&t, "   "), StoryQuery::FrontPage));
    assert!(matches!(StoryQuery::from_search(&t, " ?! "), StoryQuery::FrontPage));
    match StoryQuery::from_search(&t, " Rust ") {
        StoryQuery::TagSearch(tag, alt) => {
            assert_eq!(tag, "rust");
            assert_eq!(alt, None);
        }
        _ => panic!("expected a tag search"),
    }
    match StoryQuery::from_search(&t, "C++") {
        StoryQuery::TagSearch(tag, alt) => {
            assert_eq!(tag, "cplusplus");
            assert_eq!(alt.as_deref(), Some("c++"));
        }
        _ => panic!("expected a tag search"),
    }
    match StoryQuery::from_search(&t, "www.example.com") {
        StoryQuery::DomainSearch(host) => assert_eq!(host, "example.com"),
        _ => panic!("expected a domain search"),
    }
    match StoryQuery::from_search(&t, "https://example.com/a/b") {
        StoryQuery::UrlSearch(url) => assert_eq!(url.raw(), "https://example.com/a/b"),
        _ => panic!("expected a URL search"),
    }
    match StoryQuery::from_search(&t, "hello world") {
        StoryQuery::TextSearch(text) => assert_eq!(text, "hello world"),
        _ => panic!("expected a text search"),
    }
    assert!(StoryQuery::try_domain_or_url("plain").is_none());
}
