use progscrape::html::unescape_entities;
use progscrape::titletrimmer::{remove_tags, trim_title, AWKWARD_LENGTH, IDEAL_LENGTH};

#[test]
fn test_unescape() {
    let cases = [
        ("a b", "a b"),
        ("a&amp;b", "a&b"),
        ("a&#x27;b", "a'b"),
        ("a&#160;b", "a\u{00a0}b"),
        ("a&squot;&quot;b", "a'\"b"),
    ];
    for (a, b) in cases {
        assert_eq!(unescape_entities(a), b.to_owned());
    }
}

#[test]
fn test_bad_escape() {
    for a in ["a&amp", "a&fake;", "a?a=b&b=c"] {
        assert_eq!(unescape_entities(a), a.to_owned());
    }
}

#[test]
fn unescape_keeps_an_unclosed_entity() {
    assert_eq!(unescape_entities("fish &"), "fish &");
    assert_eq!(unescape_entities("a&"), "a&");
    assert_eq!(unescape_entities("a&b"), "a&b");
    assert_eq!(unescape_entities("&lt;b&gt;"), "<b>");
    assert_eq!(unescape_entities("&#65;&#x42;"), "AB");
}

#[test]
fn test_remove_tags() {
    let cases: [(&str, &str, Option<&str>, Option<&str>); 4] = [
        ("This is a title [tag]", "This is a title", None, Some("tag")),
        ("[tag] This is a title", "This is a title", Some("tag"), None),
        (
            "[longtag] This is a title [anotherlongtag]",
            "This is a title [anotherlongtag]",
            Some("longtag"),
            None,
        ),
        ("[short] This is a title [valid]", "This is a title", Some("short"), Some("valid")),
    ];
    for (input, expected_title, start_tag, end_tag) in cases {
        let (title, start, end) = remove_tags(input);
        assert_eq!(title, expected_title);
        assert_eq!(start.as_deref(), start_tag);
        assert_eq!(end.as_deref(), end_tag);
    }
}

#[test]
fn remove_tags_keeps_untagged_titles() {
    let (title, start, end) = remove_tags("Plain [not a tag!] title");
    assert_eq!(title, "Plain [not a tag!] title");
    assert_eq!(start, None);
    assert_eq!(end, None);
}

#[test]
fn trim_title_keeps_short_titles() {
    assert_eq!(trim_title("Short title", IDEAL_LENGTH, AWKWARD_LENGTH), "Short title");
}

#[test]
fn trim_title_cuts_at_pipes_then_sentences() {
    assert_eq!(trim_title("Title | Site name | Section", 12, 20), "Title");
    assert_eq!(trim_title("First part. Second part. Third part", 12, 20), "First part");
    assert_eq!(trim_title("abcdefghijklmnop", 10, 20), "abcdefghijklmnop");
}

#[test]
fn trim_title_simplifies_then_chops_commas() {
    assert_eq!(
        trim_title("A study of cats found that they sleep", 10, 30),
        "Study of cats found they sleep"
    );
    assert_eq!(trim_title("alpha beta, gamma, delta", 5, 20), "alpha beta, gamma…");
    assert_eq!(trim_title("alpha beta, gamma, delta", 5, 18), "alpha beta…");
    assert_eq!(trim_title("alpha beta, gamma, delta", 5, 12), "alpha beta…");
}

#[test]
fn remove_tags_trims_a_padded_title_first() {
    let (title, start, end) = remove_tags(" [tag] abc ");
    assert_eq!((title.as_str(), start.as_deref(), end.as_deref()), ("abc", Some("tag"), None));
    let (title, start, end) = remove_tags("\tabc [end]\n");
    assert_eq!((title.as_str(), start.as_deref(), end.as_deref()), ("abc", None, Some("end")));
}
