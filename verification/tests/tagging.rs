use progscrape::tagger::{MultiTokenTag, StoryTagger, TagConfig, Tagger, TaggerConfig};
use progscrape::tagset::{TagAcceptor, TagSet};

fn s(x: &str) -> String {
    x.to_owned()
}

fn strs(v: &[&str]) -> Vec<String> {
    v.iter().map(|x| x.to_string()).collect()
}

/// A tagger configuration with a wide variety of cases.
fn tagger_config() -> TaggerConfig {
    let tags: Vec<(String, TagConfig)> = vec![
        (s("video(s)"), TagConfig { hosts: strs(&["youtube.com", "vimeo.com"]), ..Default::default() }),
        (s("rust"), TagConfig::default()),
        (s("chrome"), TagConfig { alt: Some(s("chromium")), ..Default::default() }),
        (s("neovim"), TagConfig { implies: Some(s("vim")), ..Default::default() }),
        (s("vim"), TagConfig::default()),
        (
            s("3d"),
            TagConfig {
                alts: strs(&[
                    "3(-)d",
                    "3(-)dimension(s)",
                    "three(-)d",
                    "three(-)dimension(s)",
                    "three(-)dimensional",
                    "3(-)dimensional",
                ]),
                ..Default::default()
            },
        ),
        (s("usbc"), TagConfig { alt: Some(s("usb(-)c")), ..Default::default() }),
        (s("at&t"), TagConfig { internal: Some(s("atandt")), symbol: true, ..Default::default() }),
        (s("angular"), TagConfig { alt: Some(s("angularjs")), ..Default::default() }),
        (s("vi"), TagConfig { internal: Some(s("vieditor")), ..Default::default() }),
        (
            s("go"),
            TagConfig {
                alt: Some(s("golang")),
                internal: Some(s("golang")),
                excludes: strs(&[
                    "can go", "will go", "to go", "go to", "go in", "go into", "let go", "letting go",
                    "go home",
                ]),
                ..Default::default()
            },
        ),
        (s("c"), TagConfig { internal: Some(s("clanguage")), ..Default::default() }),
        (
            s("d"),
            TagConfig {
                internal: Some(s("dlanguage")),
                excludes: strs(&["vitamin d", "d wave", "d waves"]),
                ..Default::default()
            },
        ),
        (s("c++"), TagConfig { internal: Some(s("cplusplus")), symbol: true, ..Default::default() }),
        (s("c#"), TagConfig { internal: Some(s("csharp")), symbol: true, ..Default::default() }),
        (s("f#"), TagConfig { internal: Some(s("fsharp")), symbol: true, ..Default::default() }),
        (s(".net"), TagConfig { internal: Some(s("dotnet")), symbol: true, ..Default::default() }),
    ];
    TaggerConfig { tags: vec![(s("testing"), tags)] }
}

fn tagger() -> StoryTagger {
    let t = StoryTagger::new(&tagger_config());
    assert!(t.scans_terminate());
    t
}

fn tags_of(tagger: &StoryTagger, title: &str) -> Vec<String> {
    let mut tag_set = TagSet::new();
    tagger.tag(title, &mut tag_set);
    tag_set.collect()
}

#[test]
fn test_display_tags() {
    let tagger = tagger();
    assert_eq!(
        tagger.make_display_tags(&strs(&["atandt", "cplusplus", "clanguage", "rust"])),
        strs(&["at&t", "c++", "c", "rust"])
    );
}

#[test]
fn test_search_mapping() {
    let tagger = tagger();
    let cases: &[(&str, &[&str])] = &[
        ("cplusplus", &["c++", "cplusplus"]),
        ("clanguage", &["c", "clanguage"]),
        ("atandt", &["at&t", "atandt"]),
        ("angular", &["angular", "angularjs"]),
        ("golang", &["go", "golang"]),
        ("dotnet", &[".net", "dotnet"]),
    ];
    for (a, bs) in cases {
        for b in bs.iter() {
            assert_eq!(tagger.check_tag_search(b), Some(a.to_string()), "Didn't match for '{b}'");
        }
    }
}

#[test]
fn test_tag_extraction() {
    let tagger = tagger();
    let cases: &[(&str, &[&str])] = &[
        ("I love rust!", &["rust"]),
        ("Good old video", &["video"]),
        ("Good old videos", &["video"]),
        ("Chromium is a project", &["chrome"]),
        ("AngularJS is fun", &["angular"]),
        ("Chromium is the open Chrome", &["chrome"]),
        ("Neovim is kind of cool", &["neovim", "vim"]),
        ("Neovim is a kind of vim", &["neovim", "vim"]),
        ("C is hard", &["clanguage"]),
        ("D is hard", &["dlanguage"]),
        ("C# is hard", &["csharp"]),
        ("C++ is hard", &["cplusplus"]),
        ("AT&T has an ampersand", &["atandt"]),
    ];
    for (title, tags) in cases {
        assert_eq!(tags_of(&tagger, title), strs(tags), "while checking tags for {title}");
    }
}

#[test]
fn test_c_and_d_cases() {
    let tagger = tagger();
    let cases: &[(&str, &[&str])] = &[
        ("Usbc.wtf - an article and quiz to find the right USB-C cable", &["usbc"]),
        ("D&D Publisher Addresses Backlash Over Controversial License", &[]),
        ("Microfeatures I'd like to see in more languages", &[]),
        ("What are companies doing with D-Wave's quantum hardware?", &[]),
        ("What are companies doing with D Wave's quantum hardware?", &[]),
        ("Conserving Dürer's Triumphal Arch: coming apart at the seams (2016)", &[]),
        ("J.D. Vance Is Coming for You", &[]),
        ("Rewriting TypeScript in Rust? You'd have to be crazy", &["rust"]),
        ("Vitamin D Supplementation Does Not Influence Growth in Children", &[]),
        ("Vitamin-D Supplementation Does Not Influence Growth in Children", &[]),
        ("They'd rather not", &[]),
        ("Apple Music deletes your original songs and replaces them with DRM'd versions", &[]),
    ];
    for (title, tags) in cases {
        assert_eq!(tags_of(&tagger, title), strs(tags), "while checking tags for {title}");
    }
}

#[test]
fn test_3d_cases() {
    let tagger = tagger();
    let cases: &[(&str, &[&str])] = &[
        ("New Process Allows 3-D Printing of Microscale Metallic Parts", &["3d"]),
        ("3D printing is wild", &["3d"]),
        ("3 D printing is hard", &["3d"]),
        ("3-D printing is hard", &["3d"]),
        ("three-d printing is hard", &["3d"]),
        ("three d printing is hard", &["3d"]),
        ("three dimensional printing is hard", &["3d"]),
        ("3 dimensional printing is hard", &["3d"]),
        ("3-dimensional printing is hard", &["3d"]),
        ("I love printing in three dimensions", &["3d"]),
    ];
    for (title, tags) in cases {
        assert_eq!(tags_of(&tagger, title), strs(tags), "while checking tags for {title}");
    }
}

#[test]
fn display_tag_of_unknown_tag_is_the_tag() {
    let tagger = tagger();
    assert_eq!(tagger.make_display_tag("zig"), "zig");
    assert_eq!(tagger.make_display_tag("dotnet"), ".net");
    assert_eq!(tagger.check_tag_search("zig"), None);
}

#[test]
fn tag_details_names_no_tags() {
    assert_eq!(StoryTagger::tag_details().len(), 0);
}

#[test]
fn old_tagger_tags_titles() {
    let tagger = Tagger::new(&tagger_config());
    assert!(tagger.scans_terminate());
    let mut tags = TagSet::new();
    tagger.tag("I love rust and neovim", &mut tags);
    assert_eq!(tags.collect(), strs(&["neovim", "rust", "vim"]));
}

#[test]
fn tag_set_keeps_lowercase_tags_sorted_and_unique() {
    let mut tags = TagSet::new();
    tags.add("Rust");
    tags.add("go");
    tags.add("rust");
    tags.tag("Zig");
    assert!(tags.contains("rust"));
    assert!(!tags.contains("Rust"));
    assert_eq!(tags.collect(), strs(&["go", "rust", "zig"]));
    assert_eq!(tags.dump(), strs(&["go", "rust", "zig"]));
    let other = TagSet::from_iter(strs(&["b", "a", "b"]));
    assert_eq!(other.collect(), strs(&["a", "b"]));
    assert_eq!(TagSet::default().collect().len(), 0);
}

#[test]
fn multi_token_tags_match_and_chomp_prefixes() {
    let tag = MultiTokenTag::from_words(&"three dimensional".chars().collect());
    assert_eq!(tag.len(), 2);
    let words = vec!["three".to_owned(), "dimensional".to_owned(), "printing".to_owned()];
    assert!(tag.matches(&words));
    assert!(!tag.matches(&words[1..]));
    let mut pos = 0;
    assert!(tag.chomp(&words, &mut pos));
    assert_eq!(pos, 2);
    assert!(!tag.chomp(&words, &mut pos));
    assert_eq!(pos, 2);
}
