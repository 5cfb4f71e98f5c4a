//! Scrape sources and the identifiers of scrapes (`source-subsource-id`).
use vstd::prelude::*;

use crate::tagger::opt_view;
use crate::text::{
    chars_of, contains, ends_with, find, first_occurrence, has_prefix, has_suffix, contains_seq,
    push_str, starts_with, str_eq, string_of, string_of_range,
};
use crate::url::StoryUrl;

verus! {

/// The sites stories are scraped from.
#[derive(Clone, Copy, Debug, PartialEq, Eq, Structural, Hash, PartialOrd, Ord)]
pub enum ScrapeSource {
    HackerNews,
    Slashdot,
    Lobsters,
    Reddit,
    Feed,
    Other,
}

/// The name of a source, as it appears in scrape identifiers and configuration.
pub open spec fn source_name(s: ScrapeSource) -> Seq<char> {
    match s {
        ScrapeSource::HackerNews => "hacker_news"@,
        ScrapeSource::Slashdot => "slashdot"@,
        ScrapeSource::Lobsters => "lobsters"@,
        ScrapeSource::Reddit => "reddit"@,
        ScrapeSource::Feed => "feed"@,
        ScrapeSource::Other => "other"@,
    }
}

/// The source with the given name.
pub open spec fn source_from_name(s: Seq<char>) -> Option<ScrapeSource> {
    if s == "hacker_news"@ {
        Some(ScrapeSource::HackerNews)
    } else if s == "slashdot"@ {
        Some(ScrapeSource::Slashdot)
    } else if s == "lobsters"@ {
        Some(ScrapeSource::Lobsters)
    } else if s == "reddit"@ {
        Some(ScrapeSource::Reddit)
    } else if s == "feed"@ {
        Some(ScrapeSource::Feed)
    } else if s == "other"@ {
        Some(ScrapeSource::Other)
    } else {
        None
    }
}

/// The sources whose comment pages are known: Hacker News, Lobsters and feeds (which have none).
pub open spec fn knows_comments(s: ScrapeSource) -> bool {
    s == ScrapeSource::HackerNews || s == ScrapeSource::Lobsters || s == ScrapeSource::Feed
}

/// The comments page of the story `id` on source `s`.
pub open spec fn comments_url_of(s: ScrapeSource, id: Seq<char>) -> Seq<char> {
    match s {
        ScrapeSource::HackerNews => "https://news.ycombinator.com/item?id="@ + id,
        ScrapeSource::Lobsters => "https://lobste.rs/s/"@ + id + "/"@,
        _ => Seq::empty(),
    }
}

/// Whether `host` serves the comment pages of source `s`.
pub open spec fn is_comments_host_of(s: ScrapeSource, host: Seq<char>) -> bool {
    match s {
        ScrapeSource::HackerNews => has_suffix(host, "news.ycombinator.com"@),
        ScrapeSource::Lobsters => has_suffix(host, "lobste.rs"@),
        _ => false,
    }
}

/// `s` without its trailing `c`s.
pub open spec fn trim_end_char(s: Seq<char>, c: char) -> Seq<char>
    decreases s.len(),
{
    if s.len() > 0 && s.last() == c {
        trim_end_char(s.drop_last(), c)
    } else {
        s
    }
}

/// The story id in a Lobsters comments URL.
pub open spec fn lobsters_id_of(url: Seq<char>) -> Option<Seq<char>> {
    let t = trim_end_char(url, '/');
    let prefix = "https://lobste.rs/s/"@;
    if has_prefix(t, prefix) {
        Some(t.skip(prefix.len() as int))
    } else {
        None
    }
}

/// Hacker News.
pub struct HackerNews {}

impl HackerNews {
    pub fn comments_url(id: &str, subsource: Option<&str>) -> (r: String)
        ensures
            r@ == comments_url_of(ScrapeSource::HackerNews, id@),
    {
        let mut s = String::new();
        push_str(&mut s, "https://news.ycombinator.com/item?id=");
        push_str(&mut s, id);
        s
    }

    pub fn is_comments_host(host: &str) -> (r: bool)
        ensures
            r == is_comments_host_of(ScrapeSource::HackerNews, host@),
    {
        let h = chars_of(host);
        let suffix = chars_of("news.ycombinator.com");
        ends_with(h.as_slice(), suffix.as_slice())
    }
}

/// Slashdot.
pub struct Slashdot {}

/// Lobsters.
pub struct Lobsters {}

impl Lobsters {
    pub fn comments_url(id: &str, subsource: Option<&str>) -> (r: String)
        ensures
            r@ == comments_url_of(ScrapeSource::Lobsters, id@),
    {
        let mut s = String::new();
        push_str(&mut s, "https://lobste.rs/s/");
        push_str(&mut s, id);
        push_str(&mut s, "/");
        s
    }

    /// The story id (and no subsource) in a comments URL: the text after `https://lobste.rs/s/`
    /// once trailing slashes are gone.
    pub fn id_from_comments_url(url: &str) -> (r: Option<(String, Option<String>)>)
        ensures
            match (r, lobsters_id_of(url@)) {
                (Some((id, sub)), Some(v)) => id@ == v && sub is None,
                (None, None) => true,
                _ => false,
            },
    {
        let mut t = chars_of(url);
        while t.len() > 0 && t[t.len() - 1] == '/'
            invariant
                trim_end_char(t@, '/') == trim_end_char(url@, '/'),
            decreases t.len(),
        {
            let ghost before = t@;
            t.pop();
            assert(t@ == before.drop_last());
        }
        let prefix = chars_of("https://lobste.rs/s/");
        if starts_with(t.as_slice(), prefix.as_slice()) {
            let n = t.len();
            Some((string_of_range(t.as_slice(), prefix.len(), n), None))
        } else {
            None
        }
    }

    pub fn is_comments_host(host: &str) -> (r: bool)
        ensures
            r == is_comments_host_of(ScrapeSource::Lobsters, host@),
    {
        let h = chars_of(host);
        let suffix = chars_of("lobste.rs");
        ends_with(h.as_slice(), suffix.as_slice())
    }
}

/// Reddit.
pub struct Reddit {}

/// Feeds: stories without comment pages.
pub struct Feed {}

impl Feed {
    pub fn comments_url(id: &str, subsource: Option<&str>) -> (r: String)
        ensures
            r@ == Seq::<char>::empty(),
    {
        String::new()
    }

    pub fn id_from_comments_url(url: &str) -> (r: Option<(String, Option<String>)>)
        ensures
            r is None,
    {
        None
    }

    pub fn is_comments_host(host: &str) -> (r: bool)
        ensures
            !r,
    {
        false
    }
}

/// What a merge of two scrapes changed.
#[derive(Clone, Copy, Debug, PartialEq, Eq, Structural, Hash)]
pub enum ScrapeMergeResult {
    Date,
    Title,
    URL,
}

impl ScrapeSource {
    pub fn into_str(&self) -> (r: &'static str)
        ensures
            r@ == source_name(*self),
    {
        match self {
            ScrapeSource::HackerNews => "hacker_news",
            ScrapeSource::Slashdot => "slashdot",
            ScrapeSource::Lobsters => "lobsters",
            ScrapeSource::Reddit => "reddit",
            ScrapeSource::Feed => "feed",
            ScrapeSource::Other => "other",
        }
    }

    pub fn try_from_str(s: &str) -> (r: Option<ScrapeSource>)
        ensures
            r == source_from_name(s@),
    {
        if str_eq(s, "hacker_news") {
            Some(ScrapeSource::HackerNews)
        } else if str_eq(s, "slashdot") {
            Some(ScrapeSource::Slashdot)
        } else if str_eq(s, "lobsters") {
            Some(ScrapeSource::Lobsters)
        } else if str_eq(s, "reddit") {
            Some(ScrapeSource::Reddit)
        } else if str_eq(s, "feed") {
            Some(ScrapeSource::Feed)
        } else if str_eq(s, "other") {
            Some(ScrapeSource::Other)
        } else {
            None
        }
    }

    /// Every source that has a scraper (all but `Other`), in declaration order.
    pub fn all() -> (r: Vec<ScrapeSource>)
        ensures
            r@ == seq![
                ScrapeSource::HackerNews,
                ScrapeSource::Slashdot,
                ScrapeSource::Lobsters,
                ScrapeSource::Reddit,
                ScrapeSource::Feed,
            ],
    {
        vec![
            ScrapeSource::HackerNews,
            ScrapeSource::Slashdot,
            ScrapeSource::Lobsters,
            ScrapeSource::Reddit,
            ScrapeSource::Feed,
        ]
    }

    /// The comments page of the story `id` on this source.
    pub fn comments_url(&self, id: &str, subsource: Option<&str>) -> (r: String)
        requires
            knows_comments(*self),
        ensures
            r@ == comments_url_of(*self, id@),
    {
        match self {
            ScrapeSource::HackerNews => HackerNews::comments_url(id, subsource),
            ScrapeSource::Lobsters => Lobsters::comments_url(id, subsource),
            _ => Feed::comments_url(id, subsource),
        }
    }

    /// The scrape a comments URL of this source points to.
    pub fn id_from_comments_url(&self, url: &str) -> (r: Option<ScrapeId>)
        requires
            *self == ScrapeSource::Lobsters || *self == ScrapeSource::Feed,
        ensures
            *self == ScrapeSource::Feed ==> r is None,
            *self == ScrapeSource::Lobsters ==> match (r, lobsters_id_of(url@)) {
                (Some(x), Some(id)) => x@ == (ScrapeSource::Lobsters, None::<Seq<char>>, id),
                (None, None) => true,
                _ => false,
            },
    {
        let found = if *self == ScrapeSource::Feed {
            Feed::id_from_comments_url(url)
        } else {
            Lobsters::id_from_comments_url(url)
        };
        match found {
            Some((id, subsource)) => Some(ScrapeId { source: *self, subsource, id }),
            None => None,
        }
    }

    /// Whether `host` serves the comment pages of this source.
    pub fn is_comments_host(&self, host: &str) -> (r: bool)
        requires
            knows_comments(*self),
        ensures
            r == is_comments_host_of(*self, host@),
    {
        match self {
            ScrapeSource::HackerNews => HackerNews::is_comments_host(host),
            ScrapeSource::Lobsters => Lobsters::is_comments_host(host),
            _ => Feed::is_comments_host(host),
        }
    }

    /// The identifier of the scrape `id` of this source.
    pub fn id(&self, id: &str) -> (r: ScrapeId)
        ensures
            r@ == (*self, None::<Seq<char>>, id@),
    {
        ScrapeId { source: *self, subsource: None, id: id.to_owned() }
    }

    /// The identifier of the scrape `id` of this source, within `subsource`.
    pub fn subsource_id(&self, subsource: &str, id: &str) -> (r: ScrapeId)
        ensures
            r@ == (*self, Some(subsource@), id@),
    {
        ScrapeId { source: *self, subsource: Some(subsource.to_owned()), id: id.to_owned() }
    }
}

/// Identifies a scrape by its source, an optional subsource and the source's own id.
#[derive(Clone, Debug, PartialEq, Eq, Hash, PartialOrd, Ord)]
pub struct ScrapeId {
    pub source: ScrapeSource,
    pub subsource: Option<String>,
    pub id: String,
}

impl View for ScrapeId {
    type V = (ScrapeSource, Option<Seq<char>>, Seq<char>);

    open spec fn view(&self) -> (ScrapeSource, Option<Seq<char>>, Seq<char>) {
        (self.source, opt_view(self.subsource), self.id@)
    }
}

/// The text of a scrape identifier: `source-id`, or `source-subsource-id`.
pub open spec fn scrape_id_text(v: (ScrapeSource, Option<Seq<char>>, Seq<char>)) -> Seq<char> {
    match v.1 {
        Some(sub) => source_name(v.0) + seq!['-'] + sub + seq!['-'] + v.2,
        None => source_name(v.0) + seq!['-'] + v.2,
    }
}

/// The scrape identifier written as `s`: the source's name up to the first `-`, then either
/// `subsource-id` split at the next `-`, or just the id.
pub open spec fn parse_scrape_id(s: Seq<char>) -> Option<(ScrapeSource, Option<Seq<char>>, Seq<char>)> {
    match first_occurrence(s, seq!['-']) {
        None => None,
        Some(i) => match source_from_name(s.take(i)) {
            None => None,
            Some(src) => {
                let rest = s.skip(i + 1);
                match first_occurrence(rest, seq!['-']) {
                    Some(j) => Some((src, Some(rest.take(j)), rest.skip(j + 1))),
                    None => Some((src, None, rest)),
                }
            },
        },
    }
}

impl ScrapeId {
    pub fn new(source: ScrapeSource, subsource: Option<String>, id: String) -> (r: Self)
        ensures
            r.source == source,
            r.subsource == subsource,
            r.id == id,
    {
        ScrapeId { source, subsource, id }
    }

    /// Whether `url` would make this story a self-post: its host serves this source's comment
    /// pages and the URL contains this scrape's id.
    pub fn is_likely_self_post(&self, url: &StoryUrl) -> (r: bool)
        requires
            knows_comments(self.source),
        ensures
            r == (is_comments_host_of(self.source, url@.host) && contains_seq(url@.raw, self.id@)),
    {
        if !self.source.is_comments_host(url.host()) {
            return false;
        }
        let raw = chars_of(url.raw());
        let id = chars_of(self.id.as_str());
        contains(raw.as_slice(), id.as_slice())
    }

    /// The comments page of this scrape.
    pub fn comments_url(&self) -> (r: String)
        requires
            knows_comments(self.source),
        ensures
            r@ == comments_url_of(self.source, self.id@),
    {
        let sub: Option<&str> = match &self.subsource {
            Some(s) => Some(s.as_str()),
            None => None,
        };
        self.source.comments_url(self.id.as_str(), sub)
    }

    /// Parses `source-id` or `source-subsource-id`.
    pub fn from_string(s: &str) -> (r: Option<Self>)
        ensures
            match (r, parse_scrape_id(s@)) {
                (Some(x), Some(v)) => x@ == v,
                (None, None) => true,
                _ => false,
            },
    {
        let c = chars_of(s);
        let dash = vec!['-'];
        assert(dash@ == seq!['-']);
        match find(c.as_slice(), dash.as_slice()) {
            None => None,
            Some(i) => {
                let head = string_of_range(c.as_slice(), 0, i);
                assert(head@ == c@.take(i as int));
                match ScrapeSource::try_from_str(head.as_str()) {
                    None => None,
                    Some(source) => {
                        let n = c.len();
                        let mut rest: Vec<char> = Vec::new();
                        crate::text::extend_range(&mut rest, c.as_slice(), i + 1, n);
                        assert(rest@ =~= c@.skip(i + 1));
                        match find(rest.as_slice(), dash.as_slice()) {
                            Some(j) => {
                                let m = rest.len();
                                let sub = string_of_range(rest.as_slice(), 0, j);
                                let id = string_of_range(rest.as_slice(), j + 1, m);
                                assert(sub@ =~= rest@.take(j as int));
                                assert(id@ =~= rest@.skip(j + 1));
                                Some(ScrapeId { source, subsource: Some(sub), id })
                            },
                            None => Some(ScrapeId { source, subsource: None, id: string_of(rest.as_slice()) }),
                        }
                    },
                }
            },
        }
    }

    /// The identifier's text, `source-id` or `source-subsource-id`.
    pub fn to_string(&self) -> (r: String)
        ensures
            r@ == scrape_id_text(self@),
    {
        let mut s = String::new();
        push_str(&mut s, self.source.into_str());
        push_str(&mut s, "-");
        match &self.subsource {
            Some(sub) => {
                push_str(&mut s, sub.as_str());
                push_str(&mut s, "-");
            },
            None => {},
        }
        push_str(&mut s, self.id.as_str());
        proof {
            reveal_strlit("-");
        }
        s
    }
}

/// Every source's name reads back as that source.
pub proof fn lemma_source_name_round_trip(s: ScrapeSource)
    ensures
        source_from_name(source_name(s)) == Some(s),
        !source_name(s).contains('-'),
{
    reveal_strlit("hacker_news");
    reveal_strlit("slashdot");
    reveal_strlit("lobsters");
    reveal_strlit("reddit");
    reveal_strlit("feed");
    reveal_strlit("other");
    assert("hacker_news"@.len() == 11);
    assert("slashdot"@.len() == 8 && "slashdot"@[0] == 's');
    assert("lobsters"@.len() == 8 && "lobsters"@[0] == 'l');
    assert("reddit"@.len() == 6);
    assert("feed"@.len() == 4);
    assert("other"@.len() == 5);
    let n = source_name(s);
    assert forall|k: int| 0 <= k < n.len() implies n[k] != '-' by {
        assert(n[k] == source_name(s)[k]);
    }
}

/// A name that reads as a source is that source's name.
proof fn lemma_source_from_name(s: Seq<char>)
    ensures
        source_from_name(s) matches Some(src) ==> source_name(src) == s,
{
}

/// Writing an identifier and parsing it back gives the identifier again, as long as the part
/// that follows the source (the id alone, or the subsource) has no `-`.
pub proof fn lemma_scrape_id_round_trip(v: (ScrapeSource, Option<Seq<char>>, Seq<char>))
    requires
        v.1 is None ==> !v.2.contains('-'),
        v.1 matches Some(sub) ==> !sub.contains('-'),
    ensures
        parse_scrape_id(scrape_id_text(v)) == Some(v),
{
    let name = source_name(v.0);
    lemma_source_name_round_trip(v.0);
    let t = scrape_id_text(v);
    let rest = match v.1 {
        Some(sub) => sub + seq!['-'] + v.2,
        None => v.2,
    };
    assert(t =~= name + seq!['-'] + rest);
    assert forall|j: int| 0 <= j < name.len() implies t[j] != '-' by {
        assert(t[j] == name[j]);
    }
    assert(t[name.len() as int] == '-');
    crate::text::lemma_first_char(t, '-', name.len() as int);
    assert(t.take(name.len() as int) =~= name);
    assert(t.skip(name.len() as int + 1) =~= rest);
    match v.1 {
        Some(sub) => {
            assert forall|j: int| 0 <= j < sub.len() implies rest[j] != '-' by {
                assert(rest[j] == sub[j]);
            }
            assert(rest[sub.len() as int] == '-');
            crate::text::lemma_first_char(rest, '-', sub.len() as int);
            assert(rest.take(sub.len() as int) =~= sub);
            assert(rest.skip(sub.len() as int + 1) =~= v.2);
        },
        None => {
            crate::text::lemma_no_char(rest, '-');
        },
    }
}

/// An identifier read from a text writes back as that very text.
pub proof fn lemma_parsed_scrape_id_text(s: Seq<char>)
    ensures
        parse_scrape_id(s) matches Some(v) ==> scrape_id_text(v) == s,
{
    crate::text::lemma_first_char_found(s, '-');
    if let Some(i) = first_occurrence(s, seq!['-']) {
        lemma_source_from_name(s.take(i));
        if let Some(src) = source_from_name(s.take(i)) {
            let rest = s.skip(i + 1);
            crate::text::lemma_first_char_found(rest, '-');
            match first_occurrence(rest, seq!['-']) {
                Some(j) => {
                    assert(rest =~= rest.take(j) + seq!['-'] + rest.skip(j + 1));
                },
                None => {},
            }
            assert(s =~= s.take(i) + seq!['-'] + rest);
        }
    }
}

} // verus!
