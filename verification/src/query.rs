//! Story queries, and how a search box's text becomes one: a tag, a domain, a URL or plain text.
use vstd::prelude::*;

use crate::shard::Shard;
use crate::story_id::StoryIdentifier;
use crate::tagger::{char_is_alphanumeric, opt_view, search_target, unicode_alphanumeric, StoryTagger};
use crate::text::{chars_of, chars_eq, contains_char, lower_seq, string_of, to_ascii_lowercase, trim, trim_seq};
use crate::url::{story_url_of, StoryUrl, StoryUrlView};

verus! {

/// The kind of story fetch to perform.
pub enum StoryQuery {
    /// A single story.
    ById(StoryIdentifier),
    /// All stories from a given shard.
    ByShard(Shard),
    /// Front page stories.
    FrontPage,
    /// Stories matching a tag query (the second item is the alternative).
    TagSearch(String, Option<String>),
    /// Stories matching a domain query.
    DomainSearch(String),
    /// Stories matching a specific URL.
    UrlSearch(StoryUrl),
    /// Stories matching a text search.
    TextSearch(String),
    /// Related stories (title, tags).
    Related(String, Vec<String>),
}

/// Some character of `s` is alphanumeric.
pub open spec fn has_alphanumeric(s: Seq<char>) -> bool {
    exists|i: int| 0 <= i < s.len() && unicode_alphanumeric(#[trigger] s[i])
}

/// A host fit for a domain search: only alphanumerics, `.` and `-`, and at least one alphanumeric
/// or `-`.
pub open spec fn is_plain_host(h: Seq<char>) -> bool {
    &&& forall|i: int| 0 <= i < h.len() ==> (unicode_alphanumeric(#[trigger] h[i]) || h[i] == '.' || h[i] == '-')
    &&& exists|i: int| 0 <= i < h.len() && (unicode_alphanumeric(#[trigger] h[i]) || h[i] == '-')
}

/// The URL a search names: the search itself when it has a `:`, else the search behind `http://`.
pub open spec fn search_url(s: Seq<char>) -> Option<StoryUrlView> {
    if s.contains(':') {
        story_url_of(s)
    } else {
        story_url_of("http://"@ + s)
    }
}

/// The domain or URL search a (trimmed) search names, if any.
pub open spec fn domain_or_url_of(s: Seq<char>) -> Option<(bool, StoryUrlView)> {
    if s.contains('.') || s.contains(':') {
        match search_url(s) {
            Some(u) => if is_plain_host(u.host) {
                Some((s.contains('/'), u))
            } else {
                None
            },
            None => None,
        }
    } else {
        None
    }
}

/// `r` is the query that the search text `search` becomes with the tagger model `m`.
pub open spec fn is_query_for(m: crate::tagger::TaggerModel, search: Seq<char>, r: StoryQuery) -> bool {
    let s = trim_seq(search);
    if s.len() == 0 || !has_alphanumeric(s) {
        r is FrontPage
    } else {
        match search_target(m, s) {
            Some(tag) => match r {
                StoryQuery::TagSearch(t, alt) => t@ == tag && opt_view(alt) == (if lower_seq(tag)
                    == lower_seq(s) {
                    None
                } else {
                    Some(lower_seq(s))
                }),
                _ => false,
            },
            None => match domain_or_url_of(s) {
                Some((true, u)) => match r {
                    StoryQuery::UrlSearch(x) => x@ == u,
                    _ => false,
                },
                Some((false, u)) => match r {
                    StoryQuery::DomainSearch(h) => h@ == u.host,
                    _ => false,
                },
                None => match r {
                    StoryQuery::TextSearch(t) => t@ == s,
                    _ => false,
                },
            },
        }
    }
}

fn has_alphanumeric_exec(s: &[char]) -> (r: bool)
    ensures
        r == has_alphanumeric(s@),
{
    let mut i: usize = 0;
    while i < s.len()
        invariant
            i <= s@.len(),
            forall|j: int| 0 <= j < i ==> !unicode_alphanumeric(#[trigger] s@[j]),
        decreases s@.len() - i,
    {
        if char_is_alphanumeric(s[i]) {
            return true;
        }
        i = i + 1;
    }
    false
}

fn is_plain_host_exec(h: &[char]) -> (r: bool)
    ensures
        r == is_plain_host(h@),
{
    let mut i: usize = 0;
    let mut some = false;
    while i < h.len()
        invariant
            i <= h@.len(),
            forall|j: int| 0 <= j < i ==> (unicode_alphanumeric(#[trigger] h@[j]) || h@[j] == '.' || h@[j] == '-'),
            some == exists|j: int| 0 <= j < i && (unicode_alphanumeric(#[trigger] h@[j]) || h@[j] == '-'),
        decreases h@.len() - i,
    {
        let c = h[i];
        let alnum = char_is_alphanumeric(c);
        if !alnum && c != '.' && c != '-' {
            return false;
        }
        if alnum || c == '-' {
            some = true;
        }
        i = i + 1;
    }
    some
}

impl StoryQuery {
    /// The domain or URL search that a trimmed search names, if any.
    pub fn try_domain_or_url(search: &str) -> (r: Option<StoryQuery>)
        ensures
            match domain_or_url_of(search@) {
                Some((true, u)) => r matches Some(StoryQuery::UrlSearch(x)) && x@ == u,
                Some((false, u)) => r matches Some(StoryQuery::DomainSearch(h)) && h@ == u.host,
                None => r is None,
            },
    {
        let s = chars_of(search);
        let has_colon = contains_char(s.as_slice(), ':');
        if !(contains_char(s.as_slice(), '.') || has_colon) {
            return None;
        }
        let url = if has_colon {
            StoryUrl::parse(search)
        } else {
            let mut text = "http://".to_owned();
            crate::text::push_str(&mut text, search);
            StoryUrl::parse(text.as_str())
        };
        match url {
            Some(url) => {
                let host = chars_of(url.host());
                if !is_plain_host_exec(host.as_slice()) {
                    return None;
                }
                if contains_char(s.as_slice(), '/') {
                    Some(StoryQuery::UrlSearch(url))
                } else {
                    Some(StoryQuery::DomainSearch(url.host().to_owned()))
                }
            },
            None => None,
        }
    }

    /// The query a search box's text asks for: the front page for text with nothing alphanumeric,
    /// a tag search for a tag the tagger knows, a domain or URL search for something that reads as
    /// one, else a text search.
    pub fn from_search(tagger: &StoryTagger, search: &str) -> (r: StoryQuery)
        requires
            tagger.wf(),
        ensures
            is_query_for(tagger.model(), search@, r),
    {
        let trimmed = trim(chars_of(search).as_slice());
        let s = string_of(trimmed.as_slice());
        if trimmed.len() == 0 || !has_alphanumeric_exec(trimmed.as_slice()) {
            return StoryQuery::FrontPage;
        }
        match tagger.check_tag_search(s.as_str()) {
            Some(tag) => {
                let lt = to_ascii_lowercase(chars_of(tag.as_str()).as_slice());
                let ls = to_ascii_lowercase(trimmed.as_slice());
                let alt = if chars_eq(lt.as_slice(), ls.as_slice()) {
                    None
                } else {
                    Some(string_of(ls.as_slice()))
                };
                StoryQuery::TagSearch(tag, alt)
            },
            None => match Self::try_domain_or_url(s.as_str()) {
                Some(q) => q,
                None => StoryQuery::TextSearch(s),
            },
        }
    }
}

/// A search that reads as a URL (with `http://` put before it when it has no `:`) on a plain host
/// is a URL search for that URL when it has a `/`, and a search of the whole host when it has none.
pub proof fn lemma_domain_or_url_by_slash(s: Seq<char>, x: StoryUrlView)
    requires
        s.contains('.') || s.contains(':'),
        (if s.contains(':') { story_url_of(s) } else { story_url_of("http://"@ + s) }) == Some(x),
        is_plain_host(x.host),
    ensures
        s.contains('/') ==> domain_or_url_of(s) == Some((true, x)),
        !s.contains('/') ==> domain_or_url_of(s) == Some((false, x)),
{
}

/// A search box's text that is no tag, has a `/`, and reads as a URL on a plain host (with
/// `http://` put before it when it has no `:`) asks for a URL search of that URL; without a `/`
/// it asks for a search of the whole host.
pub proof fn lemma_search_with_slash_is_url_search(
    m: crate::tagger::TaggerModel,
    search: Seq<char>,
    r: StoryQuery,
    x: StoryUrlView,
)
    requires
        is_query_for(m, search, r),
        has_alphanumeric(trim_seq(search)),
        search_target(m, trim_seq(search)) is None,
        trim_seq(search).contains('.') || trim_seq(search).contains(':'),
        (if trim_seq(search).contains(':') {
            story_url_of(trim_seq(search))
        } else {
            story_url_of("http://"@ + trim_seq(search))
        }) == Some(x),
        is_plain_host(x.host),
    ensures
        trim_seq(search).contains('/') ==> (r matches StoryQuery::UrlSearch(q) && q@ == x),
        !trim_seq(search).contains('/') ==> (r matches StoryQuery::DomainSearch(h) && h@ == x.host),
{
    lemma_domain_or_url_by_slash(trim_seq(search), x);
}

} // verus!
