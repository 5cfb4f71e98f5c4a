//! Story URLs: the raw URL, its normalized host and the normalization string under which two
//! URLs count as the same story.
use vstd::prelude::*;

use crate::tagger::opt_view;

verus! {

#[verifier::external_type_specification]
#[verifier::external_body]
pub struct ExUrl(url::Url);

/// Whether `url::Url::parse` accepts the text.
pub uninterp spec fn url_parses(text: Seq<char>) -> bool;

/// The serialization (`Url::as_str`) of the URL parsed from the text.
pub uninterp spec fn url_serialization(text: Seq<char>) -> Seq<char>;

/// The host of the URL parsed from the text, as `urlnorm`'s default normalizer trims it.
pub uninterp spec fn url_normalized_host(text: Seq<char>) -> Option<Seq<char>>;

/// The normalization string that `urlnorm`'s default normalizer computes for the URL parsed from
/// the text.
pub uninterp spec fn url_normalization(text: Seq<char>) -> Seq<char>;

/// The host (`Url::host_str`) of the URL parsed from the text.
pub uninterp spec fn url_host(text: Seq<char>) -> Option<Seq<char>>;

/// The path segments (`Url::path_segments`) of the URL parsed from the text; `None` for a URL that
/// cannot be a base.
pub uninterp spec fn url_path_segments(text: Seq<char>) -> Option<Seq<Seq<char>>>;

/// The query (`Url::query`) of the URL parsed from the text.
pub uninterp spec fn url_query(text: Seq<char>) -> Option<Seq<char>>;

/// The fragment (`Url::fragment`) of the URL parsed from the text.
pub uninterp spec fn url_fragment(text: Seq<char>) -> Option<Seq<char>>;

/// A URL that `url::Url::parse` accepted, with the text it was parsed from.
pub struct ParsedUrl {
    url: url::Url,
    text: String,
}

impl ParsedUrl {
    /// The text this URL was parsed from.
    pub closed spec fn text(&self) -> Seq<char> {
        self.text@
    }

    /// Parses `text` as a URL; `None` where the URL parser refuses it.
    pub fn parse(text: &str) -> (r: Option<ParsedUrl>)
        ensures
            r is Some <==> url_parses(text@),
            r matches Some(p) ==> p.text() == text@,
    {
        Self::parse_text(text)
    }

    /// `url::Url::parse`, keeping the text alongside the URL.
    #[verifier::external_body]
    fn parse_text(text: &str) -> (r: Option<ParsedUrl>)
        ensures
            r is Some <==> url_parses(text@),
            r matches Some(p) ==> p.text() == text@,
    {
        match url::Url::parse(text) {
            Ok(url) => Some(ParsedUrl { url, text: text.to_owned() }),
            Err(_) => None,
        }
    }

    /// `Url::as_str`: the URL's serialization.
    #[verifier::external_body]
    pub(crate) fn serialization(&self) -> (r: String)
        ensures
            r@ == url_serialization(self.text()),
    {
        self.url.as_str().to_owned()
    }

    /// `urlnorm::UrlNormalizer::normalize_host` with the default normalizer.
    #[verifier::external_body]
    pub(crate) fn normalized_host(&self) -> (r: Option<String>)
        ensures
            opt_view(r) == url_normalized_host(self.text()),
    {
        urlnorm::UrlNormalizer::default().normalize_host(&self.url).map(|h| h.to_owned())
    }

    /// `urlnorm::UrlNormalizer::compute_normalization_string` with the default normalizer.
    #[verifier::external_body]
    pub(crate) fn normalization(&self) -> (r: String)
        ensures
            r@ == url_normalization(self.text()),
    {
        urlnorm::UrlNormalizer::default().compute_normalization_string(&self.url)
    }

    /// `Url::host_str`.
    #[verifier::external_body]
    pub(crate) fn host(&self) -> (r: Option<String>)
        ensures
            opt_view(r) == url_host(self.text()),
    {
        self.url.host_str().map(|h| h.to_owned())
    }

    /// `Url::path_segments`, each segment copied out.
    #[verifier::external_body]
    pub(crate) fn path_segments(&self) -> (r: Option<Vec<String>>)
        ensures
            match (r, url_path_segments(self.text())) {
                (Some(v), Some(s)) => v@.len() == s.len() && forall|i: int|
                    0 <= i < s.len() ==> #[trigger] v@[i]@ == s[i],
                (None, None) => true,
                _ => false,
            },
    {
        self.url.path_segments().map(|segs| segs.map(|s| s.to_owned()).collect())
    }

    /// `Url::query`.
    #[verifier::external_body]
    pub(crate) fn query(&self) -> (r: Option<String>)
        ensures
            opt_view(r) == url_query(self.text()),
    {
        self.url.query().map(|q| q.to_owned())
    }

    /// `Url::fragment`.
    #[verifier::external_body]
    pub(crate) fn fragment(&self) -> (r: Option<String>)
        ensures
            opt_view(r) == url_fragment(self.text()),
    {
        self.url.fragment().map(|f| f.to_owned())
    }
}

/// The normalization string of a story URL: two URLs with equal strings are the same story.
#[derive(Clone, Debug, PartialEq, Eq, PartialOrd, Ord, Hash)]
pub struct StoryUrlNorm {
    norm: String,
}

impl View for StoryUrlNorm {
    type V = Seq<char>;

    closed spec fn view(&self) -> Seq<char> {
        self.norm@
    }
}

/// A story URL, with its normalized host and normalization string kept alongside.
#[derive(Clone, Debug, PartialEq, Eq, PartialOrd, Ord, Hash)]
pub struct StoryUrl {
    url: String,
    host: String,
    norm_str: StoryUrlNorm,
}

/// The parts of a story URL: raw URL, host and normalization string.
pub struct StoryUrlView {
    pub raw: Seq<char>,
    pub host: Seq<char>,
    pub norm: Seq<char>,
}

impl View for StoryUrl {
    type V = StoryUrlView;

    closed spec fn view(&self) -> StoryUrlView {
        StoryUrlView { raw: self.url@, host: self.host@, norm: self.norm_str@ }
    }
}

/// What `StoryUrl::parse` makes of a text: `None` unless the URL parses and has a host.
pub open spec fn story_url_of(text: Seq<char>) -> Option<StoryUrlView> {
    if url_parses(text) {
        match url_normalized_host(text) {
            Some(host) => Some(
                StoryUrlView { raw: url_serialization(text), host, norm: url_normalization(text) },
            ),
            None => None,
        }
    } else {
        None
    }
}

/// The hash that a `DefaultHasher` fresh from `DefaultHasher::new` gives of the text, hashed as a
/// `str` is hashed. The standard library documents that `DefaultHasher::new` gives the same hasher
/// each time, so the hash depends on the text alone; which algorithm computes it is left unsaid.
pub uninterp spec fn default_hash_of(text: Seq<char>) -> u64;

/// `BuildHasher::hash_one` with the builder of `DefaultHasher`: a fresh `DefaultHasher` fed the
/// text, then finished.
#[verifier::external_body]
fn default_hash(s: &str) -> (r: u64)
    ensures
        r == default_hash_of(s@),
{
    std::hash::BuildHasher::hash_one(&std::hash::BuildHasherDefault::<std::hash::DefaultHasher>::default(), s)
}

impl StoryUrlNorm {
    /// Re-creates a normalization from its string.
    pub fn from_string(norm: String) -> (r: Self)
        ensures
            r@ == norm@,
    {
        StoryUrlNorm { norm }
    }

    /// The normalization string hashed by the standard library's default hasher, as a signed
    /// number.
    pub fn hash(&self) -> (r: i64)
        ensures
            r == default_hash_of(self@) as i64,
    {
        let h = default_hash(self.norm.as_str());
        h as i64
    }

    pub fn string(&self) -> (r: &str)
        ensures
            r@ == self@,
    {
        self.norm.as_str()
    }
}

impl StoryUrl {
    /// Builds a story URL from what the URL parser and the normalizer made of the text.
    pub fn from_parsed(raw: String, host: Option<String>, norm: String) -> (r: Option<StoryUrl>)
        ensures
            r is Some <==> host is Some,
            r matches Some(u) ==> u@.raw == raw@ && Some(u@.host) == opt_view(host) && u@.norm
                == norm@,
    {
        match host {
            Some(host) => Some(StoryUrl { url: raw, host, norm_str: StoryUrlNorm { norm } }),
            None => None,
        }
    }

    /// Parses a URL: `None` where the URL parser refuses the text or the URL has no host.
    pub fn parse(s: &str) -> (r: Option<StoryUrl>)
        ensures
            match (r, story_url_of(s@)) {
                (Some(u), Some(v)) => u@ == v,
                (None, None) => true,
                _ => false,
            },
    {
        match ParsedUrl::parse(s) {
            Some(p) => {
                let host = p.normalized_host();
                if host.is_none() {
                    return None;
                }
                let norm = p.normalization();
                let raw = p.serialization();
                Self::from_parsed(raw, host, norm)
            },
            None => None,
        }
    }

    pub fn host(&self) -> (r: &str)
        ensures
            r@ == self@.host,
    {
        self.host.as_str()
    }

    pub fn raw(&self) -> (r: &str)
        ensures
            r@ == self@.raw,
    {
        self.url.as_str()
    }

    pub fn normalization(&self) -> (r: &StoryUrlNorm)
        ensures
            r@ == self@.norm,
    {
        &self.norm_str
    }

    /// The raw URL, as the story shows it.
    pub fn to_string(&self) -> (r: String)
        ensures
            r@ == self@.raw,
    {
        self.url.clone()
    }

    /// A copy of the URL.
    pub fn copy(&self) -> (r: StoryUrl)
        ensures
            r@ == self@,
    {
        StoryUrl {
            url: self.url.clone(),
            host: self.host.clone(),
            norm_str: StoryUrlNorm { norm: self.norm_str.norm.clone() },
        }
    }
}

} // verus!
