//! Scraper configuration: which subsources each site has, which URLs to fetch for them, and how
//! a fetched page becomes a scrape result.
use vstd::prelude::*;

use crate::dom::html_parses;
use crate::hacker_news::{hn_page, HackerNewsArgs, HackerNewsScraper, HackerNewsStory, HackerNewsStoryView};
use crate::json::{json_parses, json_value_of};
use crate::lobsters::{scrape_channels, LobstersScraper, LobstersStory, LobstersStoryView};
use crate::reddit::{
    debug_str, str_debug_text, lacks_data, listing_children, stories_of, RedditArgs, RedditScraper, RedditStory, RedditStoryView,
};
use crate::slashdot::{slashdot_page, SlashdotScraper, SlashdotStory, SlashdotStoryView};
use crate::xml::{xml_parses, xml_root_of};
use crate::date::StoryDate;
use crate::source::ScrapeSource;
use crate::url::{StoryUrl, StoryUrlView};
use crate::tagger::strs_view;
use crate::text::{chars_of, push_dec, push_str, replace, replace_all, string_of};

verus! {

#[verifier::external_type_specification]
#[verifier::external_body]
pub struct ExXmlError(roxmltree::Error);

/// What can go wrong with a whole page.
#[derive(Debug)]
pub enum ScrapeError {
    /// The page is not JSON.
    Json(serde_json::Error),
    /// The page cannot be parsed as HTML.
    Html(tl::ParseError),
    /// The page is not XML.
    Xml(roxmltree::Error),
    /// The page does not have the expected shape.
    StructureError(String),
}

/// Copies a list of strings.
fn copy_strings(v: &Vec<String>) -> (r: Vec<String>)
    ensures
        strs_view(r@) == strs_view(v@),
{
    let mut out: Vec<String> = Vec::new();
    let mut i: usize = 0;
    while i < v.len()
        invariant
            i <= v@.len(),
            strs_view(out@) == strs_view(v@).take(i as int),
        decreases v@.len() - i,
    {
        let ghost before = strs_view(out@);
        out.push(v[i].clone());
        assert(strs_view(out@) =~= before.push(v@[i as int]@));
        assert(strs_view(v@).take(i + 1) =~= strs_view(v@).take(i as int).push(v@[i as int]@));
        i = i + 1;
    }
    assert(strs_view(v@).take(v@.len() as int) =~= strs_view(v@));
    out
}

/// A kind of scraped story: the source its stories come from, and how a later scrape of a story
/// merges into an earlier one.
pub trait ScrapeStory: Sized {
    const TYPE: ScrapeSource;

    fn merge(&mut self, other: Self);
}

/// What a source's configuration offers: its subsources, and the URLs that scrape a list of them.
pub trait ScrapeConfigSource {
    /// The subsources this configuration names.
    spec fn subsources_of(&self) -> Seq<Seq<char>>;

    /// The URLs that scrape the given subsources.
    spec fn urls_for(&self, subsources: Seq<Seq<char>>) -> Seq<Seq<char>>;

    /// Whether URLs can be computed with this configuration at all.
    spec fn can_provide_urls(&self) -> bool;

    fn subsources(&self) -> (r: Vec<String>)
        ensures
            strs_view(r@) == self.subsources_of(),
    ;

    fn provide_urls(&self, subsources: Vec<String>) -> (r: Vec<String>)
        requires
            self.can_provide_urls(),
        ensures
            strs_view(r@) == self.urls_for(strs_view(subsources@)),
    ;
}

// ---------------------------------------------------------------------------
// Hacker News: the homepage followed by each page
// ---------------------------------------------------------------------------

#[derive(Default)]
pub struct HackerNewsConfig {
    pub homepage: String,
    pub pages: Vec<String>,
}

impl ScrapeConfigSource for HackerNewsConfig {
    open spec fn subsources_of(&self) -> Seq<Seq<char>> {
        Seq::empty()
    }

    open spec fn urls_for(&self, subsources: Seq<Seq<char>>) -> Seq<Seq<char>> {
        strs_view(self.pages@).map_values(|p: Seq<char>| self.homepage@ + p)
    }

    open spec fn can_provide_urls(&self) -> bool {
        true
    }

    fn subsources(&self) -> (r: Vec<String>) {
        let r: Vec<String> = Vec::new();
        assert(strs_view(r@) =~= Seq::<Seq<char>>::empty());
        r
    }

    fn provide_urls(&self, subsources: Vec<String>) -> (r: Vec<String>) {
        let mut out: Vec<String> = Vec::new();
        let mut i: usize = 0;
        while i < self.pages.len()
            invariant
                i <= self.pages@.len(),
                strs_view(out@) == self.urls_for(strs_view(subsources@)).take(i as int),
            decreases self.pages@.len() - i,
        {
            let mut s = self.homepage.clone();
            crate::text::push_str(&mut s, self.pages[i].as_str());
            let ghost before = strs_view(out@);
            out.push(s);
            assert(strs_view(out@) =~= before.push(self.homepage@ + self.pages@[i as int]@));
            assert(self.urls_for(strs_view(subsources@)).take(i + 1) =~= self.urls_for(
                strs_view(subsources@),
            ).take(i as int).push(self.homepage@ + self.pages@[i as int]@));
            i = i + 1;
        }
        assert(self.urls_for(strs_view(subsources@)).take(self.pages@.len() as int) =~= self.urls_for(
            strs_view(subsources@),
        ));
        out
    }
}

// ---------------------------------------------------------------------------
// Slashdot and Lobsters: one fixed page each
// ---------------------------------------------------------------------------

#[derive(Default)]
pub struct SlashdotConfig {
    pub homepage: String,
}

impl ScrapeConfigSource for SlashdotConfig {
    open spec fn subsources_of(&self) -> Seq<Seq<char>> {
        Seq::empty()
    }

    open spec fn urls_for(&self, subsources: Seq<Seq<char>>) -> Seq<Seq<char>> {
        seq![self.homepage@]
    }

    open spec fn can_provide_urls(&self) -> bool {
        true
    }

    fn subsources(&self) -> (r: Vec<String>) {
        let r: Vec<String> = Vec::new();
        assert(strs_view(r@) =~= Seq::<Seq<char>>::empty());
        r
    }

    fn provide_urls(&self, subsources: Vec<String>) -> (r: Vec<String>) {
        let r = vec![self.homepage.clone()];
        assert(strs_view(r@) =~= seq![self.homepage@]);
        r
    }
}

#[derive(Default)]
pub struct LobstersConfig {
    pub feed: String,
    /// Tags whose stories are skipped.
    pub tag_denylist: Vec<String>,
}

impl ScrapeConfigSource for LobstersConfig {
    open spec fn subsources_of(&self) -> Seq<Seq<char>> {
        Seq::empty()
    }

    open spec fn urls_for(&self, subsources: Seq<Seq<char>>) -> Seq<Seq<char>> {
        seq![self.feed@]
    }

    open spec fn can_provide_urls(&self) -> bool {
        true
    }

    fn subsources(&self) -> (r: Vec<String>) {
        let r: Vec<String> = Vec::new();
        assert(strs_view(r@) =~= Seq::<Seq<char>>::empty());
        r
    }

    fn provide_urls(&self, subsources: Vec<String>) -> (r: Vec<String>) {
        let r = vec![self.feed.clone()];
        assert(strs_view(r@) =~= seq![self.feed@]);
        r
    }
}

// ---------------------------------------------------------------------------
// Reddit: subreddits fetched in batches through one API URL
// ---------------------------------------------------------------------------

#[derive(Clone, Copy, Default)]
pub struct SubredditConfig {
    pub is_tag: bool,
    pub flair_is_tag: bool,
}

#[derive(Default)]
pub struct RedditConfig {
    pub api: String,
    pub subreddit_batch: usize,
    pub limit: usize,
    /// The subreddits by name, each name once.
    pub subreddits: Vec<(String, SubredditConfig)>,
}

/// `s` cut into pieces of `n` (the last one possibly shorter).
pub open spec fn chunks(s: Seq<Seq<char>>, n: nat) -> Seq<Seq<Seq<char>>>
    decreases s.len(),
{
    if s.len() == 0 || n == 0 {
        Seq::empty()
    } else if s.len() <= n {
        seq![s]
    } else {
        seq![s.take(n as int)] + chunks(s.skip(n as int), n)
    }
}

/// The batches, one after the other.
pub open spec fn flatten_batches(c: Seq<Seq<Seq<char>>>) -> Seq<Seq<char>>
    decreases c.len(),
{
    if c.len() == 0 {
        Seq::empty()
    } else {
        c[0] + flatten_batches(c.skip(1))
    }
}

/// Batching keeps every subsource, in order, and no batch holds more than the batch size or
/// nothing.
pub proof fn lemma_batches_cover(s: Seq<Seq<char>>, n: nat)
    requires
        n > 0,
    ensures
        flatten_batches(chunks(s, n)) == s,
        forall|i: int| 0 <= i < chunks(s, n).len() ==> 0 < #[trigger] chunks(s, n)[i].len() <= n,
    decreases s.len(),
{
    if s.len() == 0 {
        assert(s =~= Seq::<Seq<char>>::empty());
    } else if s.len() <= n {
        let c = chunks(s, n);
        assert(c =~= seq![s]);
        assert(c.skip(1) =~= Seq::<Seq<Seq<char>>>::empty());
        assert(flatten_batches(c.skip(1)) =~= Seq::<Seq<char>>::empty());
        assert(flatten_batches(c) == c[0] + flatten_batches(c.skip(1)));
        assert(s + Seq::<Seq<char>>::empty() =~= s);
    } else {
        lemma_batches_cover(s.skip(n as int), n);
        let c = chunks(s, n);
        assert(c.skip(1) =~= chunks(s.skip(n as int), n));
        assert(s.take(n as int) + s.skip(n as int) =~= s);
        assert(flatten_batches(c) == c[0] + flatten_batches(c.skip(1)));
        assert forall|i: int| 0 <= i < c.len() implies 0 < #[trigger] c[i].len() <= n by {
            if i > 0 {
                assert(c[i] == chunks(s.skip(n as int), n)[i - 1]);
            }
        }
    }
}

/// The pieces joined by `+`.
pub open spec fn join_plus(c: Seq<Seq<char>>) -> Seq<char>
    decreases c.len(),
{
    if c.len() == 0 {
        Seq::empty()
    } else if c.len() == 1 {
        c[0]
    } else {
        join_plus(c.drop_last()) + seq!['+'] + c.last()
    }
}

/// The API URL for one batch of subreddits.
pub open spec fn reddit_batch_url(api: Seq<char>, batch: Seq<Seq<char>>, limit: nat) -> Seq<char> {
    replace_all(api, "${subreddits}"@, join_plus(batch)) + "?limit="@ + crate::text::dec_digits(limit)
}

impl ScrapeConfigSource for RedditConfig {
    open spec fn subsources_of(&self) -> Seq<Seq<char>> {
        self.subreddits@.map_values(|e: (String, SubredditConfig)| e.0@)
    }

    open spec fn urls_for(&self, subsources: Seq<Seq<char>>) -> Seq<Seq<char>> {
        chunks(subsources, self.subreddit_batch as nat).map_values(
            |b: Seq<Seq<char>>| reddit_batch_url(self.api@, b, self.limit as nat),
        )
    }

    /// Batches of zero subreddits are refused.
    open spec fn can_provide_urls(&self) -> bool {
        self.subreddit_batch > 0
    }

    fn subsources(&self) -> (r: Vec<String>) {
        let mut out: Vec<String> = Vec::new();
        let mut i: usize = 0;
        while i < self.subreddits.len()
            invariant
                i <= self.subreddits@.len(),
                strs_view(out@) == self.subsources_of().take(i as int),
            decreases self.subreddits@.len() - i,
        {
            let ghost before = strs_view(out@);
            out.push(self.subreddits[i].0.clone());
            assert(strs_view(out@) =~= before.push(self.subreddits@[i as int].0@));
            assert(self.subsources_of().take(i + 1) =~= self.subsources_of().take(i as int).push(
                self.subreddits@[i as int].0@,
            ));
            i = i + 1;
        }
        assert(self.subsources_of().take(self.subreddits@.len() as int) =~= self.subsources_of());
        out
    }

    fn provide_urls(&self, subsources: Vec<String>) -> (r: Vec<String>) {
        let n = self.subreddit_batch;
        let key = chars_of("${subreddits}");
        let api = chars_of(self.api.as_str());
        let mut out: Vec<String> = Vec::new();
        let mut start: usize = 0;
        let ghost all = strs_view(subsources@);
        let ghost urls = self.urls_for(all);
        assert(all.skip(0) =~= all);
        assert(strs_view(out@) =~= Seq::<Seq<char>>::empty());
        while start < subsources.len()
            invariant
                n == self.subreddit_batch,
                n > 0,
                start <= subsources@.len(),
                all == strs_view(subsources@),
                key@ == "${subreddits}"@,
                api@ == self.api@,
                urls == self.urls_for(all),
                urls == strs_view(out@) + chunks(all.skip(start as int), n as nat).map_values(
                    |b: Seq<Seq<char>>| reddit_batch_url(self.api@, b, self.limit as nat),
                ),
            decreases subsources@.len() - start,
        {
            let end = if subsources.len() - start <= n { subsources.len() } else { start + n };
            let ghost rest = all.skip(start as int);
            let ghost batch = all.subrange(start as int, end as int);
            let mut joined: Vec<char> = Vec::new();
            let mut k = start;
            while k < end
                invariant
                    start <= k <= end <= subsources@.len(),
                    all == strs_view(subsources@),
                    joined@ == join_plus(all.subrange(start as int, k as int)),
                decreases end - k,
            {
                let ghost prefix = all.subrange(start as int, k as int);
                assert(all.subrange(start as int, k + 1) =~= prefix.push(all[k as int]));
                assert(all.subrange(start as int, k + 1).drop_last() =~= prefix);
                if k > start {
                    joined.push('+');
                }
                let piece = chars_of(subsources[k].as_str());
                crate::text::extend_chars(&mut joined, piece.as_slice());
                proof {
                    if k == start {
                        assert(prefix.len() == 0);
                        assert(joined@ =~= all.subrange(start as int, k + 1)[0]);
                    } else {
                        assert(joined@ =~= join_plus(prefix) + seq!['+'] + all[k as int]);
                    }
                }
                k = k + 1;
            }
            let mut url = replace(api.as_slice(), key.as_slice(), joined.as_slice());
            crate::text::extend_chars(&mut url, chars_of("?limit=").as_slice());
            push_dec(&mut url, self.limit as u64, 0);
            proof {
                assert(crate::text::dec_padded(self.limit as nat, 0) =~= crate::text::dec_digits(
                    self.limit as nat,
                ));
                if rest.len() <= n {
                    assert(batch =~= rest);
                } else {
                    assert(batch =~= rest.take(n as int));
                    assert(rest.skip(n as int) =~= all.skip(end as int));
                }
            }
            let s = string_of(url.as_slice());
            let ghost before = strs_view(out@);
            out.push(s);
            assert(strs_view(out@) =~= before.push(s@));
            assert(s@ == reddit_batch_url(self.api@, batch, self.limit as nat));
            proof {
                let f = |b: Seq<Seq<char>>| reddit_batch_url(self.api@, b, self.limit as nat);
                if rest.len() <= n {
                    assert(chunks(rest, n as nat) =~= seq![batch]);
                    assert(all.skip(end as int).len() == 0);
                    assert(chunks(all.skip(end as int), n as nat) =~= Seq::<Seq<Seq<char>>>::empty());
                } else {
                    assert(chunks(rest, n as nat) =~= seq![batch] + chunks(all.skip(end as int), n as nat));
                }
                assert(chunks(rest, n as nat).map_values(f) =~= seq![f(batch)] + chunks(
                    all.skip(end as int),
                    n as nat,
                ).map_values(f));
            }
            start = end;
        }
        proof {
            assert(all.skip(start as int).len() == 0);
        }
        assert(strs_view(out@) =~= urls);
        out
    }
}

// ---------------------------------------------------------------------------
// Feeds: nothing to fetch
// ---------------------------------------------------------------------------

#[derive(Default)]
pub struct FeedConfig {}

/// The scraper of feeds: feeds are configured, but no page of theirs is scraped yet.
#[derive(Default)]
pub struct FeedScraper {}

/// A story from a feed.
pub struct FeedStory {
    pub id: String,
    pub title: String,
    pub url: StoryUrl,
    pub date: StoryDate,
    pub tags: Vec<String>,
}

/// A feed story as plain values.
pub struct FeedStoryView {
    pub id: Seq<char>,
    pub title: Seq<char>,
    pub url: StoryUrlView,
    pub millis: int,
    pub tags: Seq<Seq<char>>,
}

impl FeedStory {
    pub open spec fn view(&self) -> FeedStoryView {
        FeedStoryView {
            id: self.id@,
            title: self.title@,
            url: self.url@,
            millis: self.date.millis(),
            tags: strs_view(self.tags@),
        }
    }
}

impl ScrapeStory for FeedStory {
    const TYPE: ScrapeSource = ScrapeSource::Feed;

    /// A later scrape of a feed story changes nothing.
    fn merge(&mut self, other: FeedStory)
        ensures
            *final(self) == *old(self),
    {
    }
}

impl ScrapeConfigSource for FeedConfig {
    open spec fn subsources_of(&self) -> Seq<Seq<char>> {
        Seq::empty()
    }

    open spec fn urls_for(&self, subsources: Seq<Seq<char>>) -> Seq<Seq<char>> {
        Seq::empty()
    }

    open spec fn can_provide_urls(&self) -> bool {
        true
    }

    fn subsources(&self) -> (r: Vec<String>) {
        let r: Vec<String> = Vec::new();
        assert(strs_view(r@) =~= Seq::<Seq<char>>::empty());
        r
    }

    fn provide_urls(&self, subsources: Vec<String>) -> (r: Vec<String>) {
        let r: Vec<String> = Vec::new();
        assert(strs_view(r@) =~= Seq::<Seq<char>>::empty());
        r
    }
}

// ---------------------------------------------------------------------------
// All configurations together
// ---------------------------------------------------------------------------

/// Configuration for all scrapers.
#[derive(Default)]
pub struct ScrapeConfig {
    pub hacker_news: HackerNewsConfig,
    pub slashdot: SlashdotConfig,
    pub lobsters: LobstersConfig,
    pub reddit: RedditConfig,
    pub feed: FeedConfig,
}

pub open spec fn subreddits_view(v: Seq<(String, SubredditConfig)>) -> Seq<(Seq<char>, SubredditConfig)> {
    v.map_values(|e: (String, SubredditConfig)| (e.0@, e.1))
}

/// Everything a configuration holds, as plain values.
pub open spec fn config_view(c: &ScrapeConfig) -> (
    (Seq<char>, Seq<Seq<char>>),
    Seq<char>,
    (Seq<char>, Seq<Seq<char>>),
    (Seq<char>, usize, usize, Seq<(Seq<char>, SubredditConfig)>),
) {
    (
        (c.hacker_news.homepage@, strs_view(c.hacker_news.pages@)),
        c.slashdot.homepage@,
        (c.lobsters.feed@, strs_view(c.lobsters.tag_denylist@)),
        (c.reddit.api@, c.reddit.subreddit_batch, c.reddit.limit, subreddits_view(c.reddit.subreddits@)),
    )
}

/// The subsources each source's configuration names; none for `Other`.
pub open spec fn subsources_for(c: &ScrapeConfig, source: ScrapeSource) -> Seq<Seq<char>> {
    match source {
        ScrapeSource::HackerNews => c.hacker_news.subsources_of(),
        ScrapeSource::Slashdot => c.slashdot.subsources_of(),
        ScrapeSource::Lobsters => c.lobsters.subsources_of(),
        ScrapeSource::Reddit => c.reddit.subsources_of(),
        ScrapeSource::Feed => c.feed.subsources_of(),
        ScrapeSource::Other => Seq::empty(),
    }
}

/// The URLs that scrape the given subsources of a source; none for `Other`.
pub open spec fn urls_for_source(c: &ScrapeConfig, source: ScrapeSource, subs: Seq<Seq<char>>) -> Seq<Seq<char>> {
    match source {
        ScrapeSource::HackerNews => c.hacker_news.urls_for(subs),
        ScrapeSource::Slashdot => c.slashdot.urls_for(subs),
        ScrapeSource::Lobsters => c.lobsters.urls_for(subs),
        ScrapeSource::Reddit => c.reddit.urls_for(subs),
        ScrapeSource::Feed => c.feed.urls_for(subs),
        ScrapeSource::Other => Seq::empty(),
    }
}

/// URLs can be computed for the source with this configuration.
pub open spec fn can_provide_urls_for(c: &ScrapeConfig, source: ScrapeSource) -> bool {
    source == ScrapeSource::Reddit ==> c.reddit.can_provide_urls()
}

/// Every source that has a scraper with its subsources, in the order of `ScrapeSource::all`.
pub open spec fn possibilities_of(c: &ScrapeConfig) -> Seq<(ScrapeSource, Seq<Seq<char>>)> {
    seq![
        (ScrapeSource::HackerNews, subsources_for(c, ScrapeSource::HackerNews)),
        (ScrapeSource::Slashdot, subsources_for(c, ScrapeSource::Slashdot)),
        (ScrapeSource::Lobsters, subsources_for(c, ScrapeSource::Lobsters)),
        (ScrapeSource::Reddit, subsources_for(c, ScrapeSource::Reddit)),
        (ScrapeSource::Feed, subsources_for(c, ScrapeSource::Feed)),
    ]
}

pub open spec fn source_lists_view(v: Seq<(ScrapeSource, Vec<String>)>) -> Seq<(ScrapeSource, Seq<Seq<char>>)> {
    v.map_values(|e: (ScrapeSource, Vec<String>)| (e.0, strs_view(e.1@)))
}

impl ScrapeConfig {
    /// A copy of this configuration.
    pub fn copy(&self) -> (r: ScrapeConfig)
        ensures
            config_view(&r) == config_view(self),
    {
        let mut subs: Vec<(String, SubredditConfig)> = Vec::new();
        let mut i: usize = 0;
        while i < self.reddit.subreddits.len()
            invariant
                i <= self.reddit.subreddits@.len(),
                subreddits_view(subs@) == subreddits_view(self.reddit.subreddits@).take(i as int),
            decreases self.reddit.subreddits@.len() - i,
        {
            let e = &self.reddit.subreddits[i];
            let ghost before = subreddits_view(subs@);
            subs.push((e.0.clone(), e.1));
            assert(subreddits_view(subs@) =~= before.push((e.0@, e.1)));
            assert(subreddits_view(self.reddit.subreddits@).take(i + 1) =~= subreddits_view(
                self.reddit.subreddits@,
            ).take(i as int).push((e.0@, e.1)));
            i = i + 1;
        }
        assert(subreddits_view(self.reddit.subreddits@).take(self.reddit.subreddits@.len() as int)
            =~= subreddits_view(self.reddit.subreddits@));
        ScrapeConfig {
            hacker_news: HackerNewsConfig {
                homepage: self.hacker_news.homepage.clone(),
                pages: copy_strings(&self.hacker_news.pages),
            },
            slashdot: SlashdotConfig { homepage: self.slashdot.homepage.clone() },
            lobsters: LobstersConfig {
                feed: self.lobsters.feed.clone(),
                tag_denylist: copy_strings(&self.lobsters.tag_denylist),
            },
            reddit: RedditConfig {
                api: self.reddit.api.clone(),
                subreddit_batch: self.reddit.subreddit_batch,
                limit: self.reddit.limit,
                subreddits: subs,
            },
            feed: FeedConfig {},
        }
    }

    /// The subsources of a source's configuration; none for `Other`.
    pub fn subsources_of_source(&self, source: ScrapeSource) -> (r: Vec<String>)
        ensures
            strs_view(r@) == subsources_for(self, source),
    {
        match source {
            ScrapeSource::HackerNews => self.hacker_news.subsources(),
            ScrapeSource::Slashdot => self.slashdot.subsources(),
            ScrapeSource::Lobsters => self.lobsters.subsources(),
            ScrapeSource::Reddit => self.reddit.subsources(),
            ScrapeSource::Feed => self.feed.subsources(),
            ScrapeSource::Other => {
                let r: Vec<String> = Vec::new();
                assert(strs_view(r@) =~= Seq::<Seq<char>>::empty());
                r
            },
        }
    }

    /// The URLs that scrape the given subsources of a source; none for `Other`.
    pub fn urls_of_source(&self, source: ScrapeSource, subsources: Vec<String>) -> (r: Vec<String>)
        requires
            can_provide_urls_for(self, source),
        ensures
            strs_view(r@) == urls_for_source(self, source, strs_view(subsources@)),
    {
        match source {
            ScrapeSource::HackerNews => self.hacker_news.provide_urls(subsources),
            ScrapeSource::Slashdot => self.slashdot.provide_urls(subsources),
            ScrapeSource::Lobsters => self.lobsters.provide_urls(subsources),
            ScrapeSource::Reddit => self.reddit.provide_urls(subsources),
            ScrapeSource::Feed => self.feed.provide_urls(subsources),
            ScrapeSource::Other => {
                let r: Vec<String> = Vec::new();
                assert(strs_view(r@) =~= Seq::<Seq<char>>::empty());
                r
            },
        }
    }

    /// Every source that has a scraper, with its subsources.
    pub fn all_subsources(&self) -> (r: Vec<(ScrapeSource, Vec<String>)>)
        ensures
            source_lists_view(r@) == possibilities_of(self),
    {
        let sources = ScrapeSource::all();
        let mut out: Vec<(ScrapeSource, Vec<String>)> = Vec::new();
        let mut i: usize = 0;
        while i < sources.len()
            invariant
                i <= sources@.len(),
                sources@ == seq![
                    ScrapeSource::HackerNews,
                    ScrapeSource::Slashdot,
                    ScrapeSource::Lobsters,
                    ScrapeSource::Reddit,
                    ScrapeSource::Feed,
                ],
                source_lists_view(out@) == possibilities_of(self).take(i as int),
            decreases sources@.len() - i,
        {
            let source = sources[i];
            let subs = self.subsources_of_source(source);
            let ghost before = source_lists_view(out@);
            out.push((source, subs));
            assert(source_lists_view(out@) =~= before.push((source, subsources_for(self, source))));
            assert(possibilities_of(self).take(i + 1) =~= possibilities_of(self).take(i as int).push(
                (source, subsources_for(self, source)),
            ));
            i = i + 1;
        }
        assert(possibilities_of(self).take(5) =~= possibilities_of(self));
        out
    }
}

// ---------------------------------------------------------------------------
// The scraper front end
// ---------------------------------------------------------------------------

/// The URLs to scrape, per source and subsource.
pub struct ScraperPossibilities {
    pub scrapes: Vec<(ScrapeSource, Vec<String>)>,
}

/// What fetching a URL gave.
pub enum ScraperHttpResponseInput {
    HTTPError(u16, String),
    /// The page was fetched; its body.
    Fetched(String),
}

/// What became of a fetched URL: its scrapes, or the response and the error.
pub enum ScraperHttpResult<T> {
    /// The response, and what went wrong.
    Failed(ScraperHttpResponseInput, String),
    /// The page's body and its scrapes.
    Scraped(String, Vec<T>),
}

/// `r` is the result for a fetched page, given what the source's scraper made of its body (looked
/// at only when the fetch succeeded): the page and its scrapes, or the response with the error.
pub open spec fn is_http_result_of<T>(
    input: ScraperHttpResponseInput,
    scraped: Result<Vec<T>, String>,
    r: ScraperHttpResult<T>,
) -> bool {
    match input {
        ScraperHttpResponseInput::Fetched(s) => match scraped {
            Ok(scrapes) => r == ScraperHttpResult::Scraped(s, scrapes),
            Err(e) => r == ScraperHttpResult::<T>::Failed(ScraperHttpResponseInput::Fetched(s), e),
        },
        ScraperHttpResponseInput::HTTPError(code, body) => match r {
            ScraperHttpResult::Failed(ScraperHttpResponseInput::HTTPError(c, b), m) => c == code && b
                == body && m@ == "HTTP Error"@,
            _ => false,
        },
    }
}

/// The collection of scrapers, with their configuration.
pub struct Scrapers {
    pub config: ScrapeConfig,
}

impl Scrapers {
    pub fn new(config: &ScrapeConfig) -> (r: Self)
        ensures
            config_view(&r.config) == config_view(config),
    {
        Scrapers { config: config.copy() }
    }

    /// Every source that has a scraper, with all its subsources.
    pub fn compute_scrape_possibilities(&self) -> (r: ScraperPossibilities)
        ensures
            source_lists_view(r.scrapes@) == possibilities_of(&self.config),
    {
        ScraperPossibilities { scrapes: self.config.all_subsources() }
    }

    /// The subsources of one source.
    pub fn compute_scrape_subsources(&self, source: ScrapeSource) -> (r: Vec<String>)
        ensures
            strs_view(r@) == subsources_for(&self.config, source),
    {
        self.config.subsources_of_source(source)
    }

    /// The URLs to fetch for a source and some of its subsources.
    pub fn compute_scrape_url_demands(&self, source: ScrapeSource, subsources: Vec<String>) -> (r: Vec<String>)
        requires
            can_provide_urls_for(&self.config, source),
        ensures
            strs_view(r@) == urls_for_source(&self.config, source, strs_view(subsources@)),
    {
        self.config.urls_of_source(source, subsources)
    }

    /// The result for a fetched page: its body scraped by the source's scraper, with the page and
    /// its scrapes, or the page and the error's debug text; a failed fetch is reported as an HTTP
    /// error. `None` where a Reddit listing has no `data`, on which the scraper stops.
    pub fn scrape_http_result(&self, source: ScrapeSource, input: ScraperHttpResponseInput) -> (r: Option<
        ScraperHttpResult<TypedScrape>,
    >)
        requires
            input is Fetched ==> has_scraper(source),
        ensures
            match input {
                ScraperHttpResponseInput::Fetched(body) => match r {
                    None => page_lacks_data(source, body@),
                    Some(ScraperHttpResult::Scraped(b, v)) => b == body && !page_lacks_data(source, body@)
                        && !page_refused(source, body@) && scrape_views(v@) == page_stories(source, body@),
                    Some(ScraperHttpResult::Failed(ScraperHttpResponseInput::Fetched(b), m)) => b == body
                        && page_refused(source, body@) && refusal_message(source, body@, m@),
                    _ => false,
                },
                ScraperHttpResponseInput::HTTPError(code, body) => match r {
                    Some(ScraperHttpResult::Failed(ScraperHttpResponseInput::HTTPError(c, b), m)) => c
                        == code && b == body && m@ == "HTTP Error"@,
                    _ => false,
                },
            },
    {
        match input {
            ScraperHttpResponseInput::Fetched(s) => {
                let text = s.clone();
                assert(text@ == s@);
                match scrape_source(&self.config, source, text) {
                    None => {
                        assert(page_lacks_data(source, s@));
                        None
                    },
                    Some(Ok((scrapes, warnings))) => {
                        Some(ScraperHttpResult::Scraped(s, scrapes))
                    },
                    Some(Err(e)) => {
                        assert(page_refused(source, s@));
                        let m = debug_scrape_error(&e);
                        Some(ScraperHttpResult::Failed(ScraperHttpResponseInput::Fetched(s), m))
                    },
                }
            },
            ScraperHttpResponseInput::HTTPError(code, body) => {
                let msg = "HTTP Error".to_owned();
                Some(ScraperHttpResult::Failed(ScraperHttpResponseInput::HTTPError(code, body), msg))
            },
        }
    }
}

/// Extracts the core of scrapes with a configuration.
pub struct ScrapeExtractor {
    pub config: ScrapeConfig,
}

impl ScrapeExtractor {
    pub fn new(config: &ScrapeConfig) -> (r: Self)
        ensures
            config_view(&r.config) == config_view(config),
    {
        ScrapeExtractor { config: config.copy() }
    }
}

// ---------------------------------------------------------------------------
// The web front end, driven by the configuration alone
// ---------------------------------------------------------------------------

/// The subsources to scrape, per source.
pub struct WebScrapeInput {
    pub scrapes: Vec<(ScrapeSource, Vec<String>)>,
}

/// What fetching a URL gave.
pub enum WebScrapeHttpResult {
    HTTPError(u16, String),
    /// The page was fetched; its body.
    Fetched(String),
}

pub struct WebScrapeURLs {
    pub urls: Vec<String>,
}

/// What became of a fetched URL: its scrapes, or the response and the error.
pub enum WebScrapeURLResult<T> {
    /// The response, and what went wrong.
    Failed(WebScrapeHttpResult, String),
    /// The page's body and its scrapes.
    Scraped(String, Vec<T>),
}

pub struct WebScrapeResult<T> {
    pub url: String,
    pub result: Vec<WebScrapeURLResult<T>>,
}

/// `r` is the result for a fetched page, given what the source's scraper made of its body.
pub open spec fn is_web_result_of<T>(
    input: WebScrapeHttpResult,
    scraped: Result<Vec<T>, String>,
    r: WebScrapeURLResult<T>,
) -> bool {
    match input {
        WebScrapeHttpResult::Fetched(s) => match scraped {
            Ok(scrapes) => r == WebScrapeURLResult::Scraped(s, scrapes),
            Err(e) => r == WebScrapeURLResult::<T>::Failed(WebScrapeHttpResult::Fetched(s), e),
        },
        WebScrapeHttpResult::HTTPError(code, body) => match r {
            WebScrapeURLResult::Failed(WebScrapeHttpResult::HTTPError(c, b), m) => c == code && b == body
                && m@ == "HTTP Error"@,
            _ => false,
        },
    }
}

pub struct WebScraper {}

impl WebScraper {
    /// Every source that has a scraper, with all its subsources.
    pub fn compute_all_scrapes(config: &ScrapeConfig) -> (r: WebScrapeInput)
        ensures
            source_lists_view(r.scrapes@) == possibilities_of(config),
    {
        WebScrapeInput { scrapes: config.all_subsources() }
    }

    /// The URLs to fetch for a source and some of its subsources.
    pub fn compute_urls(config: &ScrapeConfig, source: ScrapeSource, subsources: Vec<String>) -> (r: Vec<String>)
        requires
            can_provide_urls_for(config, source),
        ensures
            strs_view(r@) == urls_for_source(config, source, strs_view(subsources@)),
    {
        config.urls_of_source(source, subsources)
    }

    /// The result for a fetched page; `scraped` is what the source's scraper made of the body of a
    /// successful fetch.
    pub fn scrape<T>(
        config: &ScrapeConfig,
        source: ScrapeSource,
        input: WebScrapeHttpResult,
        scraped: Result<Vec<T>, String>,
    ) -> (r: WebScrapeURLResult<T>)
        ensures
            is_web_result_of(input, scraped, r),
    {
        match input {
            WebScrapeHttpResult::Fetched(s) => match scraped {
                Ok(scrapes) => WebScrapeURLResult::Scraped(s, scrapes),
                Err(e) => WebScrapeURLResult::Failed(WebScrapeHttpResult::Fetched(s), e),
            },
            WebScrapeHttpResult::HTTPError(code, body) => {
                let msg = "HTTP Error".to_owned();
                WebScrapeURLResult::Failed(WebScrapeHttpResult::HTTPError(code, body), msg)
            },
        }
    }
}

/// A story scraped from any of the sources.
pub enum TypedScrape {
    HackerNews(HackerNewsStory),
    Slashdot(SlashdotStory),
    Lobsters(LobstersStory),
    Reddit(RedditStory),
    Feed(FeedStory),
}

/// A scraped story as plain values.
pub enum TypedScrapeView {
    HackerNews(HackerNewsStoryView),
    Slashdot(SlashdotStoryView),
    Lobsters(LobstersStoryView),
    Reddit(RedditStoryView),
    Feed(FeedStoryView),
}

pub open spec fn max_u32(a: u32, b: u32) -> u32 {
    if b > a { b } else { a }
}

pub open spec fn min_int(a: int, b: int) -> int {
    if b < a { b } else { a }
}

/// A scrape after a later scrape of the same kind merges into it, as its kind's `merge` does (a
/// feed story keeps itself); a scrape of another kind changes nothing.
pub open spec fn merged_scrape(a: TypedScrapeView, b: TypedScrapeView) -> TypedScrapeView {
    match (a, b) {
        (TypedScrapeView::HackerNews(x), TypedScrapeView::HackerNews(y)) => TypedScrapeView::HackerNews(
            HackerNewsStoryView {
                title: y.title,
                url: y.url,
                points: max_u32(x.points, y.points),
                comments: max_u32(x.comments, y.comments),
                millis: min_int(x.millis, y.millis),
                ..x
            },
        ),
        (TypedScrapeView::Slashdot(x), TypedScrapeView::Slashdot(y)) => TypedScrapeView::Slashdot(
            SlashdotStoryView {
                title: y.title,
                url: y.url,
                num_comments: max_u32(x.num_comments, y.num_comments),
                millis: min_int(x.millis, y.millis),
                ..x
            },
        ),
        (TypedScrapeView::Lobsters(x), TypedScrapeView::Lobsters(y)) => TypedScrapeView::Lobsters(
            LobstersStoryView {
                title: y.title,
                url: y.url,
                millis: min_int(x.millis, y.millis),
                score: max_u32(x.score, y.score),
                num_comments: max_u32(x.num_comments, y.num_comments),
                ..x
            },
        ),
        (TypedScrapeView::Reddit(x), TypedScrapeView::Reddit(y)) => TypedScrapeView::Reddit(
            RedditStoryView {
                title: y.title,
                url: y.url,
                flair: y.flair,
                millis: min_int(x.millis, y.millis),
                position: max_u32(x.position, y.position),
                upvotes: max_u32(x.upvotes, y.upvotes),
                downvotes: max_u32(x.downvotes, y.downvotes),
                num_comments: max_u32(x.num_comments, y.num_comments),
                score: max_u32(x.score, y.score),
                ..x
            },
        ),
        _ => a,
    }
}

impl TypedScrape {
    /// Merges a later scrape of the same story into this one, by the merge of its kind; a scrape
    /// of another kind is ignored.
    pub fn merge(&mut self, b: TypedScrape)
        ensures
            final(self).view() == merged_scrape(old(self).view(), b.view()),
    {
        match self {
            TypedScrape::HackerNews(x) => {
                if let TypedScrape::HackerNews(y) = b {
                    x.merge(y);
                }
            },
            TypedScrape::Slashdot(x) => {
                if let TypedScrape::Slashdot(y) = b {
                    x.merge(y);
                }
            },
            TypedScrape::Lobsters(x) => {
                if let TypedScrape::Lobsters(y) = b {
                    x.merge(y);
                }
            },
            TypedScrape::Reddit(x) => {
                if let TypedScrape::Reddit(y) = b {
                    x.merge(y);
                }
            },
            TypedScrape::Feed(x) => {
                if let TypedScrape::Feed(y) = b {
                    x.merge(y);
                }
            },
        }
    }

    pub open spec fn view(&self) -> TypedScrapeView {
        match self {
            TypedScrape::HackerNews(s) => TypedScrapeView::HackerNews(s.view()),
            TypedScrape::Slashdot(s) => TypedScrapeView::Slashdot(s.view()),
            TypedScrape::Lobsters(s) => TypedScrapeView::Lobsters(s.view()),
            TypedScrape::Reddit(s) => TypedScrapeView::Reddit(s.view()),
            TypedScrape::Feed(s) => TypedScrapeView::Feed(s.view()),
        }
    }

    /// The story's title, as scraped.
    pub fn title(&self) -> (r: &str)
        ensures
            r@ == scrape_title(self.view()),
    {
        match self {
            TypedScrape::HackerNews(s) => s.title.as_str(),
            TypedScrape::Slashdot(s) => s.title.as_str(),
            TypedScrape::Lobsters(s) => s.title.as_str(),
            TypedScrape::Reddit(s) => s.title.as_str(),
            TypedScrape::Feed(s) => s.title.as_str(),
        }
    }

    /// The story's link.
    pub fn url(&self) -> (r: &StoryUrl)
        ensures
            r@ == scrape_url(self.view()),
    {
        match self {
            TypedScrape::HackerNews(s) => &s.url,
            TypedScrape::Slashdot(s) => &s.url,
            TypedScrape::Lobsters(s) => &s.url,
            TypedScrape::Reddit(s) => &s.url,
            TypedScrape::Feed(s) => &s.url,
        }
    }

    /// The story's date.
    pub fn date(&self) -> (r: StoryDate)
        ensures
            r.millis() == scrape_millis(self.view()),
    {
        match self {
            TypedScrape::HackerNews(s) => s.date,
            TypedScrape::Slashdot(s) => s.date,
            TypedScrape::Lobsters(s) => s.date,
            TypedScrape::Reddit(s) => s.date,
            TypedScrape::Feed(s) => s.date,
        }
    }

    /// The source the story was scraped from.
    pub fn source(&self) -> (r: ScrapeSource)
        ensures
            r == scrape_origin(self.view()),
    {
        match self {
            TypedScrape::HackerNews(_) => ScrapeSource::HackerNews,
            TypedScrape::Slashdot(_) => ScrapeSource::Slashdot,
            TypedScrape::Lobsters(_) => ScrapeSource::Lobsters,
            TypedScrape::Reddit(_) => ScrapeSource::Reddit,
            TypedScrape::Feed(_) => ScrapeSource::Feed,
        }
    }
}

pub open spec fn scrape_title(v: TypedScrapeView) -> Seq<char> {
    match v {
        TypedScrapeView::HackerNews(s) => s.title,
        TypedScrapeView::Slashdot(s) => s.title,
        TypedScrapeView::Lobsters(s) => s.title,
        TypedScrapeView::Reddit(s) => s.title,
        TypedScrapeView::Feed(s) => s.title,
    }
}

pub open spec fn scrape_url(v: TypedScrapeView) -> StoryUrlView {
    match v {
        TypedScrapeView::HackerNews(s) => s.url,
        TypedScrapeView::Slashdot(s) => s.url,
        TypedScrapeView::Lobsters(s) => s.url,
        TypedScrapeView::Reddit(s) => s.url,
        TypedScrapeView::Feed(s) => s.url,
    }
}

pub open spec fn scrape_millis(v: TypedScrapeView) -> int {
    match v {
        TypedScrapeView::HackerNews(s) => s.millis,
        TypedScrapeView::Slashdot(s) => s.millis,
        TypedScrapeView::Lobsters(s) => s.millis,
        TypedScrapeView::Reddit(s) => s.millis,
        TypedScrapeView::Feed(s) => s.millis,
    }
}

pub open spec fn scrape_origin(v: TypedScrapeView) -> ScrapeSource {
    match v {
        TypedScrapeView::HackerNews(_) => ScrapeSource::HackerNews,
        TypedScrapeView::Slashdot(_) => ScrapeSource::Slashdot,
        TypedScrapeView::Lobsters(_) => ScrapeSource::Lobsters,
        TypedScrapeView::Reddit(_) => ScrapeSource::Reddit,
        TypedScrapeView::Feed(_) => ScrapeSource::Feed,
    }
}

/// The stories of a list of scrapes, as plain values.
pub open spec fn scrape_views(s: Seq<TypedScrape>) -> Seq<TypedScrapeView> {
    s.map_values(|t: TypedScrape| t.view())
}

/// The sources whose pages can be scraped.
pub open spec fn has_scraper(source: ScrapeSource) -> bool {
    source is HackerNews || source is Slashdot || source is Lobsters || source is Reddit
}

/// Whether the page is a Reddit listing without `data`, on which the Reddit scraper stops.
pub open spec fn page_lacks_data(source: ScrapeSource, text: Seq<char>) -> bool {
    source is Reddit && json_parses(text) && lacks_data(json_value_of(text))
}

/// Whether the source's scraper refuses the page as a whole: HTML that does not parse, XML that
/// does not parse, or JSON that does not parse or is not a listing.
pub open spec fn page_refused(source: ScrapeSource, text: Seq<char>) -> bool {
    match source {
        ScrapeSource::HackerNews => !html_parses(text),
        ScrapeSource::Slashdot => !html_parses(text),
        ScrapeSource::Lobsters => !xml_parses(text),
        ScrapeSource::Reddit => !json_parses(text) || (!lacks_data(json_value_of(text))
            && listing_children(json_value_of(text)) is None),
        _ => false,
    }
}

/// The stories, as scrapes of their source, that the source's scraper makes of a page it takes.
pub open spec fn page_stories(source: ScrapeSource, text: Seq<char>) -> Seq<TypedScrapeView> {
    match source {
        ScrapeSource::HackerNews => hn_page(text).0.map_values(|s: HackerNewsStoryView| TypedScrapeView::HackerNews(s)),
        ScrapeSource::Slashdot => slashdot_page(text).0.map_values(|s: SlashdotStoryView| TypedScrapeView::Slashdot(s)),
        ScrapeSource::Lobsters => scrape_channels(xml_root_of(text).children).0.map_values(
            |s: LobstersStoryView| TypedScrapeView::Lobsters(s),
        ),
        ScrapeSource::Reddit => match listing_children(json_value_of(text)) {
            Some(children) => stories_of(children).0.map_values(|s: RedditStoryView| TypedScrapeView::Reddit(s)),
            None => Seq::empty(),
        },
        _ => Seq::empty(),
    }
}

/// The warnings that the source's scraper gives for a page it takes.
pub open spec fn page_warnings(source: ScrapeSource, text: Seq<char>) -> Seq<Seq<char>> {
    match source {
        ScrapeSource::HackerNews => hn_page(text).1,
        ScrapeSource::Slashdot => slashdot_page(text).1,
        ScrapeSource::Lobsters => scrape_channels(xml_root_of(text).children).1,
        ScrapeSource::Reddit => match listing_children(json_value_of(text)) {
            Some(children) => stories_of(children).1,
            None => Seq::empty(),
        },
        _ => Seq::empty(),
    }
}

/// Whether the error is the one the source's scraper gives for a page it refuses.
pub open spec fn refused_with(source: ScrapeSource, text: Seq<char>, e: ScrapeError) -> bool {
    match source {
        ScrapeSource::HackerNews => e is Html,
        ScrapeSource::Slashdot => e is Html,
        ScrapeSource::Lobsters => e is Xml,
        ScrapeSource::Reddit => if !json_parses(text) {
            e is Json
        } else {
            e matches ScrapeError::StructureError(m) && m@ == (if json_value_of(text) is Object {
                "Missing children element"@
            } else {
                "Failed to parse Reddit JSON"@
            })
        },
        _ => false,
    }
}

/// `format!("{:?}", e)` of a `serde_json::Error`. Its text is not documented, so nothing is said
/// of it.
#[verifier::external_body]
fn debug_json_error(e: &serde_json::Error) -> String {
    format!("{:?}", e)
}

/// `format!("{:?}", e)` of a `tl::ParseError`. Nothing is said of the text.
#[verifier::external_body]
fn debug_html_error(e: &tl::ParseError) -> String {
    format!("{:?}", e)
}

/// `format!("{:?}", e)` of a `roxmltree::Error`. Its text is not documented, so nothing is said
/// of it.
#[verifier::external_body]
fn debug_xml_error(e: &roxmltree::Error) -> String {
    format!("{:?}", e)
}

/// The debug form of a one-field variant: its name, then the field's debug text in brackets.
pub open spec fn variant_debug(name: Seq<char>, field: Seq<char>) -> Seq<char> {
    name + "("@ + field + ")"@
}

/// What the debug text of a scraping error is: the variant's name with the debug text of what it
/// holds; for the parsers' errors, whatever text their crates write.
pub open spec fn scrape_error_debug(e: ScrapeError, text: Seq<char>) -> bool {
    match e {
        ScrapeError::Json(_) => exists|t: Seq<char>| text == #[trigger] variant_debug("Json"@, t),
        ScrapeError::Html(_) => exists|t: Seq<char>| text == #[trigger] variant_debug("Html"@, t),
        ScrapeError::Xml(_) => exists|t: Seq<char>| text == #[trigger] variant_debug("Xml"@, t),
        ScrapeError::StructureError(m) => text == variant_debug("StructureError"@, str_debug_text(m@)),
    }
}

/// The message of a page the source's scraper refuses: the debug text of the error it gives.
pub open spec fn refusal_message(source: ScrapeSource, text: Seq<char>, m: Seq<char>) -> bool {
    match source {
        ScrapeSource::HackerNews => exists|t: Seq<char>| m == #[trigger] variant_debug("Html"@, t),
        ScrapeSource::Slashdot => exists|t: Seq<char>| m == #[trigger] variant_debug("Html"@, t),
        ScrapeSource::Lobsters => exists|t: Seq<char>| m == #[trigger] variant_debug("Xml"@, t),
        ScrapeSource::Reddit => if !json_parses(text) {
            exists|t: Seq<char>| m == #[trigger] variant_debug("Json"@, t)
        } else {
            m == variant_debug(
                "StructureError"@,
                str_debug_text(
                    if json_value_of(text) is Object {
                        "Missing children element"@
                    } else {
                        "Failed to parse Reddit JSON"@
                    },
                ),
            )
        },
        _ => false,
    }
}

fn variant_text(name: &str, field: String) -> (r: String)
    ensures
        r@ == variant_debug(name@, field@),
{
    let mut r = name.to_owned();
    push_str(&mut r, "(");
    push_str(&mut r, field.as_str());
    push_str(&mut r, ")");
    proof {
        reveal_strlit("(");
        reveal_strlit(")");
    }
    r
}

/// `format!("{:?}", e)` of a scraping error, as `derive(Debug)` writes it: the variant's name and
/// the debug text of what it holds, in brackets.
pub fn debug_scrape_error(e: &ScrapeError) -> (r: String)
    ensures
        scrape_error_debug(*e, r@),
{
    match e {
        ScrapeError::Json(x) => {
            let t = debug_json_error(x);
            let r = variant_text("Json", t);
            proof {
                assert(r@ == variant_debug("Json"@, t@));
            }
            r
        },
        ScrapeError::Html(x) => {
            let t = debug_html_error(x);
            let r = variant_text("Html", t);
            proof {
                assert(r@ == variant_debug("Html"@, t@));
            }
            r
        },
        ScrapeError::Xml(x) => {
            let t = debug_xml_error(x);
            let r = variant_text("Xml", t);
            proof {
                assert(r@ == variant_debug("Xml"@, t@));
            }
            r
        },
        ScrapeError::StructureError(m) => variant_text("StructureError", debug_str(m.as_str())),
    }
}

/// Scrapes a page with the scraper of its source, the stories as scrapes of that source. `None`
/// where a Reddit listing has no `data`, on which the Reddit scraper stops.
pub fn scrape_source(config: &ScrapeConfig, source: ScrapeSource, input: String) -> (r: Option<
    Result<(Vec<TypedScrape>, Vec<String>), ScrapeError>,
>)
    requires
        has_scraper(source),
    ensures
        r is None <==> page_lacks_data(source, input@),
        r matches Some(Err(_)) <==> page_refused(source, input@),
        r matches Some(Err(e)) ==> refused_with(source, input@, e),
        r matches Some(Ok((stories, warnings))) ==> scrape_views(stories@) == page_stories(source, input@)
            && strs_view(warnings@) == page_warnings(source, input@),
{
    let ghost text = input@;
    match source {
        ScrapeSource::HackerNews => match (HackerNewsScraper {}).scrape((HackerNewsArgs {}), input) {
            Ok((stories, warnings)) => {
                let v = wrap_hacker_news(stories);
                Some(Ok((v, warnings)))
            },
            Err(e) => Some(Err(e)),
        },
        ScrapeSource::Slashdot => match (SlashdotScraper {}).scrape(&config.slashdot, input) {
            Ok((stories, warnings)) => {
                let v = wrap_slashdot(stories);
                Some(Ok((v, warnings)))
            },
            Err(e) => Some(Err(e)),
        },
        ScrapeSource::Lobsters => match (LobstersScraper {}).scrape(&config.lobsters, input) {
            Ok((stories, warnings)) => {
                let v = wrap_lobsters(stories);
                Some(Ok((v, warnings)))
            },
            Err(e) => Some(Err(e)),
        },
        _ => match (RedditScraper {}).scrape((RedditArgs {}), input) {
            None => None,
            Some(Ok((stories, warnings))) => {
                let v = wrap_reddit(stories);
                Some(Ok((v, warnings)))
            },
            Some(Err(e)) => Some(Err(e)),
        },
    }
}

/// The items in reverse order.
pub(crate) fn reversed<T>(v: Vec<T>) -> (r: Vec<T>)
    ensures
        r@ == v@.reverse(),
{
    let mut v = v;
    let ghost all = v@;
    let mut out: Vec<T> = Vec::new();
    assert(all.skip(all.len() as int).reverse() =~= Seq::<T>::empty());
    while v.len() > 0
        invariant
            v@.len() <= all.len(),
            v@ == all.take(v@.len() as int),
            out@ == all.skip(v@.len() as int).reverse(),
        decreases v@.len(),
    {
        let ghost n = v@.len() as int;
        let x = v.pop().unwrap();
        assert(x == all[n - 1]);
        out.push(x);
        assert(v@ =~= all.take(n - 1));
        assert(all.skip(n - 1).reverse() =~= all.skip(n).reverse().push(all[n - 1]));
    }
    assert(all.skip(0) =~= all);
    out
}

fn wrap_hacker_news(v: Vec<HackerNewsStory>) -> (r: Vec<TypedScrape>)
    ensures
        scrape_views(r@) == crate::hacker_news::hn_views(v@).map_values(|s: HackerNewsStoryView| TypedScrapeView::HackerNews(s)),
{
    let ghost all = v@;
    let mut rest = reversed(v);
    let mut out: Vec<TypedScrape> = Vec::new();
    assert(all.skip(0) =~= all);
    while rest.len() > 0
        invariant
            out@.len() + rest@.len() == all.len(),
            rest@ == all.skip(out@.len() as int).reverse(),
            scrape_views(out@) == crate::hacker_news::hn_views(all.take(out@.len() as int)).map_values(
                |s: HackerNewsStoryView| TypedScrapeView::HackerNews(s),
            ),
        decreases rest@.len(),
    {
        let ghost k = out@.len() as int;
        let ghost before = scrape_views(out@);
        let x = rest.pop().unwrap();
        assert(x == all[k]);
        out.push(TypedScrape::HackerNews(x));
        assert(all.skip(k + 1).reverse() =~= all.skip(k).reverse().drop_last());
        assert(all.take(k + 1) =~= all.take(k).push(x));
        assert(scrape_views(out@) =~= before.push(TypedScrapeView::HackerNews(x.view())));
        assert(crate::hacker_news::hn_views(all.take(k + 1)).map_values(|s: HackerNewsStoryView| TypedScrapeView::HackerNews(s)) =~= crate::hacker_news::hn_views(
            all.take(k),
        ).map_values(|s: HackerNewsStoryView| TypedScrapeView::HackerNews(s)).push(TypedScrapeView::HackerNews(x.view())));
    }
    assert(all.take(all.len() as int) =~= all);
    out
}

fn wrap_slashdot(v: Vec<SlashdotStory>) -> (r: Vec<TypedScrape>)
    ensures
        scrape_views(r@) == crate::slashdot::slashdot_views(v@).map_values(|s: SlashdotStoryView| TypedScrapeView::Slashdot(s)),
{
    let ghost all = v@;
    let mut rest = reversed(v);
    let mut out: Vec<TypedScrape> = Vec::new();
    assert(all.skip(0) =~= all);
    while rest.len() > 0
        invariant
            out@.len() + rest@.len() == all.len(),
            rest@ == all.skip(out@.len() as int).reverse(),
            scrape_views(out@) == crate::slashdot::slashdot_views(all.take(out@.len() as int)).map_values(
                |s: SlashdotStoryView| TypedScrapeView::Slashdot(s),
            ),
        decreases rest@.len(),
    {
        let ghost k = out@.len() as int;
        let ghost before = scrape_views(out@);
        let x = rest.pop().unwrap();
        assert(x == all[k]);
        out.push(TypedScrape::Slashdot(x));
        assert(all.skip(k + 1).reverse() =~= all.skip(k).reverse().drop_last());
        assert(all.take(k + 1) =~= all.take(k).push(x));
        assert(scrape_views(out@) =~= before.push(TypedScrapeView::Slashdot(x.view())));
        assert(crate::slashdot::slashdot_views(all.take(k + 1)).map_values(|s: SlashdotStoryView| TypedScrapeView::Slashdot(s)) =~= crate::slashdot::slashdot_views(
            all.take(k),
        ).map_values(|s: SlashdotStoryView| TypedScrapeView::Slashdot(s)).push(TypedScrapeView::Slashdot(x.view())));
    }
    assert(all.take(all.len() as int) =~= all);
    out
}

fn wrap_lobsters(v: Vec<LobstersStory>) -> (r: Vec<TypedScrape>)
    ensures
        scrape_views(r@) == crate::lobsters::lobsters_views(v@).map_values(|s: LobstersStoryView| TypedScrapeView::Lobsters(s)),
{
    let ghost all = v@;
    let mut rest = reversed(v);
    let mut out: Vec<TypedScrape> = Vec::new();
    assert(all.skip(0) =~= all);
    while rest.len() > 0
        invariant
            out@.len() + rest@.len() == all.len(),
            rest@ == all.skip(out@.len() as int).reverse(),
            scrape_views(out@) == crate::lobsters::lobsters_views(all.take(out@.len() as int)).map_values(
                |s: LobstersStoryView| TypedScrapeView::Lobsters(s),
            ),
        decreases rest@.len(),
    {
        let ghost k = out@.len() as int;
        let ghost before = scrape_views(out@);
        let x = rest.pop().unwrap();
        assert(x == all[k]);
        out.push(TypedScrape::Lobsters(x));
        assert(all.skip(k + 1).reverse() =~= all.skip(k).reverse().drop_last());
        assert(all.take(k + 1) =~= all.take(k).push(x));
        assert(scrape_views(out@) =~= before.push(TypedScrapeView::Lobsters(x.view())));
        assert(crate::lobsters::lobsters_views(all.take(k + 1)).map_values(|s: LobstersStoryView| TypedScrapeView::Lobsters(s)) =~= crate::lobsters::lobsters_views(
            all.take(k),
        ).map_values(|s: LobstersStoryView| TypedScrapeView::Lobsters(s)).push(TypedScrapeView::Lobsters(x.view())));
    }
    assert(all.take(all.len() as int) =~= all);
    out
}

fn wrap_reddit(v: Vec<RedditStory>) -> (r: Vec<TypedScrape>)
    ensures
        scrape_views(r@) == crate::reddit::stories_view(v@).map_values(|s: RedditStoryView| TypedScrapeView::Reddit(s)),
{
    let ghost all = v@;
    let mut rest = reversed(v);
    let mut out: Vec<TypedScrape> = Vec::new();
    assert(all.skip(0) =~= all);
    while rest.len() > 0
        invariant
            out@.len() + rest@.len() == all.len(),
            rest@ == all.skip(out@.len() as int).reverse(),
            scrape_views(out@) == crate::reddit::stories_view(all.take(out@.len() as int)).map_values(
                |s: RedditStoryView| TypedScrapeView::Reddit(s),
            ),
        decreases rest@.len(),
    {
        let ghost k = out@.len() as int;
        let ghost before = scrape_views(out@);
        let x = rest.pop().unwrap();
        assert(x == all[k]);
        out.push(TypedScrape::Reddit(x));
        assert(all.skip(k + 1).reverse() =~= all.skip(k).reverse().drop_last());
        assert(all.take(k + 1) =~= all.take(k).push(x));
        assert(scrape_views(out@) =~= before.push(TypedScrapeView::Reddit(x.view())));
        assert(crate::reddit::stories_view(all.take(k + 1)).map_values(|s: RedditStoryView| TypedScrapeView::Reddit(s)) =~= crate::reddit::stories_view(
            all.take(k),
        ).map_values(|s: RedditStoryView| TypedScrapeView::Reddit(s)).push(TypedScrapeView::Reddit(x.view())));
    }
    assert(all.take(all.len() as int) =~= all);
    out
}

} // verus!
