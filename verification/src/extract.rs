//! What the story store reads of a scraped story, whatever its source: its scrape identifier,
//! title, link, date, tags and rank.
use vstd::prelude::*;

use crate::date::StoryDate;
use crate::hacker_news::{HackerNewsScraper, HackerNewsStory};
use crate::lobsters::{LobstersScraper, LobstersStory};
use crate::reddit::{RedditScraper, RedditStory};
use crate::scrapers::{
    FeedConfig, FeedScraper, FeedStory, HackerNewsConfig, LobstersConfig, RedditConfig, SubredditConfig,
};
use crate::source::{ScrapeId, ScrapeSource};
use crate::tagger::{
    assoc_get, keys_of, str_to_lowercase, string_key_index, string_keys, strs_view,
    unicode_lowercase,
};
use crate::text::{chars_of, ends_with, has_prefix, has_suffix, starts_with};
use crate::url::{StoryUrl, StoryUrlView};

verus! {

/// The core of a scraped story.
pub struct ScrapeCore<'a> {
    /// The scrape identifier.
    pub source: ScrapeId,
    /// The title on the source.
    pub title: &'a str,
    pub url: &'a StoryUrl,
    pub date: StoryDate,
    /// The tags the source gives.
    pub tags: Vec<String>,
    /// The story's rank on its source, counted from 0 (lower is better), where it has one.
    pub rank: Option<usize>,
}

pub struct ScrapeCoreView {
    pub source: (ScrapeSource, Option<Seq<char>>, Seq<char>),
    pub title: Seq<char>,
    pub url: StoryUrlView,
    pub millis: int,
    pub tags: Seq<Seq<char>>,
    pub rank: Option<int>,
}

impl<'a> ScrapeCore<'a> {
    pub open spec fn view(&self) -> ScrapeCoreView {
        ScrapeCoreView {
            source: self.source@,
            title: self.title@,
            url: self.url@,
            millis: self.date.millis(),
            tags: strs_view(self.tags@),
            rank: match self.rank {
                Some(r) => Some(r as int),
                None => None,
            },
        }
    }
}

/// The rank of a 1-based position: one less, where it is at least 1.
pub open spec fn rank_of(position: u32) -> Option<int> {
    if position >= 1 {
        Some(position - 1)
    } else {
        None
    }
}

fn rank_exec(position: u32) -> (r: Option<usize>)
    ensures
        match r {
            Some(x) => rank_of(position) == Some(x as int),
            None => rank_of(position) is None,
        },
{
    if position >= 1 {
        Some((position - 1) as usize)
    } else {
        None
    }
}

/// The tags a Hacker News title carries: `show` and `ask` for its `Show HN` and `Ask HN` posts,
/// `pdf` and `video` for titles that end so marked.
pub open spec fn hn_title_tags(title: Seq<char>) -> Seq<Seq<char>> {
    (if has_prefix(title, "Show HN"@) { seq!["show"@] } else { Seq::empty() })
        + (if has_prefix(title, "Ask HN"@) { seq!["ask"@] } else { Seq::empty() })
        + (if has_suffix(title, "[pdf]"@) { seq!["pdf"@] } else { Seq::empty() })
        + (if has_suffix(title, "[video]"@) { seq!["video"@] } else { Seq::empty() })
}

/// The tags of a Lobsters story that the deny list does not name, in order.
pub open spec fn allowed_tags(tags: Seq<Seq<char>>, denied: Seq<Seq<char>>) -> Seq<Seq<char>>
    decreases tags.len(),
{
    if tags.len() == 0 {
        Seq::empty()
    } else if denied.contains(tags.last()) {
        allowed_tags(tags.drop_last(), denied)
    } else {
        allowed_tags(tags.drop_last(), denied).push(tags.last())
    }
}

/// The tags a Reddit story takes from its subreddit's configuration: its flair, lowercased, where
/// the flair is a tag there, then the subreddit's name, where that is a tag.
pub open spec fn reddit_tags(configs: Seq<(Seq<char>, SubredditConfig)>, subreddit: Seq<char>, flair: Seq<char>) -> Seq<Seq<char>> {
    match assoc_get(configs, subreddit) {
        Some(c) => (if c.flair_is_tag { seq![unicode_lowercase(flair)] } else { Seq::empty() })
            + (if c.is_tag { seq![subreddit] } else { Seq::empty() }),
        None => Seq::empty(),
    }
}

pub open spec fn subreddit_configs(v: Seq<(String, SubredditConfig)>) -> Seq<(Seq<char>, SubredditConfig)> {
    v.map_values(|e: (String, SubredditConfig)| (e.0@, e.1))
}

fn lit_chars(s: &str) -> (r: Vec<char>)
    ensures
        r@ == s@,
{
    chars_of(s)
}

impl HackerNewsScraper {
    /// The tags a title carries.
    pub fn tags_from_title(&self, args: &HackerNewsConfig, title: &str) -> (r: Vec<&'static str>)
        ensures
            r@.map_values(|t: &str| t@) == hn_title_tags(title@),
    {
        let t = chars_of(title);
        let mut tags: Vec<&'static str> = Vec::new();
        let ghost mut expected: Seq<Seq<char>> = Seq::empty();
        if starts_with(t.as_slice(), lit_chars("Show HN").as_slice()) {
            tags.push("show");
        }
        if starts_with(t.as_slice(), lit_chars("Ask HN").as_slice()) {
            tags.push("ask");
        }
        if ends_with(t.as_slice(), lit_chars("[pdf]").as_slice()) {
            tags.push("pdf");
        }
        if ends_with(t.as_slice(), lit_chars("[video]").as_slice()) {
            tags.push("video");
        }
        assert(tags@.map_values(|t: &str| t@) =~= hn_title_tags(title@));
        tags
    }

    /// The core of a story: its tags are those of its title, its rank one less than its position.
    pub fn extract_core<'a>(&self, args: &HackerNewsConfig, input: &'a HackerNewsStory) -> (r: ScrapeCore<'a>)
        ensures
            r.view() == (ScrapeCoreView {
                source: (ScrapeSource::HackerNews, None, input.id@),
                title: input.title@,
                url: input.url@,
                millis: input.date.millis(),
                tags: hn_title_tags(input.title@),
                rank: rank_of(input.position),
            }),
    {
        let title_tags = self.tags_from_title(args, input.title.as_str());
        let mut tags: Vec<String> = Vec::new();
        let mut i: usize = 0;
        while i < title_tags.len()
            invariant
                i <= title_tags@.len(),
                strs_view(tags@) == title_tags@.map_values(|t: &str| t@).take(i as int),
            decreases title_tags@.len() - i,
        {
            let ghost before = strs_view(tags@);
            let t = title_tags[i].to_owned();
            let ghost tv = t@;
            assert(tv == title_tags@.map_values(|t: &str| t@)[i as int]);
            tags.push(t);
            assert(strs_view(tags@) =~= before.push(tv));
            assert(strs_view(tags@) =~= title_tags@.map_values(|t: &str| t@).take(i + 1));
            i = i + 1;
        }
        assert(title_tags@.map_values(|t: &str| t@).take(title_tags@.len() as int) =~= title_tags@.map_values(
            |t: &str| t@,
        ));
        ScrapeCore {
            source: ScrapeId { source: ScrapeSource::HackerNews, subsource: None, id: input.id.clone() },
            title: input.title.as_str(),
            url: &input.url,
            date: input.date,
            tags,
            rank: rank_exec(input.position),
        }
    }
}

fn denied(list: &Vec<String>, tag: &String) -> (r: bool)
    ensures
        r == strs_view(list@).contains(tag@),
{
    let ghost lv = strs_view(list@);
    let mut i: usize = 0;
    while i < list.len()
        invariant
            i <= list@.len(),
            lv == strs_view(list@),
            forall|k: int| 0 <= k < i ==> lv[k] != tag@,
        decreases list@.len() - i,
    {
        if list[i] == *tag {
            assert(lv[i as int] == tag@);
            return true;
        }
        i = i + 1;
    }
    false
}

impl LobstersScraper {
    /// The core of a story: its tags less those of the deny list, its rank one less than its
    /// position.
    pub fn extract_core<'a>(&self, args: &LobstersConfig, input: &'a LobstersStory) -> (r: ScrapeCore<'a>)
        ensures
            r.view() == (ScrapeCoreView {
                source: (ScrapeSource::Lobsters, None, input.id@),
                title: input.title@,
                url: input.url@,
                millis: input.date.millis(),
                tags: allowed_tags(strs_view(input.tags@), strs_view(args.tag_denylist@)),
                rank: rank_of(input.position),
            }),
    {
        let ghost tv = strs_view(input.tags@);
        let ghost dv = strs_view(args.tag_denylist@);
        let mut tags: Vec<String> = Vec::new();
        let mut i: usize = 0;
        assert(tv.take(0) =~= Seq::<Seq<char>>::empty());
        assert(strs_view(tags@) =~= Seq::<Seq<char>>::empty());
        while i < input.tags.len()
            invariant
                i <= input.tags@.len(),
                tv == strs_view(input.tags@),
                dv == strs_view(args.tag_denylist@),
                strs_view(tags@) == allowed_tags(tv.take(i as int), dv),
            decreases input.tags@.len() - i,
        {
            assert(tv.take(i + 1).drop_last() =~= tv.take(i as int));
            assert(tv.take(i + 1).last() == input.tags@[i as int]@);
            if !denied(&args.tag_denylist, &input.tags[i]) {
                let ghost before = strs_view(tags@);
                let t = input.tags[i].clone();
                tags.push(t);
                assert(strs_view(tags@) =~= before.push(input.tags@[i as int]@));
            }
            i = i + 1;
        }
        assert(tv.take(input.tags@.len() as int) =~= tv);
        ScrapeCore {
            source: ScrapeId { source: ScrapeSource::Lobsters, subsource: None, id: input.id.clone() },
            title: input.title.as_str(),
            url: &input.url,
            date: input.date,
            tags,
            rank: rank_exec(input.position),
        }
    }
}

impl RedditScraper {
    /// The core of a story: identified within its subreddit, tagged as its subreddit's
    /// configuration says, ranked one less than its position.
    pub fn extract_core<'a>(&self, args: &RedditConfig, input: &'a RedditStory) -> (r: ScrapeCore<'a>)
        ensures
            r.view() == (ScrapeCoreView {
                source: (ScrapeSource::Reddit, Some(input.subreddit@), input.id@),
                title: input.title@,
                url: input.url@,
                millis: input.date.millis(),
                tags: reddit_tags(subreddit_configs(args.subreddits@), input.subreddit@, input.flair@),
                rank: rank_of(input.position),
            }),
    {
        let ghost cv = subreddit_configs(args.subreddits@);
        assert(keys_of(cv) =~= string_keys(args.subreddits@));
        let mut tags: Vec<String> = Vec::new();
        match string_key_index(&args.subreddits, &input.subreddit) {
            Some(k) => {
                let config = args.subreddits[k].1;
                assert(assoc_get(cv, input.subreddit@) == Some(config));
                if config.flair_is_tag {
                    tags.push(str_to_lowercase(input.flair.as_str()));
                }
                if config.is_tag {
                    tags.push(input.subreddit.clone());
                }
                assert(strs_view(tags@) =~= reddit_tags(cv, input.subreddit@, input.flair@));
            },
            None => {
                assert(assoc_get(cv, input.subreddit@) is None);
                assert(strs_view(tags@) =~= reddit_tags(cv, input.subreddit@, input.flair@));
            },
        }
        ScrapeCore {
            source: ScrapeId {
                source: ScrapeSource::Reddit,
                subsource: Some(input.subreddit.clone()),
                id: input.id.clone(),
            },
            title: input.title.as_str(),
            url: &input.url,
            date: input.date,
            tags,
            rank: rank_exec(input.position),
        }
    }
}

impl FeedScraper {
    /// The core of a feed story: its own tags, and no rank.
    pub fn extract_core<'a>(&self, args: &FeedConfig, input: &'a FeedStory) -> (r: ScrapeCore<'a>)
        ensures
            r.view() == (ScrapeCoreView {
                source: (ScrapeSource::Feed, None, input.id@),
                title: input.title@,
                url: input.url@,
                millis: input.date.millis(),
                tags: strs_view(input.tags@),
                rank: None,
            }),
    {
        let ghost tv = strs_view(input.tags@);
        let mut tags: Vec<String> = Vec::new();
        let mut i: usize = 0;
        assert(tv.take(0) =~= Seq::<Seq<char>>::empty());
        while i < input.tags.len()
            invariant
                i <= input.tags@.len(),
                tv == strs_view(input.tags@),
                strs_view(tags@) == tv.take(i as int),
            decreases input.tags@.len() - i,
        {
            let ghost before = strs_view(tags@);
            let t = input.tags[i].clone();
            assert(t@ == input.tags@[i as int]@);
            tags.push(t);
            assert(strs_view(tags@) =~= before.push(input.tags@[i as int]@));
            i = i + 1;
            assert(strs_view(tags@) =~= tv.take(i as int));
        }
        assert(tv.take(input.tags@.len() as int) =~= tv);
        ScrapeCore {
            source: ScrapeId { source: ScrapeSource::Feed, subsource: None, id: input.id.clone() },
            title: input.title.as_str(),
            url: &input.url,
            date: input.date,
            tags,
            rank: None,
        }
    }
}

} // verus!
