//! Scraping the Lobsters RSS feed: each `item` of each `channel` becomes a story.
use vstd::prelude::*;

use crate::date::{accepted, rfc2822_to_millis, StoryDate};
use crate::scrapers::{LobstersConfig, ScrapeError, ScrapeStory};
use crate::source::ScrapeSource;
use crate::tagger::{opt_view, strs_view};
use crate::text::{push_str, str_eq, strip_all_prefix, strip_all_prefix_exec};
use crate::url::{story_url_of, StoryUrl, StoryUrlView};
use crate::xml::{lemma_xml_views, parse_xml, xml_parses, xml_root_of, xml_view, xml_views, XmlNode, XmlView};

verus! {

#[derive(Default)]
pub struct LobstersScraper {}

/// A story from the Lobsters feed.
pub struct LobstersStory {
    pub id: String,
    pub title: String,
    pub url: StoryUrl,
    pub num_comments: u32,
    pub position: u32,
    pub score: u32,
    pub date: StoryDate,
    pub tags: Vec<String>,
}

/// A story's fields as plain values.
pub struct LobstersStoryView {
    pub id: Seq<char>,
    pub title: Seq<char>,
    pub url: StoryUrlView,
    pub num_comments: u32,
    pub position: u32,
    pub score: u32,
    pub millis: int,
    pub tags: Seq<Seq<char>>,
}

impl LobstersStory {
    /// The story's fields as plain values.
    pub open spec fn view(&self) -> LobstersStoryView {
        LobstersStoryView {
            id: self.id@,
            title: self.title@,
            url: self.url@,
            num_comments: self.num_comments,
            position: self.position,
            score: self.score,
            millis: self.date.millis(),
            tags: strs_view(self.tags@),
        }
    }
}

impl ScrapeStory for LobstersStory {
    const TYPE: ScrapeSource = ScrapeSource::Lobsters;

    /// Takes the later scrape's title and link, the earlier date, and the larger score and
    /// comment count.
    fn merge(&mut self, other: LobstersStory)
        ensures
            final(self).view() == (LobstersStoryView {
                title: other.title@,
                url: other.url@,
                millis: if other.date.millis() < old(self).date.millis() { other.date.millis() } else { old(self).date.millis() },
                score: if other.score > old(self).score { other.score } else { old(self).score },
                num_comments: if other.num_comments > old(self).num_comments { other.num_comments } else { old(self).num_comments },
                ..old(self).view()
            }),
    {
        self.title = other.title;
        self.url = other.url;
        self.date = self.date.earliest(other.date);
        if other.score > self.score {
            self.score = other.score;
        }
        if other.num_comments > self.num_comments {
            self.num_comments = other.num_comments;
        }
    }
}

pub open spec fn lobsters_views(v: Seq<LobstersStory>) -> Seq<LobstersStoryView> {
    v.map_values(|s: LobstersStory| s.view())
}

/// What an item's children say so far: title, id, URL, date, tags, and warnings about children
/// of unknown names. A later child of the same name wins.
pub struct ItemFields {
    pub title: Option<Seq<char>>,
    pub id: Option<Seq<char>>,
    pub url: Option<StoryUrlView>,
    pub date: Option<int>,
    pub tags: Seq<Seq<char>>,
    pub warnings: Seq<Seq<char>>,
}

pub open spec fn unknown_subnode_message(name: Seq<char>) -> Seq<char> {
    "Unknown sub-node '"@ + name + "'"@
}

/// An element named `author`, `comments` or `description`: read and ignored.
pub open spec fn is_ignored_field(name: Seq<char>) -> bool {
    name == "author"@ || name == "comments"@ || name == "description"@
}

pub open spec fn item_fields(subs: Seq<XmlView>) -> ItemFields
    decreases subs.len(),
{
    if subs.len() == 0 {
        ItemFields { title: None, id: None, url: None, date: None, tags: Seq::empty(), warnings: Seq::empty() }
    } else {
        let f = item_fields(subs.drop_last());
        let n = subs.last();
        if !n.is_element {
            f
        } else if n.name == "title"@ {
            ItemFields { title: n.text, ..f }
        } else if n.name == "guid"@ {
            ItemFields {
                id: match n.text {
                    Some(t) => Some(strip_all_prefix(t, "https://lobste.rs/s/"@)),
                    None => None,
                },
                ..f
            }
        } else if n.name == "link"@ {
            ItemFields {
                url: match n.text {
                    Some(t) => story_url_of(t),
                    None => None,
                },
                ..f
            }
        } else if n.name == "pubDate"@ {
            ItemFields {
                date: match n.text {
                    Some(t) => accepted(rfc2822_to_millis(t)),
                    None => None,
                },
                ..f
            }
        } else if n.name == "category"@ {
            ItemFields {
                tags: match n.text {
                    Some(t) => f.tags.push(t),
                    None => f.tags,
                },
                ..f
            }
        } else if is_ignored_field(n.name) {
            f
        } else {
            ItemFields { warnings: f.warnings.push(unknown_subnode_message(n.name)), ..f }
        }
    }
}

/// The nodes named `item`.
pub open spec fn items_of(children: Seq<XmlView>) -> Seq<XmlView>
    decreases children.len(),
{
    if children.len() == 0 {
        Seq::empty()
    } else if children.last().name == "item"@ {
        items_of(children.drop_last()).push(children.last())
    } else {
        items_of(children.drop_last())
    }
}

/// The stories and warnings of a channel's items, each story at its position among the items,
/// counted from 1, with no comments and no score.
pub open spec fn scrape_items(items: Seq<XmlView>) -> (Seq<LobstersStoryView>, Seq<Seq<char>>)
    decreases items.len(),
{
    if items.len() == 0 {
        (Seq::empty(), Seq::empty())
    } else {
        let (stories, warnings) = scrape_items(items.drop_last());
        let f = item_fields(items.last().children);
        let w = warnings + f.warnings;
        match (f.title, f.id, f.url, f.date) {
            (Some(title), Some(id), Some(url), Some(millis)) => (
                stories.push(
                    LobstersStoryView {
                        id,
                        title,
                        url,
                        num_comments: 0,
                        position: items.len() as u32,
                        score: 0,
                        millis,
                        tags: f.tags,
                    },
                ),
                w,
            ),
            _ => (stories, w.push("Story did not contain all required fields"@)),
        }
    }
}

/// The stories and warnings of every `channel` among the root's children, channel after channel.
pub open spec fn scrape_channels(children: Seq<XmlView>) -> (Seq<LobstersStoryView>, Seq<Seq<char>>)
    decreases children.len(),
{
    if children.len() == 0 {
        (Seq::empty(), Seq::empty())
    } else {
        let (stories, warnings) = scrape_channels(children.drop_last());
        let c = children.last();
        if c.name == "channel"@ {
            let (s, w) = scrape_items(items_of(c.children));
            (stories + s, warnings + w)
        } else {
            (stories, warnings)
        }
    }
}

/// What an item's children say.
fn item_fields_exec(subs: &Vec<XmlNode>) -> (r: (Option<String>, Option<String>, Option<StoryUrl>, Option<StoryDate>, Vec<String>, Vec<String>))
    ensures
        ({
            let f = item_fields(xml_views(subs@));
            &&& opt_view(r.0) == f.title
            &&& opt_view(r.1) == f.id
            &&& match (r.2, f.url) {
                (Some(u), Some(v)) => u@ == v,
                (None, None) => true,
                _ => false,
            }
            &&& match (r.3, f.date) {
                (Some(d), Some(m)) => d.millis() == m && d.valid(),
                (None, None) => true,
                _ => false,
            }
            &&& strs_view(r.4@) == f.tags
            &&& strs_view(r.5@) == f.warnings
        }),
{
    proof {
        lemma_xml_views(subs@);
    }
    let mut title: Option<String> = None;
    let mut id: Option<String> = None;
    let mut url: Option<StoryUrl> = None;
    let mut date: Option<StoryDate> = None;
    let mut tags: Vec<String> = Vec::new();
    let mut warnings: Vec<String> = Vec::new();
    let mut i: usize = 0;
    while i < subs.len()
        invariant
            i <= subs@.len(),
            xml_views(subs@).len() == subs@.len(),
            forall|k: int| 0 <= k < subs@.len() ==> #[trigger] xml_views(subs@)[k] == xml_view(subs@[k]),
            ({
                let f = item_fields(xml_views(subs@).take(i as int));
                &&& opt_view(title) == f.title
                &&& opt_view(id) == f.id
                &&& match (url, f.url) {
                    (Some(u), Some(v)) => u@ == v,
                    (None, None) => true,
                    _ => false,
                }
                &&& match (date, f.date) {
                    (Some(d), Some(m)) => d.millis() == m && d.valid(),
                    (None, None) => true,
                    _ => false,
                }
                &&& strs_view(tags@) == f.tags
                &&& strs_view(warnings@) == f.warnings
            }),
        decreases subs@.len() - i,
    {
        let ghost sv = xml_views(subs@);
        assert(sv.take(i + 1).drop_last() =~= sv.take(i as int));
        assert(sv.take(i + 1).last() == xml_view(subs@[i as int]));
        let n = &subs[i];
        if n.is_element {
            let name = n.name.as_str();
            if str_eq(name, "title") {
                title = match &n.text {
                    Some(t) => Some(t.clone()),
                    None => None,
                };
            } else if str_eq(name, "guid") {
                id = match &n.text {
                    Some(t) => {
                        proof {
                            reveal_strlit("https://lobste.rs/s/");
                        }
                        Some(strip_all_prefix_exec(t.as_str(), "https://lobste.rs/s/"))
                    },
                    None => None,
                };
            } else if str_eq(name, "link") {
                url = match &n.text {
                    Some(t) => StoryUrl::parse(t.as_str()),
                    None => None,
                };
            } else if str_eq(name, "pubDate") {
                date = match &n.text {
                    Some(t) => StoryDate::parse_from_rfc2822(t.as_str()),
                    None => None,
                };
            } else if str_eq(name, "category") {
                match &n.text {
                    Some(t) => {
                        let ghost before = strs_view(tags@);
                        tags.push(t.clone());
                        assert(strs_view(tags@) =~= before.push(t@));
                    },
                    None => {},
                }
            } else if str_eq(name, "author") || str_eq(name, "comments") || str_eq(name, "description") {
            } else {
                let mut m = "Unknown sub-node '".to_owned();
                push_str(&mut m, name);
                push_str(&mut m, "'");
                let ghost before = strs_view(warnings@);
                warnings.push(m);
                assert(strs_view(warnings@) =~= before.push(m@));
            }
        }
        i = i + 1;
    }
    assert(xml_views(subs@).take(subs@.len() as int) =~= xml_views(subs@));
    (title, id, url, date, tags, warnings)
}

fn append_strings_to(v: &mut Vec<String>, w: Vec<String>)
    ensures
        strs_view(final(v)@) == strs_view(old(v)@) + strs_view(w@),
{
    let mut w = w;
    let ghost wv = w@;
    v.append(&mut w);
    assert(strs_view(v@) =~= strs_view(old(v)@) + strs_view(wv));
}

/// The stories and warnings of a channel's items.
fn scrape_items_exec(children: &Vec<XmlNode>, stories: &mut Vec<LobstersStory>, warnings: &mut Vec<String>)
    ensures
        ({
            let (s, w) = scrape_items(items_of(xml_views(children@)));
            &&& lobsters_views(final(stories)@) == lobsters_views(old(stories)@) + s
            &&& strs_view(final(warnings)@) == strs_view(old(warnings)@) + w
        }),
{
    proof {
        lemma_xml_views(children@);
    }
    let ghost s0 = lobsters_views(stories@);
    let ghost w0 = strs_view(warnings@);
    let mut i: usize = 0;
    let mut position: usize = 0;
    assert(xml_views(children@).take(0) =~= Seq::<XmlView>::empty());
    assert(s0 + Seq::<LobstersStoryView>::empty() =~= s0);
    assert(w0 + Seq::<Seq<char>>::empty() =~= w0);
    while i < children.len()
        invariant
            i <= children@.len(),
            xml_views(children@).len() == children@.len(),
            forall|k: int| 0 <= k < children@.len() ==> #[trigger] xml_views(children@)[k] == xml_view(children@[k]),
            position == items_of(xml_views(children@).take(i as int)).len(),
            position <= i,
            lobsters_views(stories@) == s0 + scrape_items(items_of(xml_views(children@).take(i as int))).0,
            strs_view(warnings@) == w0 + scrape_items(items_of(xml_views(children@).take(i as int))).1,
        decreases children@.len() - i,
    {
        let ghost cv = xml_views(children@);
        let ghost items = items_of(cv.take(i as int));
        assert(cv.take(i + 1).drop_last() =~= cv.take(i as int));
        assert(cv.take(i + 1).last() == xml_view(children@[i as int]));
        let item = &children[i];
        if str_eq(item.name.as_str(), "item") {
            let ghost items1 = items.push(xml_view(*item));
            assert(items_of(cv.take(i + 1)) == items1);
            assert(items1.drop_last() =~= items);
            let (title, id, url, date, tags, item_warnings) = item_fields_exec(&item.children);
            let ghost f = item_fields(xml_views(item.children@));
            let ghost (ps, pw) = scrape_items(items);
            let ghost bw = strs_view(warnings@);
            append_strings_to(warnings, item_warnings);
            assert(strs_view(warnings@) =~= w0 + (pw + f.warnings));
            match (title, id, url, date) {
                (Some(title), Some(id), Some(url), Some(date)) => {
                    let ghost before = lobsters_views(stories@);
                    let story = LobstersStory {
                        id,
                        title,
                        url,
                        num_comments: 0,
                        position: (position + 1) as u32,
                        score: 0,
                        date,
                        tags,
                    };
                    let ghost sv = story.view();
                    stories.push(story);
                    assert(lobsters_views(stories@) =~= before.push(sv));
                    assert(lobsters_views(stories@) =~= s0 + ps.push(sv));
                },
                _ => {
                    let ghost before = strs_view(warnings@);
                    let m = "Story did not contain all required fields".to_owned();
                    warnings.push(m);
                    assert(strs_view(warnings@) =~= before.push(m@));
                    assert(strs_view(warnings@) =~= w0 + (pw + f.warnings).push(m@));
                },
            }
            position = position + 1;
        } else {
            assert(items_of(cv.take(i + 1)) == items);
        }
        i = i + 1;
    }
    assert(xml_views(children@).take(children@.len() as int) =~= xml_views(children@));
}

impl LobstersScraper {
    /// The stories of every item of every channel of a parsed feed, and warnings about children of
    /// unknown names and items without a title, id, URL or date.
    pub fn scrape_root(&self, root: &XmlNode) -> (r: (Vec<LobstersStory>, Vec<String>))
        ensures
            (lobsters_views(r.0@), strs_view(r.1@)) == scrape_channels(xml_view(*root).children),
    {
        proof {
            lemma_xml_views(root.children@);
        }
        let mut stories: Vec<LobstersStory> = Vec::new();
        let mut warnings: Vec<String> = Vec::new();
        let mut i: usize = 0;
        assert(xml_views(root.children@).take(0) =~= Seq::<XmlView>::empty());
        while i < root.children.len()
            invariant
                i <= root.children@.len(),
                xml_views(root.children@).len() == root.children@.len(),
                forall|k: int| 0 <= k < root.children@.len() ==> #[trigger] xml_views(root.children@)[k]
                    == xml_view(root.children@[k]),
                lobsters_views(stories@) == scrape_channels(xml_views(root.children@).take(i as int)).0,
                strs_view(warnings@) == scrape_channels(xml_views(root.children@).take(i as int)).1,
            decreases root.children@.len() - i,
        {
            let ghost cv = xml_views(root.children@);
            assert(cv.take(i + 1).drop_last() =~= cv.take(i as int));
            assert(cv.take(i + 1).last() == xml_view(root.children@[i as int]));
            let channel = &root.children[i];
            if str_eq(channel.name.as_str(), "channel") {
                scrape_items_exec(&channel.children, &mut stories, &mut warnings);
            }
            i = i + 1;
        }
        assert(xml_views(root.children@).take(root.children@.len() as int) =~= xml_views(root.children@));
        (stories, warnings)
    }

    /// Scrapes a Lobsters RSS page: the stories of every item of every channel, and warnings
    /// about children of unknown names and items without a title, id, URL or date.
    pub fn scrape(&self, args: &LobstersConfig, input: String) -> (r: Result<(Vec<LobstersStory>, Vec<String>), ScrapeError>)
        ensures
            !xml_parses(input@) <==> r matches Err(ScrapeError::Xml(_)),
            r matches Err(e) ==> e is Xml,
            r matches Ok((stories, warnings)) ==> ({
                let (s, w) = scrape_channels(xml_root_of(input@).children);
                lobsters_views(stories@) == s && strs_view(warnings@) == w
            }),
    {
        match parse_xml(input.as_str()) {
            Ok(root) => Ok(self.scrape_root(&root)),
            Err(e) => Err(ScrapeError::Xml(e)),
        }
    }
}

} // verus!
