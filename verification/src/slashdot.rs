//! Scraping the Slashdot front page: each `article.article` element is a story, its date written
//! like `on Monday January 09, 2023 @08:25PM`.
use vstd::prelude::*;

use crate::date::{accepted, naive_datetime_to_millis, StoryDate};
use crate::dom::{
    attribute_of, find_first, first_within, get_attribute, html_parses, html_selected, html_view,
    html_views, inner_text, inner_text_exec, lemma_html_views, ref_views, select_in_html,
    select_within, select_within_exec, HtmlNode, HtmlSelector, HtmlView,
};
use crate::scrapers::{ScrapeError, ScrapeStory, SlashdotConfig};
use crate::source::ScrapeSource;
use crate::tagger::strs_view;
use crate::text::{
    byte_len_at_most, chars_of, find, first_occurrence, lower_seq, occurs_at, parse_uint,
    parse_unsigned, push_str, string_of, string_of_range, strip_all_prefix, strip_all_prefix_exec,
    to_ascii_lowercase, utf8_len,
};
use crate::url::{story_url_of, StoryUrl, StoryUrlView};

verus! {

#[derive(Default)]
pub struct SlashdotScraper {}

/// `s` without its `@` and `,` characters.
pub open spec fn drop_at_and_comma(s: Seq<char>) -> Seq<char>
    decreases s.len(),
{
    if s.len() == 0 {
        s
    } else if s.last() == '@' || s.last() == ',' {
        drop_at_and_comma(s.drop_last())
    } else {
        drop_at_and_comma(s.drop_last()).push(s.last())
    }
}

/// A date with its leading `on `s and its `@` and `,` characters gone.
pub open spec fn cleaned_date(s: Seq<char>) -> Seq<char> {
    drop_at_and_comma(strip_all_prefix(s, "on "@))
}

/// The formats tried, in order: with and without the weekday, the day zero-padded or not, `AM` or
/// `am`.
pub open spec fn slashdot_formats() -> Seq<Seq<char>> {
    seq![
        "%A %B %d %Y %I:%M%p"@,
        "%A %B %d %Y %I:%M%P"@,
        "%A %B %e %Y %I:%M%p"@,
        "%A %B %e %Y %I:%M%P"@,
        "%B %d %Y %I:%M%p"@,
        "%B %d %Y %I:%M%P"@,
        "%B %e %Y %I:%M%p"@,
        "%B %e %Y %I:%M%P"@,
    ]
}

/// The instant the first format that reads `text` gives.
pub open spec fn first_reading(text: Seq<char>, formats: Seq<Seq<char>>) -> Option<int>
    decreases formats.len(),
{
    if formats.len() == 0 {
        None
    } else {
        match accepted(naive_datetime_to_millis(text, formats[0])) {
            Some(m) => Some(m),
            None => first_reading(text, formats.skip(1)),
        }
    }
}

impl SlashdotScraper {
    /// Reads a story date: cleans it up and tries each format in turn.
    pub fn parse_time(date: &str) -> (r: Result<StoryDate, String>)
        ensures
            match (r, first_reading(cleaned_date(date@), slashdot_formats())) {
                (Ok(d), Some(m)) => d.millis() == m && d.valid(),
                (Err(e), None) => e@ == "Failed to parse date: "@ + cleaned_date(date@),
                _ => false,
            },
    {
        proof {
            reveal_strlit("on ");
        }
        let stripped = strip_all_prefix_exec(date, "on ");
        let c = chars_of(stripped.as_str());
        let mut kept: Vec<char> = Vec::new();
        let mut i: usize = 0;
        assert(c@.take(0) =~= Seq::<char>::empty());
        while i < c.len()
            invariant
                i <= c@.len(),
                kept@ == drop_at_and_comma(c@.take(i as int)),
            decreases c@.len() - i,
        {
            assert(c@.take(i + 1).drop_last() =~= c@.take(i as int));
            assert(c@.take(i + 1).last() == c@[i as int]);
            if c[i] != '@' && c[i] != ',' {
                kept.push(c[i]);
            }
            i = i + 1;
        }
        assert(c@.take(c@.len() as int) =~= c@);
        let text = string_of(kept.as_slice());
        let formats: Vec<&str> = vec![
            "%A %B %d %Y %I:%M%p",
            "%A %B %d %Y %I:%M%P",
            "%A %B %e %Y %I:%M%p",
            "%A %B %e %Y %I:%M%P",
            "%B %d %Y %I:%M%p",
            "%B %d %Y %I:%M%P",
            "%B %e %Y %I:%M%p",
            "%B %e %Y %I:%M%P",
        ];
        let ghost fv = formats@.map_values(|f: &str| f@);
        assert(fv =~= slashdot_formats());
        let mut k: usize = 0;
        assert(fv.skip(0) =~= fv);
        while k < formats.len()
            invariant
                k <= formats@.len(),
                fv == formats@.map_values(|f: &str| f@),
                fv.len() == formats@.len(),
                text@ == cleaned_date(date@),
                first_reading(text@, fv.skip(k as int)) == first_reading(text@, slashdot_formats()),
            decreases formats@.len() - k,
        {
            assert(fv.skip(k as int)[0] == formats@[k as int]@);
            assert(fv.skip(k as int).skip(1) =~= fv.skip(k + 1));
            if let Some(d) = StoryDate::from_string(text.as_str(), formats[k]) {
                return Ok(d);
            }
            k = k + 1;
        }
        let mut msg = "Failed to parse date: ".to_owned();
        push_str(&mut msg, text.as_str());
        Err(msg)
    }
}

/// A story from the Slashdot front page.
pub struct SlashdotStory {
    pub id: String,
    pub title: String,
    pub url: StoryUrl,
    pub num_comments: u32,
    pub date: StoryDate,
    pub tags: Vec<String>,
}

/// A story's fields as plain values.
pub struct SlashdotStoryView {
    pub id: Seq<char>,
    pub title: Seq<char>,
    pub url: StoryUrlView,
    pub num_comments: u32,
    pub millis: int,
    pub tags: Seq<Seq<char>>,
}

impl SlashdotStory {
    pub open spec fn view(&self) -> SlashdotStoryView {
        SlashdotStoryView {
            id: self.id@,
            title: self.title@,
            url: self.url@,
            num_comments: self.num_comments,
            millis: self.date.millis(),
            tags: strs_view(self.tags@),
        }
    }
}

impl ScrapeStory for SlashdotStory {
    const TYPE: ScrapeSource = ScrapeSource::Slashdot;

    /// Takes the later scrape's title and link, the earlier date, and the larger comment count.
    fn merge(&mut self, other: SlashdotStory)
        ensures
            final(self).view() == (SlashdotStoryView {
                title: other.title@,
                url: other.url@,
                num_comments: if other.num_comments > old(self).num_comments { other.num_comments } else { old(self).num_comments },
                millis: if other.date.millis() < old(self).date.millis() { other.date.millis() } else { old(self).date.millis() },
                ..old(self).view()
            }),
    {
        self.title = other.title;
        self.url = other.url;
        self.date = self.date.earliest(other.date);
        if other.num_comments > self.num_comments {
            self.num_comments = other.num_comments;
        }
    }
}

pub open spec fn slashdot_views(v: Seq<SlashdotStory>) -> Seq<SlashdotStoryView> {
    v.map_values(|s: SlashdotStory| s.view())
}

/// The number of `/` in `s`.
pub open spec fn slash_count(s: Seq<char>) -> nat
    decreases s.len(),
{
    if s.len() == 0 {
        0
    } else {
        slash_count(s.drop_last()) + if s.last() == '/' { 1nat } else { 0nat }
    }
}

/// The part of `s` before its `/` of index `n` (counting from 0); all of `s` where it has no more
/// than `n` of them.
pub open spec fn before_slash(s: Seq<char>, n: nat) -> Seq<char>
    decreases s.len(),
{
    if s.len() == 0 {
        s
    } else if s[0] == '/' {
        if n == 0 {
            Seq::empty()
        } else {
            seq!['/'] + before_slash(s.skip(1), (n - 1) as nat)
        }
    } else {
        seq![s[0]] + before_slash(s.skip(1), n)
    }
}

/// A story's id from its link: the first four `/`-separated parts after `/story/`.
pub open spec fn story_id_of(link: Seq<char>) -> Option<Seq<char>> {
    match first_occurrence(link, "/story/"@) {
        Some(i) => {
            let rest = link.skip(i + 7);
            if slash_count(rest) >= 3 {
                Some(before_slash(rest, 3))
            } else {
                None
            }
        },
        None => None,
    }
}

/// The tags that the topic images give, lowercased, or the first error.
pub open spec fn topic_tags(images: Seq<HtmlView>) -> Result<Seq<Seq<char>>, Seq<char>>
    decreases images.len(),
{
    if images.len() == 0 {
        Ok(Seq::empty())
    } else {
        match topic_tags(images.drop_last()) {
            Err(e) => Err(e),
            Ok(tags) => match attribute_of(images.last(), "title"@) {
                None => Err("Missing title on topic"@),
                Some(t) => Ok(tags.push(lower_seq(t))),
            },
        }
    }
}

/// The comment count: that of `.comment-bubble`, 0 where there is none.
pub open spec fn comment_count(article: HtmlView) -> Result<u32, Seq<char>> {
    match first_within(article, HtmlSelector::Class("comment-bubble")) {
        Some(b) => match parse_unsigned(inner_text(b), 10, 0xffff_ffff) {
            Some(n) => Ok(n as u32),
            None => Err("Failed to parse number of comments"@),
        },
        None => Ok(0),
    }
}

/// What an article says of its story, after its links: comment count, topics and date.
pub open spec fn article_rest(
    article: HtmlView,
    id: Seq<char>,
    title: Seq<char>,
    url: StoryUrlView,
) -> Result<SlashdotStoryView, Seq<char>> {
    match comment_count(article) {
        Err(e) => Err(e),
        Ok(num_comments) => match first_within(article, HtmlSelector::Class("topic")) {
            None => Err("Mising topics"@),
            Some(topics) => match topic_tags(select_within(topics, HtmlSelector::Tag("img"))) {
                Err(e) => Err(e),
                Ok(tags) => match first_within(article, HtmlSelector::Tag("time")) {
                    None => Err("Could not locate time"@),
                    Some(time) => {
                        let text = cleaned_date(inner_text(time));
                        match first_reading(text, slashdot_formats()) {
                            None => Err("Failed to parse date: "@ + text),
                            Some(millis) => Ok(SlashdotStoryView { id, title, url, num_comments, millis, tags }),
                        }
                    },
                },
            },
        },
    }
}

/// The story of an `article` element, or the first error met reading it.
pub open spec fn slashdot_story(article: HtmlView) -> Result<SlashdotStoryView, Seq<char>> {
    match first_within(article, HtmlSelector::Class("story-title")) {
        None => Err("Missing .story-title"@),
        Some(title_node) => {
            let links = select_within(title_node, HtmlSelector::Tag("a"));
            if links.len() == 0 {
                Err("Missing story link"@)
            } else {
                let title = inner_text(links[0]);
                if utf8_len(title) < 5 {
                    Err("Title was too short: "@ + title)
                } else {
                    match attribute_of(links[0], "href"@) {
                        None => Err("Missing story href"@),
                        Some(link) => match story_id_of(link) {
                            None => Err("Invalid link format: "@ + link),
                            Some(id) => if links.len() < 2 {
                                Err("Missing external link"@)
                            } else {
                                match attribute_of(links[1], "href"@) {
                                    None => Err("Missing href"@),
                                    Some(href) => match story_url_of(href) {
                                        None => Err("Invalid href: "@ + href),
                                        Some(url) => article_rest(article, id, title, url),
                                    },
                                }
                            },
                        },
                    }
                }
            }
        },
    }
}

/// The stories of the page's articles, and the errors of those that could not be read, both in
/// page order.
pub open spec fn slashdot_articles(articles: Seq<HtmlView>) -> (Seq<SlashdotStoryView>, Seq<Seq<char>>)
    decreases articles.len(),
{
    if articles.len() == 0 {
        (Seq::empty(), Seq::empty())
    } else {
        let (stories, errors) = slashdot_articles(articles.drop_last());
        let a = articles.last();
        if a is Tag {
            match slashdot_story(a) {
                Ok(s) => (stories.push(s), errors),
                Err(e) => (stories, errors.push(e)),
            }
        } else {
            (stories, errors)
        }
    }
}

/// The stories and errors of a front page.
pub open spec fn slashdot_page(text: Seq<char>) -> (Seq<SlashdotStoryView>, Seq<Seq<char>>) {
    slashdot_articles(html_selected(text, "article.article"@))
}

fn owned(s: &str) -> (r: String)
    ensures
        r@ == s@,
{
    s.to_owned()
}

fn concat(a: &str, b: &str) -> (r: String)
    ensures
        r@ == a@ + b@,
{
    let mut m = a.to_owned();
    push_str(&mut m, b);
    m
}

proof fn lemma_slash_count_add(a: Seq<char>, b: Seq<char>)
    ensures
        slash_count(a + b) == slash_count(a) + slash_count(b),
    decreases b.len(),
{
    if b.len() == 0 {
        assert(a + b =~= a);
    } else {
        assert((a + b).drop_last() =~= a + b.drop_last());
        lemma_slash_count_add(a, b.drop_last());
    }
}

proof fn lemma_slash_count_front(s: Seq<char>)
    requires
        s.len() > 0,
    ensures
        slash_count(s) == (if s[0] == '/' { 1nat } else { 0nat }) + slash_count(s.skip(1)),
{
    lemma_slash_count_add(seq![s[0]], s.skip(1));
    assert(seq![s[0]] + s.skip(1) =~= s);
    assert(seq![s[0]].drop_last() =~= Seq::<char>::empty());
    assert(seq![s[0]].last() == s[0]);
    assert(slash_count(seq![s[0]]) == slash_count(Seq::<char>::empty()) + if s[0] == '/' { 1nat } else { 0nat });
}

/// Where the `/` of index `n` stands at `k`, the part before it is `s[..k]`.
proof fn lemma_before_slash_cut(s: Seq<char>, n: nat, k: int)
    requires
        0 <= k < s.len(),
        s[k] == '/',
        slash_count(s.take(k)) == n,
    ensures
        before_slash(s, n) == s.take(k),
        slash_count(s) > n,
    decreases s.len(),
{
    lemma_slash_count_add(s.take(k), s.skip(k));
    assert(s.take(k) + s.skip(k) =~= s);
    lemma_slash_count_front(s.skip(k));
    assert(s.skip(k)[0] == s[k]);
    if k == 0 {
        assert(s.take(0) =~= Seq::<char>::empty());
        if n > 0 {
            assert(slash_count(Seq::<char>::empty()) == 0);
        }
    } else {
        lemma_slash_count_front(s.take(k));
        assert(s.take(k).skip(1) =~= s.skip(1).take(k - 1));
        assert(s.take(k)[0] == s[0]);
        if s[0] == '/' {
            lemma_before_slash_cut(s.skip(1), (n - 1) as nat, k - 1);
            assert(seq!['/'] + s.skip(1).take(k - 1) =~= s.take(k));
        } else {
            lemma_before_slash_cut(s.skip(1), n, k - 1);
            assert(seq![s[0]] + s.skip(1).take(k - 1) =~= s.take(k));
        }
    }
}

/// Where `s` has no more than `n` slashes, nothing is cut.
proof fn lemma_before_slash_all(s: Seq<char>, n: nat)
    requires
        slash_count(s) <= n,
    ensures
        before_slash(s, n) == s,
    decreases s.len(),
{
    if s.len() > 0 {
        lemma_slash_count_front(s);
        if s[0] == '/' {
            lemma_before_slash_all(s.skip(1), (n - 1) as nat);
            assert(seq!['/'] + s.skip(1) =~= s);
        } else {
            lemma_before_slash_all(s.skip(1), n);
            assert(seq![s[0]] + s.skip(1) =~= s);
        }
    }
}

/// The id in a story link.
fn story_id_exec(link: &str) -> (r: Option<String>)
    ensures
        opt_string_is(r, story_id_of(link@)),
{
    let c = chars_of(link);
    let pat: Vec<char> = vec!['/', 's', 't', 'o', 'r', 'y', '/'];
    proof {
        reveal_strlit("/story/");
    }
    assert(pat@ =~= "/story/"@);
    match find(c.as_slice(), pat.as_slice()) {
        None => None,
        Some(i) => {
            assert(occurs_at(c@, pat@, i as int));
            assert(pat@.len() == 7);
            let n = c.len();
            assert(i + 7 <= n);
            let start = i + 7;
            let ghost rest = c@.skip(start as int);
            let mut count: usize = 0;
            let mut j: usize = start;
            let mut cut: Option<usize> = None;
            assert(rest.take(0) =~= Seq::<char>::empty());
            while j < c.len() && cut.is_none()
                invariant
                    start <= j <= c@.len(),
                    rest == c@.skip(start as int),
                    cut is None ==> count == slash_count(rest.take(j - start)) && count <= 3,
                    cut matches Some(e) ==> e == j && j < c@.len() && c@[j as int] == '/' && slash_count(
                        rest.take(j - start),
                    ) == 3,
                decreases c@.len() - j + (if cut is None { 1int } else { 0int }),
            {
                assert(rest.take(j + 1 - start).drop_last() =~= rest.take(j - start));
                assert(rest[j - start] == c@[j as int]);
                if c[j] == '/' && count == 3 {
                    cut = Some(j);
                } else {
                    if c[j] == '/' {
                        count = count + 1;
                    }
                    j = j + 1;
                }
            }
            match cut {
                Some(e) => {
                    proof {
                        assert(rest[e - start] == c@[e as int]);
                        lemma_before_slash_cut(rest, 3, e - start);
                    }
                    let r = string_of_range(c.as_slice(), start, e);
                    assert(r@ =~= rest.take(e - start));
                    Some(r)
                },
                None => {
                    assert(rest.take(j - start) =~= rest);
                    if count < 3 {
                        return None;
                    }
                    proof {
                        lemma_before_slash_all(rest, 3);
                    }
                    let r = string_of_range(c.as_slice(), start, c.len());
                    assert(r@ =~= rest);
                    Some(r)
                },
            }
        },
    }
}

pub open spec fn opt_string_is(r: Option<String>, s: Option<Seq<char>>) -> bool {
    match (r, s) {
        (Some(a), Some(b)) => a@ == b,
        (None, None) => true,
        _ => false,
    }
}

proof fn lemma_topic_tags_err(s: Seq<HtmlView>, k: int, e: Seq<char>)
    requires
        0 <= k <= s.len(),
        topic_tags(s.take(k)) == Err::<Seq<Seq<char>>, Seq<char>>(e),
    ensures
        topic_tags(s) == Err::<Seq<Seq<char>>, Seq<char>>(e),
    decreases s.len() - k,
{
    if k == s.len() {
        assert(s.take(k) =~= s);
    } else {
        assert(s.take(k + 1).drop_last() =~= s.take(k));
        lemma_topic_tags_err(s, k + 1, e);
    }
}

fn topic_tags_exec(images: &Vec<&HtmlNode>) -> (r: Result<Vec<String>, String>)
    ensures
        match (r, topic_tags(ref_views(images@))) {
            (Ok(a), Ok(b)) => strs_view(a@) == b,
            (Err(a), Err(b)) => a@ == b,
            _ => false,
        },
{
    let ghost rv = ref_views(images@);
    let mut tags: Vec<String> = Vec::new();
    let mut i: usize = 0;
    assert(rv.take(0) =~= Seq::<HtmlView>::empty());
    assert(strs_view(tags@) =~= Seq::<Seq<char>>::empty());
    while i < images.len()
        invariant
            i <= images@.len(),
            rv == ref_views(images@),
            rv.len() == images@.len(),
            topic_tags(rv.take(i as int)) == Ok::<Seq<Seq<char>>, Seq<char>>(strs_view(tags@)),
        decreases images@.len() - i,
    {
        assert(rv.take(i + 1).drop_last() =~= rv.take(i as int));
        assert(rv.take(i + 1).last() == html_view(*images@[i as int]));
        match get_attribute(images[i], "title") {
            None => {
                let e = owned("Missing title on topic");
                proof {
                    lemma_topic_tags_err(rv, i + 1, e@);
                }
                return Err(e);
            },
            Some(t) => {
                let lc = to_ascii_lowercase(chars_of(t.as_str()).as_slice());
                let l = string_of(lc.as_slice());
                let ghost before = strs_view(tags@);
                tags.push(l);
                assert(strs_view(tags@) =~= before.push(lower_seq(t@)));
            },
        }
        i = i + 1;
    }
    assert(rv.take(images@.len() as int) =~= rv);
    Ok(tags)
}

fn comment_count_exec(article: &HtmlNode) -> (r: Result<u32, String>)
    ensures
        match (r, comment_count(html_view(*article))) {
            (Ok(a), Ok(b)) => a == b,
            (Err(a), Err(b)) => a@ == b,
            _ => false,
        },
{
    match find_first(article, HtmlSelector::Class("comment-bubble")) {
        Some(b) => {
            let t = chars_of(inner_text_exec(b).as_str());
            assert(t@.subrange(0, t@.len() as int) =~= t@);
            match parse_uint(t.as_slice(), 0, t.len(), 10, 0xffff_ffff) {
                Some(n) => Ok(n as u32),
                None => Err(owned("Failed to parse number of comments")),
            }
        },
        None => Ok(0),
    }
}

spec fn story_result_is(r: Result<SlashdotStory, String>, s: Result<SlashdotStoryView, Seq<char>>) -> bool {
    match (r, s) {
        (Ok(a), Ok(b)) => a.view() == b,
        (Err(a), Err(b)) => a@ == b,
        _ => false,
    }
}

fn article_rest_exec(article: &HtmlNode, id: String, title: String, url: StoryUrl) -> (r: Result<SlashdotStory, String>)
    ensures
        story_result_is(r, article_rest(html_view(*article), id@, title@, url@)),
{
    let num_comments = match comment_count_exec(article) {
        Ok(n) => n,
        Err(e) => {
            return Err(e);
        },
    };
    let topics = match find_first(article, HtmlSelector::Class("topic")) {
        Some(t) => t,
        None => {
            return Err(owned("Mising topics"));
        },
    };
    let images = select_within_exec(topics, HtmlSelector::Tag("img"));
    let tags = match topic_tags_exec(&images) {
        Ok(t) => t,
        Err(e) => {
            return Err(e);
        },
    };
    let time = match find_first(article, HtmlSelector::Tag("time")) {
        Some(t) => t,
        None => {
            return Err(owned("Could not locate time"));
        },
    };
    match SlashdotScraper::parse_time(inner_text_exec(time).as_str()) {
        Ok(date) => Ok(SlashdotStory { id, title, url, num_comments, date, tags }),
        Err(e) => Err(e),
    }
}

fn slashdot_story_exec(article: &HtmlNode) -> (r: Result<SlashdotStory, String>)
    ensures
        story_result_is(r, slashdot_story(html_view(*article))),
{
    let title_node = match find_first(article, HtmlSelector::Class("story-title")) {
        Some(t) => t,
        None => {
            return Err(owned("Missing .story-title"));
        },
    };
    let links = select_within_exec(title_node, HtmlSelector::Tag("a"));
    let ghost lv = ref_views(links@);
    if links.len() == 0 {
        return Err(owned("Missing story link"));
    }
    assert(lv[0] == html_view(*links@[0]));
    let title = inner_text_exec(links[0]);
    let tc = chars_of(title.as_str());
    if byte_len_at_most(tc.as_slice(), 4) {
        return Err(concat("Title was too short: ", title.as_str()));
    }
    let link = match get_attribute(links[0], "href") {
        Some(l) => l,
        None => {
            return Err(owned("Missing story href"));
        },
    };
    let id = match story_id_exec(link.as_str()) {
        Some(i) => i,
        None => {
            return Err(concat("Invalid link format: ", link.as_str()));
        },
    };
    if links.len() < 2 {
        return Err(owned("Missing external link"));
    }
    assert(lv[1] == html_view(*links@[1]));
    let href = match get_attribute(links[1], "href") {
        Some(h) => h,
        None => {
            return Err(owned("Missing href"));
        },
    };
    let url = match StoryUrl::parse(href.as_str()) {
        Some(u) => u,
        None => {
            return Err(concat("Invalid href: ", href.as_str()));
        },
    };
    article_rest_exec(article, id, title, url)
}

impl SlashdotScraper {
    /// The stories of a page's `article` elements, and the errors of those that could not be
    /// read, both in page order.
    pub fn scrape_articles(&self, articles: &Vec<HtmlNode>) -> (r: (Vec<SlashdotStory>, Vec<String>))
        ensures
            (slashdot_views(r.0@), strs_view(r.1@)) == slashdot_articles(html_views(articles@)),
    {
        proof {
            lemma_html_views(articles@);
        }
        let ghost v = html_views(articles@);
        let mut stories: Vec<SlashdotStory> = Vec::new();
        let mut errors: Vec<String> = Vec::new();
        let mut i: usize = 0;
        assert(v.take(0) =~= Seq::<HtmlView>::empty());
        assert(slashdot_views(stories@) =~= Seq::<SlashdotStoryView>::empty());
        assert(strs_view(errors@) =~= Seq::<Seq<char>>::empty());
        while i < articles.len()
            invariant
                i <= articles@.len(),
                v == html_views(articles@),
                v.len() == articles@.len(),
                forall|k: int| 0 <= k < articles@.len() ==> #[trigger] v[k] == html_view(articles@[k]),
                (slashdot_views(stories@), strs_view(errors@)) == slashdot_articles(v.take(i as int)),
            decreases articles@.len() - i,
        {
            assert(v.take(i + 1).drop_last() =~= v.take(i as int));
            assert(v.take(i + 1).last() == html_view(articles@[i as int]));
            let a = &articles[i];
            match a {
                HtmlNode::Tag { .. } => {
                    match slashdot_story_exec(a) {
                        Ok(s) => {
                            let ghost before = slashdot_views(stories@);
                            let ghost sv = s.view();
                            stories.push(s);
                            assert(slashdot_views(stories@) =~= before.push(sv));
                        },
                        Err(e) => {
                            let ghost before = strs_view(errors@);
                            errors.push(e);
                            assert(strs_view(errors@) =~= before.push(e@));
                        },
                    }
                },
                _ => {},
            }
            i = i + 1;
        }
        assert(v.take(articles@.len() as int) =~= v);
        (stories, errors)
    }

    /// Scrapes a Slashdot front page: the stories of its `article.article` elements, and the
    /// errors of those that could not be read, both in page order. Fails only where the page
    /// cannot be parsed as HTML.
    pub fn scrape(&self, args: &SlashdotConfig, input: String) -> (r: Result<(Vec<SlashdotStory>, Vec<String>), ScrapeError>)
        ensures
            r is Err <==> !html_parses(input@),
            r matches Err(e) ==> e is Html,
            r matches Ok((stories, errors)) ==> slashdot_views(stories@) == slashdot_page(input@).0
                && strs_view(errors@) == slashdot_page(input@).1,
    {
        match select_in_html(input.as_str(), "article.article") {
            Ok(articles) => Ok(self.scrape_articles(&articles)),
            Err(e) => Err(ScrapeError::Html(e)),
        }
    }
}

} // verus!
