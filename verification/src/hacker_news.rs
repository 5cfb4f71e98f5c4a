//! Scraping the Hacker News front page. Each story is a pair of table rows: a title row (title,
//! link and rank) and an info row (points, comments and date), matched by the story's id.
use vstd::prelude::*;

use crate::date::{rfc3339_to_millis, StoryDate};
use crate::dom::{
    attribute_of, find_first, first_within, get_attribute, html_parses, html_selected, html_view,
    html_views, inner_text, inner_text_exec, lemma_html_views, ref_views, select_in_html,
    select_within, select_within_exec, HtmlNode, HtmlSelector, HtmlView,
};
use crate::html::{unescape_entities, unescaped};
use crate::scrapers::{ScrapeError, ScrapeStory};
use crate::source::ScrapeSource;
use crate::tagger::{assoc_get, assoc_insert, keys_of, string_key_index, string_keys, strs_view};
use crate::text::{
    chars_of, contains, contains_seq, has_prefix, is_ascii_digit, parse_uint, parse_unsigned,
    push_str, starts_with, strip_all_prefix, strip_all_prefix_exec,
};
use crate::url::{story_url_of, StoryUrl, StoryUrlView};

verus! {

#[derive(Debug, Default)]
pub struct HackerNewsArgs {}

#[derive(Default)]
pub struct HackerNewsScraper {}

/// A story from the Hacker News front page.
pub struct HackerNewsStory {
    pub title: String,
    pub url: StoryUrl,
    pub id: String,
    pub points: u32,
    pub comments: u32,
    pub position: u32,
    pub date: StoryDate,
}

/// A story's fields as plain values.
pub struct HackerNewsStoryView {
    pub title: Seq<char>,
    pub url: StoryUrlView,
    pub id: Seq<char>,
    pub points: u32,
    pub comments: u32,
    pub position: u32,
    pub millis: int,
}

impl HackerNewsStory {
    pub open spec fn view(&self) -> HackerNewsStoryView {
        HackerNewsStoryView {
            title: self.title@,
            url: self.url@,
            id: self.id@,
            points: self.points,
            comments: self.comments,
            position: self.position,
            millis: self.date.millis(),
        }
    }
}

impl ScrapeStory for HackerNewsStory {
    const TYPE: ScrapeSource = ScrapeSource::HackerNews;

    /// Takes the later scrape's title and link, the earlier date, and the larger points and
    /// comment counts.
    fn merge(&mut self, other: HackerNewsStory)
        ensures
            final(self).view() == (HackerNewsStoryView {
                title: other.title@,
                url: other.url@,
                points: if other.points > old(self).points { other.points } else { old(self).points },
                comments: if other.comments > old(self).comments { other.comments } else { old(self).comments },
                millis: if other.date.millis() < old(self).date.millis() { other.date.millis() } else { old(self).date.millis() },
                ..old(self).view()
            }),
    {
        self.title = other.title;
        self.url = other.url;
        self.date = self.date.earliest(other.date);
        if other.points > self.points {
            self.points = other.points;
        }
        if other.comments > self.comments {
            self.comments = other.comments;
        }
    }
}

pub open spec fn hn_views(v: Seq<HackerNewsStory>) -> Seq<HackerNewsStoryView> {
    v.map_values(|s: HackerNewsStory| s.view())
}

/// What a title row says: the story's id, rank, link and title.
pub struct StoryLineView {
    pub id: Seq<char>,
    pub position: u32,
    pub url: StoryUrlView,
    pub title: Seq<char>,
}

/// What an info row says: the story's id, comment count, points and date.
pub struct InfoLineView {
    pub id: Seq<char>,
    pub comments: u32,
    pub points: u32,
    pub millis: int,
}

pub enum RowView {
    Story(StoryLineView),
    Info(InfoLineView),
}

/// The decimal digits of `s`, in order.
pub open spec fn digits_of(s: Seq<char>) -> Seq<char>
    decreases s.len(),
{
    if s.len() == 0 {
        Seq::empty()
    } else if is_ascii_digit(s.last()) {
        digits_of(s.drop_last()).push(s.last())
    } else {
        digits_of(s.drop_last())
    }
}

pub open spec fn number_error(s: Seq<char>) -> Seq<char> {
    "Failed to parse number: '"@ + s + "'"@
}

/// The number that the digits of `s` spell, as a `u32`.
pub open spec fn number_in(s: Seq<char>) -> Result<u32, Seq<char>> {
    match parse_unsigned(digits_of(s), 10, 0xffff_ffff) {
        Some(n) => Ok(n as u32),
        None => Err(number_error(s)),
    }
}

/// `s` without its trailing dots.
pub open spec fn trim_end_dots(s: Seq<char>) -> Seq<char>
    decreases s.len(),
{
    if s.len() > 0 && s.last() == '.' {
        trim_end_dots(s.drop_last())
    } else {
        s
    }
}

/// A link relative to the site (`item?...`) made absolute.
pub open spec fn hn_link(href: Seq<char>) -> Seq<char> {
    if has_prefix(href, "item?"@) {
        "https://news.ycombinator.com/"@ + href
    } else {
        href
    }
}

/// The comment count that an info row's links give, starting from `count`: a link whose text
/// mentions `comment` gives the number in it, one that mentions `discuss` gives 0; the last such
/// link wins.
pub open spec fn comments_from(count: Option<u32>, links: Seq<HtmlView>) -> Result<Option<u32>, Seq<char>>
    decreases links.len(),
{
    if links.len() == 0 {
        Ok(count)
    } else {
        let t = inner_text(links[0]);
        if contains_seq(t, "comment"@) {
            match number_in(t) {
                Ok(n) => comments_from(Some(n), links.skip(1)),
                Err(e) => Err(e),
            }
        } else if contains_seq(t, "discuss"@) {
            comments_from(Some(0), links.skip(1))
        } else {
            comments_from(count, links.skip(1))
        }
    }
}

/// A title row: `.titleline` holds the link, `.rank` the position.
pub open spec fn story_row(row: HtmlView, titleline: HtmlView) -> Result<RowView, Seq<char>> {
    if first_within(row, HtmlSelector::Class("votelinks")) is None {
        Err("Missing votelinks"@)
    } else {
        match first_within(titleline, HtmlSelector::Tag("a")) {
            None => Err("Failed to query first link"@),
            Some(link) => match attribute_of(link, "href"@) {
                None => Err("Failed to get href"@),
                Some(href) => {
                    let url = hn_link(unescaped(href));
                    match story_url_of(url) {
                        None => Err("Failed to parse URL "@ + url),
                        Some(u) => match attribute_of(row, "id"@) {
                            None => Err("Failed to get id node"@),
                            Some(id) => match first_within(row, HtmlSelector::Class("rank")) {
                                None => Err("Failed to get rank"@),
                                Some(rank) => match parse_unsigned(trim_end_dots(inner_text(rank)), 10, 0xffff_ffff) {
                                    None => Err("Failed to parse rank"@),
                                    Some(p) => Ok(
                                        RowView::Story(
                                            StoryLineView {
                                                id,
                                                position: p as u32,
                                                url: u,
                                                title: unescaped(inner_text(link)),
                                            },
                                        ),
                                    ),
                                },
                            },
                        },
                    }
                },
            },
        }
    }
}

/// An info row: `.age` holds the date, `.score` the points and the story's id, and the links
/// the comment count.
pub open spec fn info_row(row: HtmlView) -> Result<RowView, Seq<char>> {
    match first_within(row, HtmlSelector::Class("age")) {
        None => Err("Failed to query .age"@),
        Some(age) => match attribute_of(age, "title"@) {
            None => Err("Failed to get age title"@),
            Some(t) => match rfc3339_to_millis(t + "Z"@) {
                None => Err("Failed to map date"@),
                Some(millis) => match comments_from(None, select_within(row, HtmlSelector::Tag("a"))) {
                    Err(e) => Err(e),
                    Ok(count) => match first_within(row, HtmlSelector::Class("score")) {
                        None => Err("Failed to query .score"@),
                        Some(score) => match attribute_of(score, "id"@) {
                            None => Err("Missing ID on score node"@),
                            Some(sid) => match number_in(inner_text(score)) {
                                Err(e) => Err(e),
                                Ok(points) => match count {
                                    None => Err("Missing comment count"@),
                                    Some(comments) => Ok(
                                        RowView::Info(
                                            InfoLineView {
                                                id: strip_all_prefix(sid, "score_"@),
                                                comments,
                                                points,
                                                millis,
                                            },
                                        ),
                                    ),
                                },
                            },
                        },
                    },
                },
            },
        },
    }
}

/// What a table row of the page is: a title row, an info row, or an error.
pub open spec fn hn_row(row: HtmlView) -> Result<RowView, Seq<char>> {
    if first_within(row, HtmlSelector::Tag("table")) is Some {
        Err("Story table cannot contain other tables"@)
    } else {
        match first_within(row, HtmlSelector::Class("titleline")) {
            Some(titleline) => story_row(row, titleline),
            None => if first_within(row, HtmlSelector::Class("subtext")) is Some {
                info_row(row)
            } else {
                Err("Unknown node type"@)
            },
        }
    }
}

/// The digits of a string, kept in order.
fn digits_exec(s: &Vec<char>) -> (r: Vec<char>)
    ensures
        r@ == digits_of(s@),
{
    let mut d: Vec<char> = Vec::new();
    let mut i: usize = 0;
    while i < s.len()
        invariant
            i <= s@.len(),
            d@ == digits_of(s@.take(i as int)),
        decreases s@.len() - i,
    {
        assert(s@.take(i + 1).drop_last() =~= s@.take(i as int));
        let c = s[i];
        if '0' <= c && c <= '9' {
            d.push(c);
        }
        i = i + 1;
    }
    assert(s@.take(s@.len() as int) =~= s@);
    d
}

/// The number that the digits of `s` spell.
fn extract_number(s: &str) -> (r: Result<u32, String>)
    ensures
        match (r, number_in(s@)) {
            (Ok(a), Ok(b)) => a == b,
            (Err(a), Err(b)) => a@ == b,
            _ => false,
        },
{
    let v = chars_of(s);
    let d = digits_exec(&v);
    assert(d@.subrange(0, d@.len() as int) =~= d@);
    match parse_uint(d.as_slice(), 0, d.len(), 10, 0xffff_ffff) {
        Some(n) => Ok(n as u32),
        None => {
            let mut m = "Failed to parse number: '".to_owned();
            push_str(&mut m, s);
            push_str(&mut m, "'");
            Err(m)
        },
    }
}

/// The length of `s` without its trailing dots.
fn trim_end_dots_len(s: &Vec<char>) -> (r: usize)
    ensures
        r <= s@.len(),
        s@.take(r as int) == trim_end_dots(s@),
{
    let mut n = s.len();
    assert(s@.take(n as int) =~= s@);
    while n > 0 && s[n - 1] == '.'
        invariant
            n <= s@.len(),
            trim_end_dots(s@.take(n as int)) == trim_end_dots(s@),
        decreases n,
    {
        assert(s@.take(n as int).drop_last() =~= s@.take(n - 1));
        n = n - 1;
    }
    n
}

/// The comment count that the links give.
fn comments_exec(links: &Vec<&HtmlNode>) -> (r: Result<Option<u32>, String>)
    ensures
        match (r, comments_from(None, ref_views(links@))) {
            (Ok(a), Ok(b)) => a == b,
            (Err(a), Err(b)) => a@ == b,
            _ => false,
        },
{
    let ghost all = ref_views(links@);
    let mut count: Option<u32> = None;
    let mut i: usize = 0;
    assert(all.skip(0) =~= all);
    while i < links.len()
        invariant
            i <= links@.len(),
            all == ref_views(links@),
            all.len() == links@.len(),
            comments_from(None, all) == comments_from(count, all.skip(i as int)),
        decreases links@.len() - i,
    {
        let ghost rest = all.skip(i as int);
        assert(rest[0] == html_view(*links@[i as int]));
        assert(rest.skip(1) =~= all.skip(i + 1));
        let t = inner_text_exec(links[i]);
        let tc = chars_of(t.as_str());
        let comment: Vec<char> = vec!['c', 'o', 'm', 'm', 'e', 'n', 't'];
        let discuss: Vec<char> = vec!['d', 'i', 's', 'c', 'u', 's', 's'];
        proof {
            reveal_strlit("comment");
            reveal_strlit("discuss");
        }
        assert(comment@ =~= "comment"@);
        assert(discuss@ =~= "discuss"@);
        if contains(tc.as_slice(), comment.as_slice()) {
            match extract_number(t.as_str()) {
                Ok(n) => {
                    count = Some(n);
                },
                Err(e) => {
                    return Err(e);
                },
            }
        } else if contains(tc.as_slice(), discuss.as_slice()) {
            count = Some(0);
        }
        i = i + 1;
    }
    Ok(count)
}

struct StoryLine {
    id: String,
    position: u32,
    url: StoryUrl,
    title: String,
}

impl StoryLine {
    spec fn view(&self) -> StoryLineView {
        StoryLineView { id: self.id@, position: self.position, url: self.url@, title: self.title@ }
    }
}

struct InfoLine {
    id: String,
    comments: u32,
    points: u32,
    date: StoryDate,
}

impl InfoLine {
    spec fn view(&self) -> InfoLineView {
        InfoLineView { id: self.id@, comments: self.comments, points: self.points, millis: self.date.millis() }
    }
}

enum Row {
    Story(StoryLine),
    Info(InfoLine),
}

spec fn row_result_is(r: Result<Row, String>, s: Result<RowView, Seq<char>>) -> bool {
    match (r, s) {
        (Ok(Row::Story(a)), Ok(RowView::Story(b))) => a.view() == b,
        (Ok(Row::Info(a)), Ok(RowView::Info(b))) => a.view() == b,
        (Err(a), Err(b)) => a@ == b,
        _ => false,
    }
}

fn owned(s: &str) -> (r: String)
    ensures
        r@ == s@,
{
    s.to_owned()
}

fn story_row_exec(row: &HtmlNode, titleline: &HtmlNode) -> (r: Result<Row, String>)
    ensures
        row_result_is(r, story_row(html_view(*row), html_view(*titleline))),
{
    if find_first(row, HtmlSelector::Class("votelinks")).is_none() {
        return Err(owned("Missing votelinks"));
    }
    let link = match find_first(titleline, HtmlSelector::Tag("a")) {
        Some(l) => l,
        None => {
            return Err(owned("Failed to query first link"));
        },
    };
    let title = unescape_entities(inner_text_exec(link).as_str());
    let href = match get_attribute(link, "href") {
        Some(h) => h,
        None => {
            return Err(owned("Failed to get href"));
        },
    };
    let u0 = unescape_entities(href.as_str());
    let uc = chars_of(u0.as_str());
    let item: Vec<char> = vec!['i', 't', 'e', 'm', '?'];
    proof {
        reveal_strlit("item?");
    }
    assert(item@ =~= "item?"@);
    let url = if starts_with(uc.as_slice(), item.as_slice()) {
        let mut s = owned("https://news.ycombinator.com/");
        push_str(&mut s, u0.as_str());
        s
    } else {
        u0
    };
    assert(url@ == hn_link(unescaped(href@)));
    let u = match StoryUrl::parse(url.as_str()) {
        Some(u) => u,
        None => {
            let mut m = owned("Failed to parse URL ");
            push_str(&mut m, url.as_str());
            return Err(m);
        },
    };
    let id = match get_attribute(row, "id") {
        Some(i) => i,
        None => {
            return Err(owned("Failed to get id node"));
        },
    };
    let rank = match find_first(row, HtmlSelector::Class("rank")) {
        Some(r) => r,
        None => {
            return Err(owned("Failed to get rank"));
        },
    };
    let rt = chars_of(inner_text_exec(rank).as_str());
    let n = trim_end_dots_len(&rt);
    assert(rt@.subrange(0, n as int) =~= rt@.take(n as int));
    match parse_uint(rt.as_slice(), 0, n, 10, 0xffff_ffff) {
        None => Err(owned("Failed to parse rank")),
        Some(p) => Ok(Row::Story(StoryLine { id, position: p as u32, url: u, title })),
    }
}

fn info_row_exec(row: &HtmlNode) -> (r: Result<Row, String>)
    ensures
        row_result_is(r, info_row(html_view(*row))),
{
    let age = match find_first(row, HtmlSelector::Class("age")) {
        Some(a) => a,
        None => {
            return Err(owned("Failed to query .age"));
        },
    };
    let mut t = match get_attribute(age, "title") {
        Some(t) => t,
        None => {
            return Err(owned("Failed to get age title"));
        },
    };
    push_str(&mut t, "Z");
    let date = match StoryDate::parse_from_rfc3339(t.as_str()) {
        Some(d) => d,
        None => {
            return Err(owned("Failed to map date"));
        },
    };
    let links = select_within_exec(row, HtmlSelector::Tag("a"));
    let count = match comments_exec(&links) {
        Ok(c) => c,
        Err(e) => {
            return Err(e);
        },
    };
    let score = match find_first(row, HtmlSelector::Class("score")) {
        Some(s) => s,
        None => {
            return Err(owned("Failed to query .score"));
        },
    };
    let sid = match get_attribute(score, "id") {
        Some(i) => i,
        None => {
            return Err(owned("Missing ID on score node"));
        },
    };
    proof {
        reveal_strlit("score_");
    }
    let id = strip_all_prefix_exec(sid.as_str(), "score_");
    let points = match extract_number(inner_text_exec(score).as_str()) {
        Ok(p) => p,
        Err(e) => {
            return Err(e);
        },
    };
    match count {
        None => Err(owned("Missing comment count")),
        Some(comments) => Ok(Row::Info(InfoLine { id, comments, points, date })),
    }
}

/// Reads a row of the story table: a title row, an info row, or an error.
fn map_node_to_story(row: &HtmlNode) -> (r: Result<Row, String>)
    ensures
        row_result_is(r, hn_row(html_view(*row))),
{
    if find_first(row, HtmlSelector::Tag("table")).is_some() {
        return Err(owned("Story table cannot contain other tables"));
    }
    match find_first(row, HtmlSelector::Class("titleline")) {
        Some(t) => story_row_exec(row, t),
        None => if find_first(row, HtmlSelector::Class("subtext")).is_some() {
            info_row_exec(row)
        } else {
            Err(owned("Unknown node type"))
        },
    }
}

/// The title rows and info rows of the page, each kept by story id (a later row of the same id
/// replaces an earlier one, keeping the first one's place), and the errors of rows that are
/// neither, in page order.
pub open spec fn collect_rows(rows: Seq<HtmlView>) -> (
    Seq<(Seq<char>, StoryLineView)>,
    Seq<(Seq<char>, InfoLineView)>,
    Seq<Seq<char>>,
)
    decreases rows.len(),
{
    if rows.len() == 0 {
        (Seq::empty(), Seq::empty(), Seq::empty())
    } else {
        let (lines, infos, errors) = collect_rows(rows.drop_last());
        let row = rows.last();
        if row is Tag {
            match hn_row(row) {
                Ok(RowView::Info(x)) => (lines, assoc_insert(infos, x.id, x), errors),
                Ok(RowView::Story(x)) => (assoc_insert(lines, x.id, x), infos, errors),
                Err(e) => (lines, infos, errors.push(e)),
            }
        } else {
            (lines, infos, errors)
        }
    }
}

pub open spec fn unmatched_message(id: Seq<char>) -> Seq<char> {
    "Unmatched story/info for id "@ + id
}

/// Each title row with the info row of its id, as a story; an error for each title row without one.
pub open spec fn join_lines(lines: Seq<(Seq<char>, StoryLineView)>, infos: Seq<(Seq<char>, InfoLineView)>) -> (
    Seq<HackerNewsStoryView>,
    Seq<Seq<char>>,
)
    decreases lines.len(),
{
    if lines.len() == 0 {
        (Seq::empty(), Seq::empty())
    } else {
        let (stories, errors) = join_lines(lines.drop_last(), infos);
        let (k, v) = lines.last();
        match assoc_get(infos, k) {
            Some(info) => (
                stories.push(
                    HackerNewsStoryView {
                        title: v.title,
                        url: v.url,
                        id: k,
                        points: info.points,
                        comments: info.comments,
                        position: v.position,
                        millis: info.millis,
                    },
                ),
                errors,
            ),
            None => (stories, errors.push(unmatched_message(k))),
        }
    }
}

/// `x` placed into `sorted` after every story of a position no larger than its own.
pub open spec fn insert_by_position(sorted: Seq<HackerNewsStoryView>, x: HackerNewsStoryView) -> Seq<HackerNewsStoryView>
    decreases sorted.len(),
{
    if sorted.len() == 0 {
        seq![x]
    } else if sorted.last().position <= x.position {
        sorted.push(x)
    } else {
        insert_by_position(sorted.drop_last(), x).push(sorted.last())
    }
}

/// The stories ordered by position, stories of equal position keeping their order.
pub open spec fn by_position(s: Seq<HackerNewsStoryView>) -> Seq<HackerNewsStoryView>
    decreases s.len(),
{
    if s.len() == 0 {
        Seq::empty()
    } else {
        insert_by_position(by_position(s.drop_last()), s.last())
    }
}

/// The stories of a front page's table rows, ordered by position, and the errors met on the way:
/// those of the rows, then those of title rows without an info row.
pub open spec fn hn_rows(rows: Seq<HtmlView>) -> (Seq<HackerNewsStoryView>, Seq<Seq<char>>) {
    let (lines, infos, errors) = collect_rows(rows);
    let (stories, unmatched) = join_lines(lines, infos);
    (by_position(stories), errors + unmatched)
}

/// The stories and errors of a front page: those of its `tr` elements.
pub open spec fn hn_page(text: Seq<char>) -> (Seq<HackerNewsStoryView>, Seq<Seq<char>>) {
    hn_rows(html_selected(text, "tr"@))
}

spec fn lines_view(v: Seq<(String, StoryLine)>) -> Seq<(Seq<char>, StoryLineView)> {
    v.map_values(|e: (String, StoryLine)| (e.0@, e.1.view()))
}

spec fn infos_view(v: Seq<(String, InfoLine)>) -> Seq<(Seq<char>, InfoLineView)> {
    v.map_values(|e: (String, InfoLine)| (e.0@, e.1.view()))
}

fn insert_line(m: &mut Vec<(String, StoryLine)>, x: StoryLine)
    ensures
        lines_view(final(m)@) == assoc_insert(lines_view(old(m)@), x.view().id, x.view()),
{
    let ghost xv = x.view();
    let k = x.id.clone();
    assert(keys_of(lines_view(m@)) =~= string_keys(m@));
    match string_key_index(m, &k) {
        Some(i) => {
            m.set(i, (k, x));
            assert(lines_view(m@) =~= lines_view(old(m)@).update(i as int, (xv.id, xv)));
        },
        None => {
            m.push((k, x));
            assert(lines_view(m@) =~= lines_view(old(m)@).push((xv.id, xv)));
        },
    }
}

fn insert_info(m: &mut Vec<(String, InfoLine)>, x: InfoLine)
    ensures
        infos_view(final(m)@) == assoc_insert(infos_view(old(m)@), x.view().id, x.view()),
{
    let ghost xv = x.view();
    let k = x.id.clone();
    assert(keys_of(infos_view(m@)) =~= string_keys(m@));
    match string_key_index(m, &k) {
        Some(i) => {
            m.set(i, (k, x));
            assert(infos_view(m@) =~= infos_view(old(m)@).update(i as int, (xv.id, xv)));
        },
        None => {
            m.push((k, x));
            assert(infos_view(m@) =~= infos_view(old(m)@).push((xv.id, xv)));
        },
    }
}

fn collect_rows_exec(rows: &Vec<HtmlNode>) -> (r: (Vec<(String, StoryLine)>, Vec<(String, InfoLine)>, Vec<String>))
    ensures
        (lines_view(r.0@), infos_view(r.1@), strs_view(r.2@)) == collect_rows(html_views(rows@)),
{
    proof {
        lemma_html_views(rows@);
    }
    let ghost v = html_views(rows@);
    let mut lines: Vec<(String, StoryLine)> = Vec::new();
    let mut infos: Vec<(String, InfoLine)> = Vec::new();
    let mut errors: Vec<String> = Vec::new();
    let mut i: usize = 0;
    assert(v.take(0) =~= Seq::<HtmlView>::empty());
    assert(lines_view(lines@) =~= Seq::<(Seq<char>, StoryLineView)>::empty());
    assert(infos_view(infos@) =~= Seq::<(Seq<char>, InfoLineView)>::empty());
    assert(strs_view(errors@) =~= Seq::<Seq<char>>::empty());
    while i < rows.len()
        invariant
            i <= rows@.len(),
            v == html_views(rows@),
            v.len() == rows@.len(),
            forall|k: int| 0 <= k < rows@.len() ==> #[trigger] v[k] == html_view(rows@[k]),
            (lines_view(lines@), infos_view(infos@), strs_view(errors@)) == collect_rows(v.take(i as int)),
        decreases rows@.len() - i,
    {
        assert(v.take(i + 1).drop_last() =~= v.take(i as int));
        assert(v.take(i + 1).last() == html_view(rows@[i as int]));
        let row = &rows[i];
        match row {
            HtmlNode::Tag { .. } => {
                match map_node_to_story(row) {
                    Ok(Row::Info(x)) => {
                        insert_info(&mut infos, x);
                    },
                    Ok(Row::Story(x)) => {
                        insert_line(&mut lines, x);
                    },
                    Err(e) => {
                        let ghost before = strs_view(errors@);
                        errors.push(e);
                        assert(strs_view(errors@) =~= before.push(e@));
                    },
                }
            },
            _ => {},
        }
        i = i + 1;
    }
    assert(v.take(rows@.len() as int) =~= v);
    (lines, infos, errors)
}

fn unmatched_exec(k: &str) -> (r: String)
    ensures
        r@ == unmatched_message(k@),
{
    let mut m = owned("Unmatched story/info for id ");
    push_str(&mut m, k);
    m
}

fn join_exec(lines: Vec<(String, StoryLine)>, infos: &Vec<(String, InfoLine)>) -> (r: (Vec<HackerNewsStory>, Vec<String>))
    ensures
        (hn_views(r.0@), strs_view(r.1@)) == join_lines(lines_view(lines@), infos_view(infos@)),
{
    let ghost all = lines_view(lines@);
    let ghost iv = infos_view(infos@);
    let mut rest = lines;
    let mut stories: Vec<HackerNewsStory> = Vec::new();
    let mut errors: Vec<String> = Vec::new();
    let ghost mut k: int = 0;
    assert(all.skip(0) =~= all);
    assert(all.take(0) =~= Seq::<(Seq<char>, StoryLineView)>::empty());
    assert(hn_views(stories@) =~= Seq::<HackerNewsStoryView>::empty());
    assert(strs_view(errors@) =~= Seq::<Seq<char>>::empty());
    assert(keys_of(iv) =~= string_keys(infos@));
    while rest.len() > 0
        invariant
            0 <= k <= all.len(),
            iv == infos_view(infos@),
            keys_of(iv) == string_keys(infos@),
            lines_view(rest@) == all.skip(k),
            (hn_views(stories@), strs_view(errors@)) == join_lines(all.take(k), iv),
        decreases rest@.len(),
    {
        let ghost old_rest = rest@;
        assert(lines_view(old_rest).len() == old_rest.len());
        assert(all.skip(k).len() == all.len() - k);
        assert(all.skip(k)[0] == all[k]);
        let (key, line) = rest.remove(0);
        assert(rest@ =~= old_rest.skip(1));
        assert(lines_view(rest@) =~= lines_view(old_rest).skip(1));
        assert(lines_view(rest@) =~= all.skip(k + 1));
        assert(all[k] == (key@, line.view()));
        assert(all.take(k + 1).drop_last() =~= all.take(k));
        assert(all.take(k + 1).last() == all[k]);
        match string_key_index(infos, &key) {
            Some(j) => {
                let info = &infos[j].1;
                assert(assoc_get(iv, key@) == Some(info.view()));
                let ghost before = hn_views(stories@);
                let story = HackerNewsStory {
                    title: line.title,
                    url: line.url,
                    id: key,
                    points: info.points,
                    comments: info.comments,
                    position: line.position,
                    date: info.date,
                };
                let ghost sv = story.view();
                stories.push(story);
                assert(hn_views(stories@) =~= before.push(sv));
            },
            None => {
                assert(assoc_get(iv, key@) is None);
                let ghost before = strs_view(errors@);
                let m = unmatched_exec(key.as_str());
                errors.push(m);
                assert(strs_view(errors@) =~= before.push(m@));
            },
        }
        proof {
            k = k + 1;
        }
    }
    assert(all.skip(k).len() == 0);
    assert(all.take(k) =~= all);
    (stories, errors)
}

proof fn lemma_insert_at(s: Seq<HackerNewsStoryView>, x: HackerNewsStoryView, j: int)
    requires
        0 <= j <= s.len(),
        forall|k: int| j <= k < s.len() ==> #[trigger] s[k].position > x.position,
        j == 0 || s[j - 1].position <= x.position,
    ensures
        insert_by_position(s, x) == s.insert(j, x),
    decreases s.len(),
{
    if s.len() == 0 {
        assert(s.insert(j, x) =~= seq![x]);
    } else if s.last().position <= x.position {
        assert(j == s.len());
        assert(s.insert(j, x) =~= s.push(x));
    } else {
        assert(j < s.len());
        lemma_insert_at(s.drop_last(), x, j);
        assert(s.drop_last().insert(j, x).push(s.last()) =~= s.insert(j, x));
    }
}

fn sort_exec(v: Vec<HackerNewsStory>) -> (r: Vec<HackerNewsStory>)
    ensures
        hn_views(r@) == by_position(hn_views(v@)),
{
    let ghost all = hn_views(v@);
    let mut rest = v;
    let mut out: Vec<HackerNewsStory> = Vec::new();
    let ghost mut k: int = 0;
    assert(all.skip(0) =~= all);
    assert(all.take(0) =~= Seq::<HackerNewsStoryView>::empty());
    assert(hn_views(out@) =~= Seq::<HackerNewsStoryView>::empty());
    while rest.len() > 0
        invariant
            0 <= k <= all.len(),
            hn_views(rest@) == all.skip(k),
            hn_views(out@) == by_position(all.take(k)),
        decreases rest@.len(),
    {
        let ghost old_rest = rest@;
        assert(hn_views(old_rest).len() == old_rest.len());
        assert(all.skip(k).len() == all.len() - k);
        assert(all.skip(k)[0] == all[k]);
        let x = rest.remove(0);
        assert(rest@ =~= old_rest.skip(1));
        assert(hn_views(rest@) =~= hn_views(old_rest).skip(1));
        assert(hn_views(rest@) =~= all.skip(k + 1));
        assert(all[k] == x.view());
        assert(all.take(k + 1).drop_last() =~= all.take(k));
        assert(all.take(k + 1).last() == all[k]);
        let ghost ov = hn_views(out@);
        let mut j = out.len();
        while j > 0 && out[j - 1].position > x.position
            invariant
                j <= out@.len(),
                ov == hn_views(out@),
                forall|m: int| j <= m < out@.len() ==> #[trigger] ov[m].position > x.position,
            decreases j,
        {
            assert(ov[j - 1] == out@[j - 1].view());
            j = j - 1;
        }
        proof {
            if j > 0 {
                assert(ov[j - 1] == out@[j - 1].view());
            }
            lemma_insert_at(ov, x.view(), j as int);
        }
        let ghost xv = x.view();
        out.insert(j, x);
        assert(hn_views(out@) =~= ov.insert(j as int, xv));
        proof {
            k = k + 1;
        }
    }
    assert(all.skip(k).len() == 0);
    assert(all.take(k) =~= all);
    out
}

fn append_all(v: &mut Vec<String>, w: Vec<String>)
    ensures
        strs_view(final(v)@) == strs_view(old(v)@) + strs_view(w@),
{
    let mut w = w;
    let ghost wv = w@;
    v.append(&mut w);
    assert(strs_view(v@) =~= strs_view(old(v)@) + strs_view(wv));
}

impl HackerNewsScraper {
    /// The stories of a front page's table rows, ordered by position, and the errors of rows that
    /// could not be read and of title rows without an info row.
    pub fn scrape_rows(&self, rows: &Vec<HtmlNode>) -> (r: (Vec<HackerNewsStory>, Vec<String>))
        ensures
            (hn_views(r.0@), strs_view(r.1@)) == hn_rows(html_views(rows@)),
    {
        let (lines, infos, mut errors) = collect_rows_exec(rows);
        let (stories, unmatched) = join_exec(lines, &infos);
        let stories = sort_exec(stories);
        append_all(&mut errors, unmatched);
        (stories, errors)
    }

    /// Scrapes a Hacker News front page: its stories ordered by position, and the errors of rows
    /// that could not be read and of title rows without an info row. Fails only where the page
    /// cannot be parsed as HTML.
    pub fn scrape(&self, args: HackerNewsArgs, input: String) -> (r: Result<(Vec<HackerNewsStory>, Vec<String>), ScrapeError>)
        ensures
            r is Err <==> !html_parses(input@),
            r matches Err(e) ==> e is Html,
            r matches Ok((stories, errors)) ==> hn_views(stories@) == hn_page(input@).0
                && strs_view(errors@) == hn_page(input@).1,
    {
        match select_in_html(input.as_str(), "tr") {
            Ok(rows) => Ok(self.scrape_rows(&rows)),
            Err(e) => Err(ScrapeError::Html(e)),
        }
    }
}

/// Whether the stories are in order of position.
pub open spec fn position_sorted(s: Seq<HackerNewsStoryView>) -> bool {
    forall|i: int, j: int| 0 <= i < j < s.len() ==> s[i].position <= s[j].position
}

proof fn lemma_insert_by_position(s: Seq<HackerNewsStoryView>, x: HackerNewsStoryView)
    ensures
        insert_by_position(s, x).to_multiset() == s.to_multiset().insert(x),
        position_sorted(s) ==> position_sorted(insert_by_position(s, x)),
    decreases s.len(),
{
    broadcast use vstd::seq_lib::group_to_multiset_ensures;

    if s.len() == 0 {
        assert(seq![x] =~= Seq::<HackerNewsStoryView>::empty().push(x));
    } else if s.last().position <= x.position {
    } else {
        let dl = s.drop_last();
        let last = s.last();
        lemma_insert_by_position(dl, x);
        let r = insert_by_position(dl, x);
        assert(dl.push(last) =~= s);
        if position_sorted(s) {
            assert forall|k: int| 0 <= k < r.len() implies r[k].position <= last.position by {
                assert(r.contains(r[k]));
                assert(r.to_multiset().count(r[k]) > 0);
                if r[k] != x {
                    assert(dl.to_multiset().count(r[k]) > 0);
                    assert(dl.contains(r[k]));
                    let w = choose|w: int| 0 <= w < dl.len() && dl[w] == r[k];
                    assert(s[w] == dl[w]);
                }
            }
            assert(position_sorted(dl));
            let rr = r.push(last);
            assert forall|i: int, j: int| 0 <= i < j < rr.len() implies rr[i].position <= rr[j].position by {
                if j == rr.len() - 1 {
                    assert(rr[i] == r[i]);
                } else {
                    assert(rr[i] == r[i] && rr[j] == r[j]);
                }
            }
        }
    }
}

/// Ordering by position gives the stories in order of position, and exactly the stories it was
/// given.
pub proof fn lemma_by_position(s: Seq<HackerNewsStoryView>)
    ensures
        position_sorted(by_position(s)),
        by_position(s).to_multiset() == s.to_multiset(),
    decreases s.len(),
{
    broadcast use vstd::seq_lib::group_to_multiset_ensures;

    if s.len() > 0 {
        lemma_by_position(s.drop_last());
        lemma_insert_by_position(by_position(s.drop_last()), s.last());
        assert(s.drop_last().push(s.last()) =~= s);
    } else {
        assert(s.to_multiset() =~= vstd::multiset::Multiset::empty());
    }
}

/// The stories of a front page come out in order of position, and they are exactly the stories
/// that pair a title row with an info row.
pub proof fn lemma_page_in_position_order(text: Seq<char>)
    ensures
        position_sorted(hn_page(text).0),
        hn_page(text).0.to_multiset() == ({
            let (lines, infos, errors) = collect_rows(html_selected(text, "tr"@));
            join_lines(lines, infos).0
        }).to_multiset(),
{
    let (lines, infos, errors) = collect_rows(html_selected(text, "tr"@));
    lemma_by_position(join_lines(lines, infos).0);
}

/// A title row's story links to the first link of its `.titleline`: the URL is that link's `href`
/// with its HTML entities decoded, put behind `https://news.ycombinator.com/` when it is a
/// relative `item?` link; the title is the link's text, decoded likewise; the id is the row's
/// `id`, and the position the number `.rank` spells without its trailing dots.
pub proof fn lemma_story_link_decoded(row: HtmlView)
    ensures
        hn_row(row) matches Ok(RowView::Story(s)) ==> ({
            &&& first_within(row, HtmlSelector::Class("titleline")) matches Some(tl)
            &&& first_within(tl, HtmlSelector::Tag("a")) matches Some(link)
            &&& attribute_of(link, "href"@) matches Some(href)
            &&& story_url_of(
                if has_prefix(unescaped(href), "item?"@) {
                    "https://news.ycombinator.com/"@ + unescaped(href)
                } else {
                    unescaped(href)
                },
            ) == Some(s.url)
            &&& s.title == unescaped(inner_text(link))
            &&& attribute_of(row, "id"@) == Some(s.id)
            &&& first_within(row, HtmlSelector::Class("rank")) matches Some(rank)
            &&& parse_unsigned(trim_end_dots(inner_text(rank)), 10, 0xffff_ffff) matches Some(p) && s.position
                == p as u32
        }),
{
}

} // verus!
