//! The archives of the earlier site and the backup file: how their bytes divide into records, and
//! how an archive record becomes scrapes.
use vstd::prelude::*;

use crate::date::{accepted, chrono_accepts_millis, naive_datetime_to_millis, StoryDate};
use crate::filters::json_as_i64;
use crate::hacker_news::{HackerNewsStory, HackerNewsStoryView};
use crate::html::{unescape_entities, unescaped};
use crate::json::{
    as_str, get_member, get_str, json_number_from_u64, json_parses, json_value_of, json_view, json_views, member, parse_json,
    Json, JsonView,
};
use crate::lobsters::{LobstersStory, LobstersStoryView};
use crate::reddit::{RedditStory, RedditStoryView};
use crate::scrapers::{scrape_views, TypedScrape, TypedScrapeView};
use crate::tagger::{opt_view, strs_view};
use crate::text::{
    chars_of, contains, contains_seq, dec_digits, ends_with, find, first_occurrence, has_suffix, replace,
    replace_all, str_eq, string_from_utf8, string_of, string_of_range,
};
use crate::url::{story_url_of, StoryUrl, StoryUrlView};

verus! {

/// The byte sequences of a list of byte vectors.
pub open spec fn byte_views(v: Seq<Vec<u8>>) -> Seq<Seq<u8>> {
    v.map_values(|x: Vec<u8>| x@)
}

/// The lines of `b` as `read_until(b'\n')` hands them out, where `cur` is the part of a line
/// already read: each line with its newline, and the rest after the last newline, if any, as a
/// last line of its own.
pub open spec fn split_lines(b: Seq<u8>, cur: Seq<u8>) -> Seq<Seq<u8>>
    decreases b.len(),
{
    if b.len() == 0 {
        if cur.len() == 0 {
            Seq::empty()
        } else {
            seq![cur]
        }
    } else if b[0] == 10u8 {
        seq![cur.push(b[0])] + split_lines(b.skip(1), Seq::empty())
    } else {
        split_lines(b.skip(1), cur.push(b[0]))
    }
}

/// The lines of `b`.
pub open spec fn byte_lines(b: Seq<u8>) -> Seq<Seq<u8>> {
    split_lines(b, Seq::empty())
}

/// The records of `b`, where `cur` is the part of a record already read: lines are gathered until
/// what has been gathered ends with `}` and a newline. What follows the last such record is no
/// record.
pub open spec fn split_records(b: Seq<u8>, cur: Seq<u8>) -> Seq<Seq<u8>>
    decreases b.len(),
{
    if b.len() == 0 {
        Seq::empty()
    } else if b[0] == 10u8 && cur.len() > 0 && cur.last() == 125u8 {
        seq![cur.push(b[0])] + split_records(b.skip(1), Seq::empty())
    } else {
        split_records(b.skip(1), cur.push(b[0]))
    }
}

/// The records of `b`.
pub open spec fn brace_records(b: Seq<u8>) -> Seq<Seq<u8>> {
    split_records(b, Seq::empty())
}

proof fn lemma_flatten_cons(x: Seq<u8>, rest: Seq<Seq<u8>>)
    ensures
        (seq![x] + rest).flatten() == x + rest.flatten(),
{
    assert((seq![x] + rest).first() == x);
    assert((seq![x] + rest).drop_first() =~= rest);
}

proof fn lemma_split_lines_cover(b: Seq<u8>, cur: Seq<u8>)
    ensures
        split_lines(b, cur).flatten() == cur + b,
        forall|i: int|
            0 <= i < split_lines(b, cur).len() ==> #[trigger] split_lines(b, cur)[i].len() > 0,
    decreases b.len(),
{
    if b.len() == 0 {
        if cur.len() > 0 {
            seq![cur].lemma_flatten_one_element();
        }
        assert(cur + b =~= cur);
    } else if b[0] == 10u8 {
        lemma_split_lines_cover(b.skip(1), Seq::empty());
        lemma_flatten_cons(cur.push(b[0]), split_lines(b.skip(1), Seq::empty()));
        assert(cur.push(b[0]) + (Seq::<u8>::empty() + b.skip(1)) =~= cur + b);
        let rest = split_lines(b.skip(1), Seq::empty());
        assert forall|i: int| 0 <= i < split_lines(b, cur).len() implies #[trigger] split_lines(
            b,
            cur,
        )[i].len() > 0 by {
            if i > 0 {
                assert(split_lines(b, cur)[i] == rest[i - 1]);
            }
        }
    } else {
        lemma_split_lines_cover(b.skip(1), cur.push(b[0]));
        assert(cur.push(b[0]) + b.skip(1) =~= cur + b);
    }
}

/// Reading an archive by lines loses and adds nothing: the lines, one after the other, are the
/// bytes, and none is empty.
pub proof fn lemma_lines_cover(b: Seq<u8>)
    ensures
        byte_lines(b).flatten() == b,
        forall|i: int| 0 <= i < byte_lines(b).len() ==> #[trigger] byte_lines(b)[i].len() > 0,
{
    lemma_split_lines_cover(b, Seq::empty());
    assert(Seq::<u8>::empty() + b =~= b);
}

/// Whether the bytes end with `}` and a newline.
pub open spec fn ends_record(r: Seq<u8>) -> bool {
    r.len() >= 2 && r[r.len() - 2] == 125u8 && r[r.len() - 1] == 10u8
}

proof fn lemma_split_records_prefix(b: Seq<u8>, cur: Seq<u8>)
    ensures
        split_records(b, cur).flatten().len() <= cur.len() + b.len(),
        split_records(b, cur).flatten() == (cur + b).take(split_records(b, cur).flatten().len() as int),
        forall|i: int|
            0 <= i < split_records(b, cur).len() ==> ends_record(#[trigger] split_records(b, cur)[i]),
    decreases b.len(),
{
    if b.len() == 0 {
    } else if b[0] == 10u8 && cur.len() > 0 && cur.last() == 125u8 {
        let first = cur.push(b[0]);
        let rest = split_records(b.skip(1), Seq::empty());
        lemma_split_records_prefix(b.skip(1), Seq::empty());
        lemma_flatten_cons(first, rest);
        assert(Seq::<u8>::empty() + b.skip(1) =~= b.skip(1));
        let f = rest.flatten();
        assert(first + b.skip(1) =~= cur + b);
        assert((first + f) =~= (cur + b).take((first + f).len() as int));
        assert forall|i: int| 0 <= i < split_records(b, cur).len() implies ends_record(
            #[trigger] split_records(b, cur)[i],
        ) by {
            if i > 0 {
                assert(split_records(b, cur)[i] == rest[i - 1]);
            } else {
                assert(first[first.len() - 2] == cur.last());
            }
        }
    } else {
        lemma_split_records_prefix(b.skip(1), cur.push(b[0]));
        assert(cur.push(b[0]) + b.skip(1) =~= cur + b);
    }
}

/// Reading a file by records keeps the bytes in order: the records, one after the other, are the
/// bytes up to the end of the last of them, and each ends with `}` and a newline.
pub proof fn lemma_records_prefix(b: Seq<u8>)
    ensures
        brace_records(b).flatten().len() <= b.len(),
        brace_records(b).flatten() == b.take(brace_records(b).flatten().len() as int),
        forall|i: int| 0 <= i < brace_records(b).len() ==> ends_record(#[trigger] brace_records(b)[i]),
{
    lemma_split_records_prefix(b, Seq::empty());
    assert(Seq::<u8>::empty() + b =~= b);
}

/// Divides the bytes into lines, each with its newline; bytes after the last newline form a last
/// line.
pub fn lines_of(data: &[u8]) -> (r: Vec<Vec<u8>>)
    ensures
        byte_views(r@) == byte_lines(data@),
{
    let mut out: Vec<Vec<u8>> = Vec::new();
    let mut cur: Vec<u8> = Vec::new();
    let mut i: usize = 0;
    assert(data@.skip(0) =~= data@);
    while i < data.len()
        invariant
            i <= data@.len(),
            byte_views(out@) + split_lines(data@.skip(i as int), cur@) == byte_lines(data@),
        decreases data@.len() - i,
    {
        let c = data[i];
        let ghost rest = data@.skip(i as int);
        let ghost old_cur = cur@;
        let ghost before = byte_views(out@);
        assert(rest[0] == c);
        assert(rest.skip(1) =~= data@.skip(i + 1));
        cur.push(c);
        if c == 10u8 {
            let line = cur;
            cur = Vec::new();
            out.push(line);
            assert(byte_views(out@) =~= before.push(old_cur.push(c)));
            assert(split_lines(rest, old_cur) == seq![old_cur.push(c)] + split_lines(
                rest.skip(1),
                Seq::empty(),
            ));
            assert(byte_views(out@) + split_lines(data@.skip(i + 1), cur@) =~= before + split_lines(
                rest,
                old_cur,
            ));
        }
        i = i + 1;
    }
    assert(data@.skip(i as int) =~= Seq::<u8>::empty());
    if cur.len() > 0 {
        let ghost before = byte_views(out@);
        let line = cur;
        out.push(line);
        assert(byte_views(out@) =~= before.push(line@));
    } else {
        assert(byte_views(out@) + Seq::<Seq<u8>>::empty() =~= byte_views(out@));
    }
    out
}

/// Divides the bytes into records: lines gathered until what has been gathered ends with `}` and a
/// newline. Bytes after the last record are left out.
pub fn backup_records(data: &[u8]) -> (r: Vec<Vec<u8>>)
    ensures
        byte_views(r@) == brace_records(data@),
{
    let mut out: Vec<Vec<u8>> = Vec::new();
    let mut cur: Vec<u8> = Vec::new();
    let mut i: usize = 0;
    assert(data@.skip(0) =~= data@);
    while i < data.len()
        invariant
            i <= data@.len(),
            byte_views(out@) + split_records(data@.skip(i as int), cur@) == brace_records(data@),
        decreases data@.len() - i,
    {
        let c = data[i];
        let ghost rest = data@.skip(i as int);
        let ghost old_cur = cur@;
        let ghost before = byte_views(out@);
        assert(rest[0] == c);
        assert(rest.skip(1) =~= data@.skip(i + 1));
        let ends = c == 10u8 && cur.len() > 0 && cur[cur.len() - 1] == 125u8;
        cur.push(c);
        if ends {
            let record = cur;
            cur = Vec::new();
            out.push(record);
            assert(byte_views(out@) =~= before.push(old_cur.push(c)));
            assert(split_records(rest, old_cur) == seq![old_cur.push(c)] + split_records(
                rest.skip(1),
                Seq::empty(),
            ));
            assert(byte_views(out@) + split_records(data@.skip(i + 1), cur@) =~= before
                + split_records(rest, old_cur));
        }
        i = i + 1;
    }
    assert(data@.skip(i as int) =~= Seq::<u8>::empty());
    assert(byte_views(out@) + Seq::<Seq<u8>>::empty() =~= byte_views(out@));
    out
}

/// Why an archive could not be read.
pub enum LegacyError {
    /// A record is not UTF-8.
    UTF8Error(std::string::FromUtf8Error),
    /// A record is not JSON.
    JSONError(serde_json::Error),
    /// A field was missing or invalid.
    MissingField,
    /// The named field was invalid; its value is given.
    InvalidField(&'static str, Option<String>),
}

/// Why an archive could not be read, as plain values.
pub enum LegacyFailure {
    Utf8,
    Json,
    MissingField,
    /// The URL, as it was after its repairs, names no story URL.
    InvalidUrl(Seq<char>),
}

/// Whether the error is the given failure.
pub open spec fn is_failure(e: LegacyError, f: LegacyFailure) -> bool {
    match (e, f) {
        (LegacyError::UTF8Error(_), LegacyFailure::Utf8) => true,
        (LegacyError::JSONError(_), LegacyFailure::Json) => true,
        (LegacyError::MissingField, LegacyFailure::MissingField) => true,
        (LegacyError::InvalidField(name, value), LegacyFailure::InvalidUrl(u)) => name@ == "url"@
            && opt_view(value) == Some(u),
        _ => false,
    }
}

/// Whether the result is the outcome given in plain values.
pub open spec fn is_outcome(
    r: Result<Vec<TypedScrape>, LegacyError>,
    o: Result<Seq<TypedScrapeView>, LegacyFailure>,
) -> bool {
    match (r, o) {
        (Ok(v), Ok(s)) => scrape_views(v@) == s,
        (Err(e), Err(f)) => is_failure(e, f),
        _ => false,
    }
}

/// A story identifier of an archive: a string other than `None`.
pub open spec fn id_of(v: JsonView) -> Option<Seq<char>> {
    match as_str(v) {
        Some(s) => if s == "None"@ {
            None
        } else {
            Some(s)
        },
        None => None,
    }
}

/// The view of a lookup that may have found nothing.
pub open spec fn found_view(v: Option<&Json>) -> JsonView {
    match v {
        Some(x) => json_view(*x),
        None => JsonView::Null,
    }
}

pub open spec fn fresh_hacker_news(
    id: Seq<char>,
    title: Seq<char>,
    url: StoryUrlView,
    millis: int,
) -> HackerNewsStoryView {
    HackerNewsStoryView { title, url, id, points: 0, comments: 0, position: 0, millis }
}

pub open spec fn fresh_reddit(
    id: Seq<char>,
    title: Seq<char>,
    url: StoryUrlView,
    millis: int,
) -> RedditStoryView {
    RedditStoryView {
        title,
        url,
        subreddit: Seq::empty(),
        flair: Seq::empty(),
        id,
        position: 0,
        upvotes: 0,
        downvotes: 0,
        num_comments: 0,
        score: 0,
        upvote_ratio: JsonView::Number(Some(0), Some(0), Some(0), dec_digits(0)),
        millis,
    }
}

pub open spec fn fresh_lobsters(
    id: Seq<char>,
    title: Seq<char>,
    url: StoryUrlView,
    millis: int,
) -> LobstersStoryView {
    LobstersStoryView { id, title, url, num_comments: 0, position: 0, score: 0, millis, tags: Seq::empty() }
}

/// A Hacker News story with only its identity, title, link and date.
fn make_hacker_news(id: String, title: String, url: StoryUrl, date: StoryDate) -> (r:
    HackerNewsStory)
    ensures
        r.view() == fresh_hacker_news(id@, title@, url@, date.millis()),
{
    HackerNewsStory { id, title, url, date, comments: 0, points: 0, position: 0 }
}

/// A Reddit story with only its identity, title, link and date.
fn make_reddit(id: String, title: String, url: StoryUrl, date: StoryDate) -> (r: RedditStory)
    ensures
        r.view() == fresh_reddit(id@, title@, url@, date.millis()),
{
    RedditStory {
        id,
        title,
        url,
        date,
        downvotes: 0,
        flair: String::new(),
        num_comments: 0,
        position: 0,
        score: 0,
        subreddit: String::new(),
        upvote_ratio: json_number_from_u64(0),
        upvotes: 0,
    }
}

/// A Lobsters story with only its identity, title, link and date.
fn make_lobsters(id: String, title: String, url: StoryUrl, date: StoryDate) -> (r: LobstersStory)
    ensures
        r.view() == fresh_lobsters(id@, title@, url@, date.millis()),
{
    let tags: Vec<String> = Vec::new();
    assert(strs_view(tags@) =~= Seq::<Seq<char>>::empty());
    LobstersStory { id, title, url, date, num_comments: 0, position: 0, score: 0, tags }
}

/// The URL of a record, cut at its first `?` where it holds `&amp`; `None` where it holds `&amp`
/// and no `?`.
pub open spec fn query_cut(u: Seq<char>) -> Option<Seq<char>> {
    if contains_seq(u, "&amp"@) {
        match first_occurrence(u, "?"@) {
            Some(i) => Some(u.take(i)),
            None => None,
        }
    } else {
        Some(u)
    }
}

/// The URL of a record without its spaces, where it ends with a space and a slash.
pub open spec fn space_repaired(u: Seq<char>) -> Seq<char> {
    if has_suffix(u, " /"@) {
        replace_all(u, " "@, ""@)
    } else {
        u
    }
}

fn cut_query(u: &str) -> (r: Option<String>)
    ensures
        opt_view(r) == query_cut(u@),
{
    let chars = chars_of(u);
    let amp = chars_of("&amp");
    if contains(chars.as_slice(), amp.as_slice()) {
        let question = chars_of("?");
        match find(chars.as_slice(), question.as_slice()) {
            Some(i) => Some(string_of_range(chars.as_slice(), 0, i)),
            None => None,
        }
    } else {
        Some(string_of(chars.as_slice()))
    }
}

fn repair_spaces(u: &str) -> (r: String)
    ensures
        r@ == space_repaired(u@),
{
    let chars = chars_of(u);
    let tail = chars_of(" /");
    if ends_with(chars.as_slice(), tail.as_slice()) {
        let space = chars_of(" ");
        let nothing = chars_of("");
        let v = replace(chars.as_slice(), space.as_slice(), nothing.as_slice());
        string_of(v.as_slice())
    } else {
        string_of(chars.as_slice())
    }
}

/// The format of the dates in the first archive.
pub open spec fn first_archive_date_format() -> Seq<char> {
    "%Y-%m-%d %H:%M:%S%.3f"@
}

pub open spec fn reddit_for(
    id: Option<Seq<char>>,
    title: Seq<char>,
    url: StoryUrlView,
    millis: int,
) -> Seq<TypedScrapeView> {
    match id {
        Some(i) => seq![TypedScrapeView::Reddit(fresh_reddit(i, title, url, millis))],
        None => Seq::empty(),
    }
}

pub open spec fn hacker_news_for(
    id: Option<Seq<char>>,
    title: Seq<char>,
    url: StoryUrlView,
    millis: int,
) -> Seq<TypedScrapeView> {
    match id {
        Some(i) => seq![TypedScrapeView::HackerNews(fresh_hacker_news(i, title, url, millis))],
        None => Seq::empty(),
    }
}

pub open spec fn lobsters_for(
    id: Option<Seq<char>>,
    title: Seq<char>,
    url: StoryUrlView,
    millis: int,
) -> Seq<TypedScrapeView> {
    match id {
        Some(i) => seq![TypedScrapeView::Lobsters(fresh_lobsters(i, title, url, millis))],
        None => Seq::empty(),
    }
}

/// What a record of the first archive holds: its date in the first archive's format, its title
/// and URL with entities unescaped, the URL repaired; then a Reddit story for each of the two
/// subreddit identifiers and a Hacker News story for the Hacker News identifier it has.
pub open spec fn first_archive_record(root: JsonView) -> Result<Seq<TypedScrapeView>, LegacyFailure> {
    match as_str(member(root, "date"@)) {
        None => Err(LegacyFailure::MissingField),
        Some(d) => match accepted(naive_datetime_to_millis(d, first_archive_date_format())) {
            None => Err(LegacyFailure::MissingField),
            Some(millis) => match (as_str(member(root, "title"@)), as_str(member(root, "url"@))) {
                (Some(t), Some(u)) => match query_cut(unescaped(u)) {
                    None => Err(LegacyFailure::MissingField),
                    Some(cut) => {
                        let fixed = space_repaired(cut);
                        match story_url_of(fixed) {
                            None => Err(LegacyFailure::InvalidUrl(fixed)),
                            Some(url) => {
                                let title = unescaped(t);
                                Ok(
                                    reddit_for(id_of(member(root, "redditProgId"@)), title, url, millis)
                                        + reddit_for(
                                        id_of(member(root, "redditTechId"@)),
                                        title,
                                        url,
                                        millis,
                                    ) + hacker_news_for(
                                        id_of(member(root, "hackerNewsId"@)),
                                        title,
                                        url,
                                        millis,
                                    ),
                                )
                            },
                        }
                    },
                },
                _ => Err(LegacyFailure::MissingField),
            },
        },
    }
}

/// The identifier a lookup found, if it is a string other than `None`.
fn legacy_id(v: Option<&Json>) -> (r: Option<String>)
    ensures
        opt_view(r) == id_of(found_view(v)),
{
    match get_str(v) {
        Some(s) => if str_eq(s.as_str(), "None") {
            None
        } else {
            Some(s)
        },
        None => None,
    }
}

/// Appends a story to the scrapes.
fn push_scrape(out: &mut Vec<TypedScrape>, s: TypedScrape)
    ensures
        scrape_views(final(out)@) == scrape_views(old(out)@).push(s.view()),
{
    out.push(s);
    assert(scrape_views(out@) =~= scrape_views(old(out)@).push(s.view()));
}

/// Reads a record of the first archive.
pub fn import_record_1(root: &Json) -> (r: Result<Vec<TypedScrape>, LegacyError>)
    ensures
        is_outcome(r, first_archive_record(json_view(*root))),
{
    let date = match get_str(get_member(root, "date")) {
        Some(d) => d,
        None => return Err(LegacyError::MissingField),
    };
    let date = match StoryDate::from_string(date.as_str(), "%Y-%m-%d %H:%M:%S%.3f") {
        Some(d) => d,
        None => return Err(LegacyError::MissingField),
    };
    let title = match get_str(get_member(root, "title")) {
        Some(t) => unescape_entities(t.as_str()),
        None => return Err(LegacyError::MissingField),
    };
    let raw = match get_str(get_member(root, "url")) {
        Some(u) => unescape_entities(u.as_str()),
        None => return Err(LegacyError::MissingField),
    };
    let cut = match cut_query(raw.as_str()) {
        Some(u) => u,
        None => return Err(LegacyError::MissingField),
    };
    let fixed = repair_spaces(cut.as_str());
    let url = match StoryUrl::parse(fixed.as_str()) {
        Some(u) => u,
        None => return Err(LegacyError::InvalidField("url", Some(fixed))),
    };
    let ghost t = title@;
    let ghost u = url@;
    let ghost m = date.millis();
    let mut out: Vec<TypedScrape> = Vec::new();
    assert(scrape_views(out@) =~= Seq::<TypedScrapeView>::empty());
    let prog = legacy_id(get_member(root, "redditProgId"));
    if let Some(id) = prog {
        push_scrape(&mut out, TypedScrape::Reddit(make_reddit(id, title.clone(), url.copy(), date)));
    }
    assert(scrape_views(out@) =~= reddit_for(opt_view(prog), t, u, m));
    let ghost so_far = scrape_views(out@);
    let tech = legacy_id(get_member(root, "redditTechId"));
    if let Some(id) = tech {
        push_scrape(&mut out, TypedScrape::Reddit(make_reddit(id, title.clone(), url.copy(), date)));
    }
    assert(scrape_views(out@) =~= so_far + reddit_for(opt_view(tech), t, u, m));
    let ghost so_far = scrape_views(out@);
    let hn = legacy_id(get_member(root, "hackerNewsId"));
    if let Some(id) = hn {
        push_scrape(&mut out, TypedScrape::HackerNews(make_hacker_news(id, title, url, date)));
    }
    assert(scrape_views(out@) =~= so_far + hacker_news_for(opt_view(hn), t, u, m));
    Ok(out)
}

/// `value.as_array()`.
pub open spec fn as_array(v: JsonView) -> Option<Seq<JsonView>> {
    match v {
        JsonView::Array(items) => Some(items),
        _ => None,
    }
}

/// A Reddit story for each identifier of the list, taken from its end.
pub open spec fn reddit_from_ids(
    ids: Seq<JsonView>,
    title: Seq<char>,
    url: StoryUrlView,
    millis: int,
) -> Seq<TypedScrapeView>
    decreases ids.len(),
{
    if ids.len() == 0 {
        Seq::empty()
    } else {
        reddit_for(id_of(ids.last()), title, url, millis) + reddit_from_ids(
            ids.drop_last(),
            title,
            url,
            millis,
        )
    }
}

/// What a record of the second archive holds: its date in milliseconds, its title and URL with
/// entities unescaped, the URL cut at its query where it holds `&amp`; then a Hacker News story
/// for the Hacker News identifier it has, a Reddit story for each Reddit identifier in its list
/// (from the last), and a Lobsters story for the Lobsters identifier it has. The list of Reddit
/// identifiers must be there.
pub open spec fn second_archive_record(root: JsonView) -> Result<Seq<TypedScrapeView>, LegacyFailure> {
    match json_as_i64(member(root, "date"@)) {
        None => Err(LegacyFailure::MissingField),
        Some(ms) => if !chrono_accepts_millis(ms as int) {
            Err(LegacyFailure::MissingField)
        } else {
            match (as_str(member(root, "title"@)), as_str(member(root, "url"@))) {
                (Some(t), Some(u)) => match query_cut(unescaped(u)) {
                    None => Err(LegacyFailure::MissingField),
                    Some(fixed) => match story_url_of(fixed) {
                        None => Err(LegacyFailure::InvalidUrl(fixed)),
                        Some(url) => match as_array(member(root, "reddit"@)) {
                            None => Err(LegacyFailure::MissingField),
                            Some(ids) => {
                                let title = unescaped(t);
                                let millis = ms as int;
                                Ok(
                                    hacker_news_for(id_of(member(root, "hn"@)), title, url, millis)
                                        + reddit_from_ids(ids, title, url, millis) + lobsters_for(
                                        id_of(member(root, "lobsters"@)),
                                        title,
                                        url,
                                        millis,
                                    ),
                                )
                            },
                        },
                    },
                },
                _ => Err(LegacyFailure::MissingField),
            }
        },
    }
}

fn found_i64(v: Option<&Json>) -> (r: Option<i64>)
    ensures
        r == json_as_i64(found_view(v)),
{
    match v {
        Some(Json::Number(n)) => n.as_i64,
        _ => None,
    }
}

/// Reads a record of the second archive.
pub fn import_record_2(root: &Json) -> (r: Result<Vec<TypedScrape>, LegacyError>)
    ensures
        is_outcome(r, second_archive_record(json_view(*root))),
{
    let millis = match found_i64(get_member(root, "date")) {
        Some(m) => m,
        None => return Err(LegacyError::MissingField),
    };
    let date = match StoryDate::from_millis(millis) {
        Some(d) => d,
        None => return Err(LegacyError::MissingField),
    };
    let title = match get_str(get_member(root, "title")) {
        Some(t) => unescape_entities(t.as_str()),
        None => return Err(LegacyError::MissingField),
    };
    let raw = match get_str(get_member(root, "url")) {
        Some(u) => unescape_entities(u.as_str()),
        None => return Err(LegacyError::MissingField),
    };
    let fixed = match cut_query(raw.as_str()) {
        Some(u) => u,
        None => return Err(LegacyError::MissingField),
    };
    let url = match StoryUrl::parse(fixed.as_str()) {
        Some(u) => u,
        None => return Err(LegacyError::InvalidField("url", Some(fixed))),
    };
    let ghost t = title@;
    let ghost u = url@;
    let ghost m = date.millis();
    let mut out: Vec<TypedScrape> = Vec::new();
    assert(scrape_views(out@) =~= Seq::<TypedScrapeView>::empty());
    let hn = legacy_id(get_member(root, "hn"));
    if let Some(id) = hn {
        push_scrape(&mut out, TypedScrape::HackerNews(make_hacker_news(id, title.clone(), url.copy(), date)));
    }
    assert(scrape_views(out@) =~= hacker_news_for(opt_view(hn), t, u, m));
    let items = match get_member(root, "reddit") {
        Some(Json::Array(items)) => items,
        _ => return Err(LegacyError::MissingField),
    };
    let ghost ids = json_views(items@);
    proof {
        crate::json::lemma_json_views(items@);
    }
    let ghost start = scrape_views(out@);
    let mut k: usize = items.len();
    assert(ids.take(k as int) =~= ids);
    while k > 0
        invariant
            k <= items@.len(),
            ids == json_views(items@),
            ids.len() == items@.len(),
            forall|j: int| 0 <= j < items@.len() ==> #[trigger] ids[j] == json_view(items@[j]),
            scrape_views(out@) + reddit_from_ids(ids.take(k as int), t, u, m) == start
                + reddit_from_ids(ids, t, u, m),
            title@ == t,
            url@ == u,
            date.millis() == m,
        decreases k,
    {
        k = k - 1;
        let ghost before = scrape_views(out@);
        let id = legacy_id(Some(&items[k]));
        if let Some(id) = id {
            push_scrape(&mut out, TypedScrape::Reddit(make_reddit(id, title.clone(), url.copy(), date)));
        }
        assert(scrape_views(out@) =~= before + reddit_for(opt_view(id), t, u, m));
        assert(ids.take(k + 1).last() == ids[k as int]);
        assert(ids.take(k + 1).drop_last() =~= ids.take(k as int));
        assert(reddit_from_ids(ids.take(k + 1), t, u, m) == reddit_for(id_of(ids[k as int]), t, u, m)
            + reddit_from_ids(ids.take(k as int), t, u, m));
        assert(scrape_views(out@) + reddit_from_ids(ids.take(k as int), t, u, m) =~= before
            + reddit_from_ids(ids.take(k + 1), t, u, m));
    }
    assert(ids.take(0) =~= Seq::<JsonView>::empty());
    assert(scrape_views(out@) =~= start + reddit_from_ids(ids, t, u, m));
    let ghost so_far = scrape_views(out@);
    let lobsters = legacy_id(get_member(root, "lobsters"));
    if let Some(id) = lobsters {
        push_scrape(&mut out, TypedScrape::Lobsters(make_lobsters(id, title, url, date)));
    }
    assert(scrape_views(out@) =~= so_far + lobsters_for(opt_view(lobsters), t, u, m));
    Ok(out)
}

/// The JSON value a record holds: the record must be UTF-8 and its text JSON.
pub open spec fn record_json(b: Seq<u8>) -> Result<JsonView, LegacyFailure> {
    if !vstd::utf8::valid_utf8(b) {
        Err(LegacyFailure::Utf8)
    } else if !json_parses(vstd::utf8::decode_utf8(b)) {
        Err(LegacyFailure::Json)
    } else {
        Ok(json_value_of(vstd::utf8::decode_utf8(b)))
    }
}

/// The scrapes of the records, in order, each record read by `read`; the failure of the first
/// record that cannot be read.
pub open spec fn archive_scrapes(
    records: Seq<Seq<u8>>,
    read: spec_fn(JsonView) -> Result<Seq<TypedScrapeView>, LegacyFailure>,
) -> Result<Seq<TypedScrapeView>, LegacyFailure>
    decreases records.len(),
{
    if records.len() == 0 {
        Ok(Seq::empty())
    } else {
        match record_json(records[0]) {
            Err(f) => Err(f),
            Ok(root) => match read(root) {
                Err(f) => Err(f),
                Ok(s) => match archive_scrapes(records.skip(1), read) {
                    Ok(rest) => Ok(s + rest),
                    Err(f) => Err(f),
                },
            },
        }
    }
}

/// The JSON value of a record.
fn record_value(bytes: &[u8]) -> (r: Result<Json, LegacyError>)
    ensures
        match (r, record_json(bytes@)) {
            (Ok(j), Ok(v)) => json_view(j) == v,
            (Err(e), Err(f)) => is_failure(e, f),
            _ => false,
        },
{
    match string_from_utf8(bytes) {
        Err(e) => Err(LegacyError::UTF8Error(e)),
        Ok(text) => match parse_json(text.as_str()) {
            Ok(j) => Ok(j),
            Err(e) => Err(LegacyError::JSONError(e)),
        },
    }
}

/// Reads the records of an archive, each with the reader of its format.
fn import_records(records: &Vec<Vec<u8>>, second: bool) -> (r: Result<Vec<TypedScrape>, LegacyError>)
    ensures
        is_outcome(
            r,
            archive_scrapes(
                byte_views(records@),
                if second {
                    |root: JsonView| second_archive_record(root)
                } else {
                    |root: JsonView| first_archive_record(root)
                },
            ),
        ),
{
    let ghost read = if second {
        |root: JsonView| second_archive_record(root)
    } else {
        |root: JsonView| first_archive_record(root)
    };
    let ghost recs = byte_views(records@);
    let mut out: Vec<TypedScrape> = Vec::new();
    let mut i: usize = 0;
    assert(recs.skip(0) =~= recs);
    assert(scrape_views(out@) + Seq::<TypedScrapeView>::empty() =~= Seq::<TypedScrapeView>::empty());
    while i < records.len()
        invariant
            i <= records@.len(),
            recs == byte_views(records@),
            recs.len() == records@.len(),
            read == (if second {
                |root: JsonView| second_archive_record(root)
            } else {
                |root: JsonView| first_archive_record(root)
            }),
            archive_scrapes(recs, read) == match archive_scrapes(recs.skip(i as int), read) {
                Ok(rest) => Ok(scrape_views(out@) + rest),
                Err(f) => Err(f),
            },
        decreases records@.len() - i,
    {
        let ghost rest = recs.skip(i as int);
        assert(rest[0] == records@[i as int]@);
        assert(rest.skip(1) =~= recs.skip(i + 1));
        let root = match record_value(records[i].as_slice()) {
            Ok(j) => j,
            Err(e) => return Err(e),
        };
        let read_one = if second {
            import_record_2(&root)
        } else {
            import_record_1(&root)
        };
        let mut more = match read_one {
            Ok(v) => v,
            Err(e) => return Err(e),
        };
        let ghost before = scrape_views(out@);
        let ghost added = scrape_views(more@);
        assert(read(json_view(root)) == Ok::<Seq<TypedScrapeView>, LegacyFailure>(added));
        out.append(&mut more);
        assert(scrape_views(out@) =~= before + added);
        proof {
            match archive_scrapes(recs.skip(i + 1), read) {
                Ok(tail) => {
                    assert(before + (added + tail) =~= scrape_views(out@) + tail);
                },
                Err(f) => {},
            }
        }
        i = i + 1;
    }
    assert(recs.skip(i as int) =~= Seq::<Seq<u8>>::empty());
    assert(scrape_views(out@) + Seq::<TypedScrapeView>::empty() =~= scrape_views(out@));
    Ok(out)
}

/// Reads the first archive, decompressed: one JSON record per line.
pub fn import_legacy_1(data: &[u8]) -> (r: Result<Vec<TypedScrape>, LegacyError>)
    ensures
        is_outcome(
            r,
            archive_scrapes(byte_lines(data@), |root: JsonView| first_archive_record(root)),
        ),
{
    let records = lines_of(data);
    import_records(&records, false)
}

/// Reads the second archive, decompressed: JSON records, each ending in a line that ends with `}`.
pub fn import_legacy_2(data: &[u8]) -> (r: Result<Vec<TypedScrape>, LegacyError>)
    ensures
        is_outcome(
            r,
            archive_scrapes(brace_records(data@), |root: JsonView| second_archive_record(root)),
        ),
{
    let records = backup_records(data);
    import_records(&records, true)
}

} // verus!
