//! Scraping Reddit's JSON listings: each `t3` child of `data.children` becomes a story.
use vstd::prelude::*;

use crate::date::{chrono_accepts_millis, StoryDate};
use crate::html::{unescape_entities, unescaped};
use crate::scrapers::{ScrapeError, ScrapeStory};
use crate::source::ScrapeSource;
use crate::json::{
    as_str, get_member, get_str, json_parses, json_value_of, json_view, json_views, member,
    number_view, parse_json, Json, JsonNumber, JsonView,
};
use crate::tagger::{opt_view, strs_view};
use crate::text::push_str;
use crate::url::{story_url_of, StoryUrl, StoryUrlView};

verus! {

#[derive(Default)]
pub struct RedditArgs {}

#[derive(Default)]
pub struct RedditScraper {}

/// A story scraped from a Reddit listing. The upvote ratio is kept as the JSON number it was.
pub struct RedditStory {
    pub title: String,
    pub url: StoryUrl,
    pub subreddit: String,
    pub flair: String,
    pub id: String,
    pub position: u32,
    pub upvotes: u32,
    pub downvotes: u32,
    pub num_comments: u32,
    pub score: u32,
    pub upvote_ratio: JsonNumber,
    pub date: StoryDate,
}

/// A story's fields as plain values (all but the upvote ratio).
pub struct RedditStoryView {
    pub title: Seq<char>,
    pub url: StoryUrlView,
    pub subreddit: Seq<char>,
    pub flair: Seq<char>,
    pub id: Seq<char>,
    pub position: u32,
    pub upvotes: u32,
    pub downvotes: u32,
    pub num_comments: u32,
    pub score: u32,
    /// The upvote ratio, as the JSON number it was.
    pub upvote_ratio: JsonView,
    pub millis: int,
}

impl RedditStory {
    pub open spec fn view(&self) -> RedditStoryView {
        RedditStoryView {
            title: self.title@,
            url: self.url@,
            subreddit: self.subreddit@,
            flair: self.flair@,
            id: self.id@,
            position: self.position,
            upvotes: self.upvotes,
            downvotes: self.downvotes,
            num_comments: self.num_comments,
            score: self.score,
            upvote_ratio: number_view(self.upvote_ratio),
            millis: self.date.millis(),
        }
    }
}

impl ScrapeStory for RedditStory {
    const TYPE: ScrapeSource = ScrapeSource::Reddit;

    /// Takes the later scrape's title, link and flair, the earlier date, and the larger position,
    /// vote, comment and score counts. The upvote ratio, a floating-point number, stays the
    /// earlier scrape's.
    fn merge(&mut self, other: RedditStory)
        ensures
            final(self).view() == (RedditStoryView {
                title: other.title@,
                url: other.url@,
                flair: other.flair@,
                millis: if other.date.millis() < old(self).date.millis() { other.date.millis() } else { old(self).date.millis() },
                position: if other.position > old(self).position { other.position } else { old(self).position },
                upvotes: if other.upvotes > old(self).upvotes { other.upvotes } else { old(self).upvotes },
                downvotes: if other.downvotes > old(self).downvotes { other.downvotes } else { old(self).downvotes },
                num_comments: if other.num_comments > old(self).num_comments { other.num_comments } else { old(self).num_comments },
                score: if other.score > old(self).score { other.score } else { old(self).score },
                ..old(self).view()
            }),
    {
        self.title = other.title;
        self.url = other.url;
        self.flair = other.flair;
        self.date = self.date.earliest(other.date);
        if other.position > self.position {
            self.position = other.position;
        }
        if other.upvotes > self.upvotes {
            self.upvotes = other.upvotes;
        }
        if other.downvotes > self.downvotes {
            self.downvotes = other.downvotes;
        }
        if other.num_comments > self.num_comments {
            self.num_comments = other.num_comments;
        }
        if other.score > self.score {
            self.score = other.score;
        }
    }
}

/// The value of a JSON number in `lo..=hi`: its `u64` value if that fits, else its `i64` value if
/// that fits, else its `f64` value truncated, if that fits.
pub open spec fn integer_in(v: JsonView, lo: int, hi: int) -> Option<int> {
    match v {
        JsonView::Number(u, i, f, _) => {
            let from_u = match u {
                Some(x) => if lo <= x <= hi { Some(x as int) } else { None },
                None => None,
            };
            let from_i = match i {
                Some(x) => if lo <= x <= hi { Some(x as int) } else { None },
                None => None,
            };
            let from_f = match f {
                Some(x) => if lo <= x <= hi { Some(x as int) } else { None },
                None => None,
            };
            if from_u is Some {
                from_u
            } else if from_i is Some {
                from_i
            } else {
                from_f
            }
        },
        _ => None,
    }
}

/// A JSON number that reads as a float.
pub open spec fn is_float(v: JsonView) -> bool {
    match v {
        JsonView::Number(u, i, f, _) => u is Some || i is Some || f is Some,
        _ => false,
    }
}

/// The text `format!("{:?}", s)` gives for a string: quoted, with `std`'s escapes.
pub uninterp spec fn str_debug_text(s: Seq<char>) -> Seq<char>;

/// The text `format!("{:?}", o)` gives for an optional string.
pub uninterp spec fn opt_str_debug_text(o: Option<Seq<char>>) -> Seq<char>;

/// The text `format!("{:?}", v)` gives for the `serde_json::Value` that the JSON value is, each
/// number read back from its text (a number `serde_json` parsed reads back as itself).
pub uninterp spec fn json_debug_text(v: JsonView) -> Seq<char>;

pub open spec fn missing_field(key: Seq<char>) -> Seq<char> {
    "Missing field "@ + str_debug_text(key)
}

pub open spec fn unparsable(key: Seq<char>, what: Seq<char>, v: JsonView) -> Seq<char> {
    "Failed to parse "@ + key + " as "@ + what + " (value was "@ + json_debug_text(v) + ")"@
}

pub open spec fn invalid_field(key: Seq<char>, v: JsonView) -> Seq<char> {
    "Missing or invalid field "@ + str_debug_text(key) + " (value was "@ + json_debug_text(v) + ")"@
}

/// The string at `key`, or the error of its absence.
pub open spec fn read_str(data: JsonView, key: Seq<char>) -> Result<Seq<char>, Seq<char>> {
    match as_str(member(data, key)) {
        Some(s) => Ok(s),
        None => Err(missing_field(key)),
    }
}

/// The integer in `lo..=hi` at `key`, or the error of a number that is none or of no number.
pub open spec fn read_int(data: JsonView, key: Seq<char>, lo: int, hi: int) -> Result<int, Seq<char>> {
    let v = member(data, key);
    match v {
        JsonView::Number(_, _, _, _) => match integer_in(v, lo, hi) {
            Some(x) => Ok(x),
            None => Err(unparsable(key, "integer"@, v)),
        },
        _ => Err(invalid_field(key, v)),
    }
}

/// Whether `key` holds a number that reads as a float, or the error.
pub open spec fn read_float(data: JsonView, key: Seq<char>) -> Result<(), Seq<char>> {
    let v = member(data, key);
    match v {
        JsonView::Number(_, _, _, _) => if is_float(v) {
            Ok(())
        } else {
            Err(unparsable(key, "float"@, v))
        },
        _ => Err(invalid_field(key, v)),
    }
}

/// The story a child of the listing describes from its `data`, after its kind is checked: its
/// fields read in turn, the first one missing or unreadable giving the error.
pub open spec fn story_from_data(data: JsonView, position: u32) -> Result<RedditStoryView, Seq<char>> {
    let u32_max = u32::MAX as int;
    match read_int(data, "created_utc"@, i64::MIN as int, i64::MAX as int) {
        Err(e) => Err(e),
        Ok(millis) => if !chrono_accepts_millis(millis) {
            Err("Unmappable date"@)
        } else {
            match read_str(data, "url"@) {
                Err(e) => Err(e),
                Ok(u) => match story_url_of(unescaped(u)) {
                    None => Err("Unmappable URL"@),
                    Some(url) => match read_str(data, "title"@) {
                        Err(e) => Err(e),
                        Ok(t) => match read_int(data, "num_comments"@, 0, u32_max) {
                            Err(e) => Err(e),
                            Ok(c) => match read_int(data, "score"@, 0, u32_max) {
                                Err(e) => Err(e),
                                Ok(sc) => match read_int(data, "downs"@, 0, u32_max) {
                                    Err(e) => Err(e),
                                    Ok(d) => match read_int(data, "ups"@, 0, u32_max) {
                                        Err(e) => Err(e),
                                        Ok(up) => match read_float(data, "upvote_ratio"@) {
                                            Err(e) => Err(e),
                                            Ok(_) => match read_str(data, "subreddit"@) {
                                                Err(e) => Err(e),
                                                Ok(sub) => match read_str(data, "id"@) {
                                                    Err(e) => Err(e),
                                                    Ok(id) => Ok(
                                                        RedditStoryView {
                                                            title: unescaped(t),
                                                            url,
                                                            subreddit: sub,
                                                            flair: match as_str(member(data, "link_flair_text"@)) {
                                                                Some(f) => f,
                                                                None => Seq::empty(),
                                                            },
                                                            id,
                                                            position,
                                                            upvotes: up as u32,
                                                            downvotes: d as u32,
                                                            num_comments: c as u32,
                                                            score: sc as u32,
                                                            upvote_ratio: member(data, "upvote_ratio"@),
                                                            millis,
                                                        },
                                                    ),
                                                },
                                            },
                                        },
                                    },
                                },
                            },
                        },
                    },
                },
            }
        },
    }
}

/// The story a child of the listing describes, at a position: a `t3` child whose `data` has a
/// date, a URL, a title, counts, an upvote ratio, a subreddit and an id; else the reason it is
/// none.
pub open spec fn reddit_story_of(child: JsonView, position: u32) -> Result<RedditStoryView, Seq<char>> {
    let kind = as_str(member(child, "kind"@));
    if kind != Some("t3"@) {
        Err("Unknown story type: "@ + opt_str_debug_text(kind))
    } else {
        story_from_data(member(child, "data"@), position)
    }
}

/// The stories of the children, in order, and the reasons the other children are not stories.
pub open spec fn stories_of(children: Seq<JsonView>) -> (Seq<RedditStoryView>, Seq<Seq<char>>)
    decreases children.len(),
{
    if children.len() == 0 {
        (Seq::empty(), Seq::empty())
    } else {
        let (stories, errors) = stories_of(children.drop_last());
        match reddit_story_of(children.last(), (children.len() - 1) as u32) {
            Ok(s) => (stories.push(s), errors),
            Err(e) => (stories, errors.push(e)),
        }
    }
}

/// Every child of a listing is either a story or an error, never both.
pub proof fn lemma_every_child_accounted(children: Seq<JsonView>)
    ensures
        stories_of(children).0.len() + stories_of(children).1.len() == children.len(),
    decreases children.len(),
{
    if children.len() > 0 {
        lemma_every_child_accounted(children.drop_last());
    }
}

/// A listing is an object whose `data.children` is an array.
pub open spec fn listing_children(v: JsonView) -> Option<Seq<JsonView>> {
    match v {
        JsonView::Object(_) => match member(member(v, "data"@), "children"@) {
            JsonView::Array(children) => Some(children),
            _ => None,
        },
        _ => None,
    }
}

/// An object without a `data` entry: there the listing is not read at all.
pub open spec fn lacks_data(v: JsonView) -> bool {
    match v {
        JsonView::Object(entries) => crate::json::entry_index(entries, "data"@) is None,
        _ => false,
    }
}

pub open spec fn stories_view(v: Seq<RedditStory>) -> Seq<RedditStoryView> {
    v.map_values(|s: RedditStory| s.view())
}

// ---------------------------------------------------------------------------
// Messages
// ---------------------------------------------------------------------------

/// Converts a value back to a `serde_json::Value`, variant by variant; a number is read from its
/// text (`Null` where that text is not a JSON number), so the value depends on the view alone.
#[verifier::external_body]
fn value_from_json(j: &Json) -> serde_json::Value {
    match j {
        Json::Null => serde_json::Value::Null,
        Json::Bool(b) => serde_json::Value::Bool(*b),
        Json::Number(n) => match n.text.parse::<serde_json::Number>() {
            Ok(x) => serde_json::Value::Number(x),
            Err(_) => serde_json::Value::Null,
        },
        Json::Str(s) => serde_json::Value::String(s.clone()),
        Json::Array(a) => serde_json::Value::Array(a.iter().map(value_from_json).collect()),
        Json::Object(o) => serde_json::Value::Object(o.iter().map(|(k, v)| (k.clone(), value_from_json(v))).collect()),
    }
}

/// `format!("{:?}", s)` for a string.
#[verifier::external_body]
pub(crate) fn debug_str(s: &str) -> (r: String)
    ensures
        r@ == str_debug_text(s@),
{
    format!("{:?}", s)
}

/// `format!("{:?}", o)` for an optional string.
#[verifier::external_body]
fn debug_opt_str(o: Option<&str>) -> (r: String)
    ensures
        r@ == opt_str_debug_text(
            match o {
                Some(s) => Some(s@),
                None => None,
            },
        ),
{
    format!("{:?}", o)
}

/// `format!("{:?}", v)` for the value as a `serde_json::Value`, its numbers read from their text.
#[verifier::external_body]
fn debug_json(j: &Json) -> (r: String)
    ensures
        r@ == json_debug_text(json_view(*j)),
{
    format!("{:?}", value_from_json(j))
}

fn concat3(a: &str, b: &str, c: &str) -> (r: String)
    ensures
        r@ == a@ + b@ + c@,
{
    let mut m = a.to_owned();
    push_str(&mut m, b);
    push_str(&mut m, c);
    m
}

fn unknown_kind_message(kind: Option<&str>) -> (r: String)
    ensures
        r@ == "Unknown story type: "@ + opt_str_debug_text(
            match kind {
                Some(s) => Some(s@),
                None => None,
            },
        ),
{
    let d = debug_opt_str(kind);
    let mut m = "Unknown story type: ".to_owned();
    push_str(&mut m, d.as_str());
    m
}

fn missing_field_message(key: &str) -> (r: String)
    ensures
        r@ == missing_field(key@),
{
    let d = debug_str(key);
    let mut m = "Missing field ".to_owned();
    push_str(&mut m, d.as_str());
    m
}

fn unparsable_message(key: &str, what: &str, value: &Json) -> (r: String)
    ensures
        r@ == unparsable(key@, what@, json_view(*value)),
{
    let d = debug_json(value);
    let mut m = concat3("Failed to parse ", key, " as ");
    push_str(&mut m, what);
    push_str(&mut m, " (value was ");
    push_str(&mut m, d.as_str());
    push_str(&mut m, ")");
    m
}

fn invalid_field_message(key: &str, value: Option<&Json>) -> (r: String)
    ensures
        r@ == invalid_field(key@, opt_json_view(value)),
{
    let null = Json::Null;
    let d = match value {
        Some(j) => debug_json(j),
        None => debug_json(&null),
    };
    let k = debug_str(key);
    let mut m = concat3("Missing or invalid field ", k.as_str(), " (value was ");
    push_str(&mut m, d.as_str());
    push_str(&mut m, ")");
    m
}

// ---------------------------------------------------------------------------
// Field readers
// ---------------------------------------------------------------------------

pub open spec fn opt_json_view(j: Option<&Json>) -> JsonView {
    match j {
        Some(x) => json_view(*x),
        None => JsonView::Null,
    }
}

fn member_of<'a>(data: Option<&'a Json>, key: &str) -> (r: Option<&'a Json>)
    ensures
        opt_json_view(r) == member(opt_json_view(data), key@),
{
    match data {
        Some(d) => get_member(d, key),
        None => None,
    }
}

fn require_string(data: Option<&Json>, key: &str) -> (r: Result<String, String>)
    ensures
        match (r, read_str(opt_json_view(data), key@)) {
            (Ok(s), Ok(v)) => s@ == v,
            (Err(a), Err(b)) => a@ == b,
            _ => false,
        },
{
    match get_str(member_of(data, key)) {
        Some(s) => Ok(s),
        None => Err(missing_field_message(key)),
    }
}

fn optional_string(data: Option<&Json>, key: &str) -> (r: String)
    ensures
        r@ == match as_str(member(opt_json_view(data), key@)) {
            Some(v) => v,
            None => Seq::empty(),
        },
{
    match get_str(member_of(data, key)) {
        Some(s) => s,
        None => String::new(),
    }
}

fn require_u32(data: Option<&Json>, key: &str) -> (r: Result<u32, String>)
    ensures
        match (r, read_int(opt_json_view(data), key@, 0, u32::MAX as int)) {
            (Ok(n), Ok(v)) => n == v,
            (Err(a), Err(b)) => a@ == b,
            _ => false,
        },
{
    let v = member_of(data, key);
    match v {
        Some(j) => match j {
            Json::Number(n) => {
                if let Some(x) = n.as_u64 {
                    if x <= u32::MAX as u64 {
                        return Ok(x as u32);
                    }
                }
                if let Some(x) = n.as_i64 {
                    if 0 <= x && x <= u32::MAX as i64 {
                        return Ok(x as u32);
                    }
                }
                if let Some(x) = n.as_f64_truncated {
                    if 0 <= x && x <= u32::MAX as i64 {
                        return Ok(x as u32);
                    }
                }
                Err(unparsable_message(key, "integer", j))
            },
            _ => Err(invalid_field_message(key, v)),
        },
        None => Err(invalid_field_message(key, v)),
    }
}

fn require_i64(data: Option<&Json>, key: &str) -> (r: Result<i64, String>)
    ensures
        match (r, read_int(opt_json_view(data), key@, i64::MIN as int, i64::MAX as int)) {
            (Ok(n), Ok(v)) => n == v,
            (Err(a), Err(b)) => a@ == b,
            _ => false,
        },
{
    let v = member_of(data, key);
    match v {
        Some(j) => match j {
            Json::Number(n) => {
                if let Some(x) = n.as_u64 {
                    if x <= i64::MAX as u64 {
                        return Ok(x as i64);
                    }
                }
                if let Some(x) = n.as_i64 {
                    return Ok(x);
                }
                if let Some(x) = n.as_f64_truncated {
                    return Ok(x);
                }
                Err(unparsable_message(key, "integer", j))
            },
            _ => Err(invalid_field_message(key, v)),
        },
        None => Err(invalid_field_message(key, v)),
    }
}

/// `std`'s `Clone` of a JSON number.
#[verifier::external_body]
fn clone_number(n: &serde_json::Number) -> serde_json::Number {
    n.clone()
}

/// A copy of a JSON number.
fn copy_number(n: &JsonNumber) -> (r: JsonNumber)
    ensures
        number_view(r) == number_view(*n),
{
    JsonNumber {
        as_u64: n.as_u64,
        as_i64: n.as_i64,
        as_f64_truncated: n.as_f64_truncated,
        text: n.text.clone(),
        raw: clone_number(&n.raw),
    }
}

fn require_float(data: Option<&Json>, key: &str) -> (r: Result<JsonNumber, String>)
    ensures
        match (r, read_float(opt_json_view(data), key@)) {
            (Ok(n), Ok(_)) => number_view(n) == member(opt_json_view(data), key@),
            (Err(a), Err(b)) => a@ == b,
            _ => false,
        },
{
    let v = member_of(data, key);
    match v {
        Some(j) => match j {
            Json::Number(n) => {
                if n.as_u64.is_some() || n.as_i64.is_some() || n.as_f64_truncated.is_some() {
                    Ok(copy_number(n))
                } else {
                    Err(unparsable_message(key, "float", j))
                }
            },
            _ => Err(invalid_field_message(key, v)),
        },
        None => Err(invalid_field_message(key, v)),
    }
}

impl RedditScraper {
    /// The story a child of the listing describes, or why it is none.
    pub fn map_story(&self, child: &Json, position: u32) -> (r: Result<RedditStory, String>)
        ensures
            match (r, reddit_story_of(json_view(*child), position)) {
                (Ok(s), Ok(v)) => s.view() == v && s.date.valid(),
                (Err(a), Err(b)) => a@ == b,
                _ => false,
            },
    {
        let child = Some(child);
        let kind = get_str(member_of(child, "kind"));
        let is_t3 = match &kind {
            Some(k) => crate::text::str_eq(k.as_str(), "t3"),
            None => false,
        };
        if !is_t3 {
            let k: Option<&str> = match &kind {
                Some(k) => Some(k.as_str()),
                None => None,
            };
            return Err(unknown_kind_message(k));
        }
        let data = member_of(child, "data");
        let millis = match require_i64(data, "created_utc") {
            Ok(m) => m,
            Err(e) => {
                return Err(e);
            },
        };
        let date = match StoryDate::from_millis(millis) {
            Some(d) => d,
            None => {
                return Err("Unmappable date".to_owned());
            },
        };
        let raw_url = match require_string(data, "url") {
            Ok(u) => u,
            Err(e) => {
                return Err(e);
            },
        };
        let url = match StoryUrl::parse(unescape_entities(raw_url.as_str()).as_str()) {
            Some(u) => u,
            None => {
                return Err("Unmappable URL".to_owned());
            },
        };
        let raw_title = match require_string(data, "title") {
            Ok(t) => t,
            Err(e) => {
                return Err(e);
            },
        };
        let title = unescape_entities(raw_title.as_str());
        let num_comments = match require_u32(data, "num_comments") {
            Ok(n) => n,
            Err(e) => {
                return Err(e);
            },
        };
        let score = match require_u32(data, "score") {
            Ok(n) => n,
            Err(e) => {
                return Err(e);
            },
        };
        let downvotes = match require_u32(data, "downs") {
            Ok(n) => n,
            Err(e) => {
                return Err(e);
            },
        };
        let upvotes = match require_u32(data, "ups") {
            Ok(n) => n,
            Err(e) => {
                return Err(e);
            },
        };
        let upvote_ratio = match require_float(data, "upvote_ratio") {
            Ok(n) => n,
            Err(e) => {
                return Err(e);
            },
        };
        let subreddit = match require_string(data, "subreddit") {
            Ok(s) => s,
            Err(e) => {
                return Err(e);
            },
        };
        let flair = optional_string(data, "link_flair_text");
        let id = match require_string(data, "id") {
            Ok(s) => s,
            Err(e) => {
                return Err(e);
            },
        };
        Ok(
            RedditStory {
                title,
                url,
                subreddit,
                flair,
                id,
                position,
                upvotes,
                downvotes,
                num_comments,
                score,
                upvote_ratio,
                date,
            },
        )
    }

    /// The stories of a parsed listing and the reasons its other children are not stories.
    pub fn scrape_value(&self, value: &Json) -> (r: Result<(Vec<RedditStory>, Vec<String>), ScrapeError>)
        requires
            !lacks_data(json_view(*value)),
        ensures
            match (r, json_view(*value)) {
                (Ok((stories, errors)), v) => listing_children(v) matches Some(children) && stories_view(stories@)
                    == stories_of(children).0 && strs_view(errors@) == stories_of(children).1,
                (Err(ScrapeError::StructureError(m)), v) => (v is Object && listing_children(v) is None
                    && m@ == "Missing children element"@) || (!(v is Object) && m@
                    == "Failed to parse Reddit JSON"@),
                _ => false,
            },
    {
        match value {
            Json::Object(_) => {
                let data = get_member(value, "data");
                let children = member_of(data, "children");
                match children {
                    Some(Json::Array(children)) => {
                        proof {
                            crate::json::lemma_json_views(children@);
                        }
                        let mut stories: Vec<RedditStory> = Vec::new();
                        let mut errors: Vec<String> = Vec::new();
                        let mut i: usize = 0;
                        while i < children.len()
                            invariant
                                i <= children@.len(),
                                json_views(children@).len() == children@.len(),
                                forall|k: int| 0 <= k < children@.len() ==> #[trigger] json_views(children@)[k]
                                    == json_view(children@[k]),
                                stories_view(stories@) == stories_of(json_views(children@).take(i as int)).0,
                                strs_view(errors@) == stories_of(json_views(children@).take(i as int)).1,
                            decreases children@.len() - i,
                        {
                            let ghost cv = json_views(children@);
                            assert(cv.take(i + 1).drop_last() =~= cv.take(i as int));
                            assert(cv.take(i + 1).last() == json_view(children@[i as int]));
                            let position = i as u32;
                            match self.map_story(&children[i], position) {
                                Ok(story) => {
                                    let ghost before = stories_view(stories@);
                                    stories.push(story);
                                    assert(stories_view(stories@) =~= before.push(story.view()));
                                },
                                Err(e) => {
                                    let ghost before = strs_view(errors@);
                                    let ghost ev = e@;
                                    errors.push(e);
                                    assert(strs_view(errors@) =~= before.push(ev));
                                },
                            }
                            i = i + 1;
                        }
                        assert(json_views(children@).take(children@.len() as int) =~= json_views(children@));
                        Ok((stories, errors))
                    },
                    _ => Err(ScrapeError::StructureError("Missing children element".to_owned())),
                }
            },
            _ => Err(ScrapeError::StructureError("Failed to parse Reddit JSON".to_owned())),
        }
    }

    /// Scrapes a Reddit listing page. `None` for a JSON object without a `data` entry, which the
    /// listing format rules out.
    pub fn scrape(&self, args: RedditArgs, input: String) -> (r: Option<Result<(Vec<RedditStory>, Vec<String>), ScrapeError>>)
        ensures
            !json_parses(input@) ==> r matches Some(Err(ScrapeError::Json(_))),
            json_parses(input@) ==> (r is None <==> lacks_data(json_value_of(input@))),
            json_parses(input@) ==> match r {
                Some(Ok((stories, errors))) => listing_children(json_value_of(input@)) matches Some(children)
                    && stories_view(stories@) == stories_of(children).0 && strs_view(errors@) == stories_of(children).1,
                Some(Err(ScrapeError::StructureError(m))) => {
                    let v = json_value_of(input@);
                    (v is Object && listing_children(v) is None && m@ == "Missing children element"@) || (!(
                    v is Object) && m@ == "Failed to parse Reddit JSON"@)
                },
                None => true,
                _ => false,
            },
    {
        let value = match parse_json(input.as_str()) {
            Ok(v) => v,
            Err(e) => {
                return Some(Err(ScrapeError::Json(e)));
            },
        };
        if let Json::Object(_) = &value {
            if !crate::json::has_key(&value, "data") {
                return None;
            }
        }
        Some(self.scrape_value(&value))
    }
}

/// A child of a listing that is a story reports what its `data` holds: the upvotes are the whole
/// number at `ups` and the downvotes the one at `downs`, the comments and score those at
/// `num_comments` and `score`, the date the one at `created_utc`; the title is the text at
/// `title` with its entities decoded, the link the URL at `url` decoded likewise, the subreddit
/// and id the texts at their keys, the flair the text at `link_flair_text` (empty without one);
/// and the story stands at the position given.
pub proof fn lemma_reddit_story_fields(child: JsonView, position: u32)
    ensures
        reddit_story_of(child, position) matches Ok(s) ==> ({
            let data = member(child, "data"@);
            &&& integer_in(member(data, "ups"@), 0, u32::MAX as int) == Some(s.upvotes as int)
            &&& integer_in(member(data, "downs"@), 0, u32::MAX as int) == Some(s.downvotes as int)
            &&& integer_in(member(data, "num_comments"@), 0, u32::MAX as int) == Some(s.num_comments as int)
            &&& integer_in(member(data, "score"@), 0, u32::MAX as int) == Some(s.score as int)
            &&& integer_in(member(data, "created_utc"@), i64::MIN as int, i64::MAX as int) == Some(s.millis)
            &&& as_str(member(data, "title"@)) matches Some(t) && s.title == unescaped(t)
            &&& as_str(member(data, "url"@)) matches Some(u) && story_url_of(unescaped(u)) == Some(s.url)
            &&& as_str(member(data, "subreddit"@)) == Some(s.subreddit)
            &&& as_str(member(data, "id"@)) == Some(s.id)
            &&& s.position == position
            &&& s.flair == (match as_str(member(data, "link_flair_text"@)) {
                Some(f) => f,
                None => Seq::empty(),
            })
            &&& as_str(member(child, "kind"@)) == Some("t3"@)
        }),
{
}

} // verus!
