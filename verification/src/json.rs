//! JSON documents as plain values: what `serde_json` parses, and lookups into it.
use vstd::prelude::*;

use crate::text::dec_digits;

verus! {

#[verifier::external_type_specification]
#[verifier::external_body]
pub struct ExJsonNumber(serde_json::Number);

#[verifier::external_type_specification]
#[verifier::external_body]
pub struct ExJsonError(serde_json::Error);

#[verifier::external_type_specification]
#[verifier::external_body]
pub struct ExJsonValue(serde_json::Value);

/// A JSON number: its value as `u64`, as `i64` and as `f64` truncated to `i64` where each exists,
/// its text as `serde_json` writes it, and the number itself.
pub struct JsonNumber {
    pub as_u64: Option<u64>,
    pub as_i64: Option<i64>,
    pub as_f64_truncated: Option<i64>,
    pub text: String,
    pub raw: serde_json::Number,
}

/// A JSON value; an object's entries in the order the parser keeps them.
pub enum Json {
    Null,
    Bool(bool),
    Number(JsonNumber),
    Str(String),
    Array(Vec<Json>),
    Object(Vec<(String, Json)>),
}

/// A JSON value as plain values.
pub enum JsonView {
    Null,
    Bool(bool),
    Number(Option<u64>, Option<i64>, Option<i64>, Seq<char>),
    Str(Seq<char>),
    Array(Seq<JsonView>),
    Object(Seq<(Seq<char>, JsonView)>),
}

pub open spec fn json_view(j: Json) -> JsonView
    decreases j,
{
    match j {
        Json::Null => JsonView::Null,
        Json::Bool(b) => JsonView::Bool(b),
        Json::Number(n) => number_view(n),
        Json::Str(s) => JsonView::Str(s@),
        Json::Array(v) => JsonView::Array(json_views(v@)),
        Json::Object(v) => JsonView::Object(entry_views(v@)),
    }
}

pub open spec fn json_views(s: Seq<Json>) -> Seq<JsonView>
    decreases s,
{
    if s.len() == 0 {
        Seq::empty()
    } else {
        seq![json_view(s[0])] + json_views(s.skip(1))
    }
}

pub open spec fn entry_views(s: Seq<(String, Json)>) -> Seq<(Seq<char>, JsonView)>
    decreases s,
{
    if s.len() == 0 {
        Seq::empty()
    } else {
        seq![(s[0].0@, json_view(s[0].1))] + entry_views(s.skip(1))
    }
}

/// A JSON number as plain values.
pub open spec fn number_view(n: JsonNumber) -> JsonView {
    JsonView::Number(n.as_u64, n.as_i64, n.as_f64_truncated, n.text@)
}

/// Whether `serde_json` parses the text as a JSON value.
pub uninterp spec fn json_parses(text: Seq<char>) -> bool;

/// The value `serde_json` parses the text as.
pub uninterp spec fn json_value_of(text: Seq<char>) -> JsonView;

/// Converts a parsed `serde_json::Value`, variant by variant.
#[verifier::external_body]
fn json_from_value(v: serde_json::Value) -> Json {
    match v {
        serde_json::Value::Null => Json::Null,
        serde_json::Value::Bool(b) => Json::Bool(b),
        serde_json::Value::Number(n) => Json::Number(
            JsonNumber { as_u64: n.as_u64(), as_i64: n.as_i64(), as_f64_truncated: n.as_f64().map(|f| f as i64), text: n.to_string(), raw: n },
        ),
        serde_json::Value::String(s) => Json::Str(s),
        serde_json::Value::Array(a) => Json::Array(a.into_iter().map(json_from_value).collect()),
        serde_json::Value::Object(o) => Json::Object(o.into_iter().map(|(k, v)| (k, json_from_value(v))).collect()),
    }
}

/// `serde_json::Number::from` a `u64`, converted as a parsed number is: a number up to `2^53`
/// is itself as `u64`, as `i64` and as `f64`, and is written in decimal.
#[verifier::external_body]
pub(crate) fn json_number_from_u64(n: u64) -> (r: JsonNumber)
    requires
        n <= 0x20_0000_0000_0000,
    ensures
        number_view(r) == JsonView::Number(Some(n), Some(n as i64), Some(n as i64), dec_digits(n as nat)),
{
    let raw = serde_json::Number::from(n);
    JsonNumber {
        as_u64: raw.as_u64(),
        as_i64: raw.as_i64(),
        as_f64_truncated: raw.as_f64().map(|f| f as i64),
        text: raw.to_string(),
        raw,
    }
}

/// `serde_json::from_str` into a `serde_json::Value`, converted.
#[verifier::external_body]
pub(crate) fn parse_json(text: &str) -> (r: Result<Json, serde_json::Error>)
    ensures
        r is Ok <==> json_parses(text@),
        r matches Ok(j) ==> json_view(j) == json_value_of(text@),
{
    match serde_json::from_str::<serde_json::Value>(text) {
        Ok(v) => Ok(json_from_value(v)),
        Err(e) => Err(e),
    }
}

/// The position of the first entry named `key`.
pub open spec fn entry_index(entries: Seq<(Seq<char>, JsonView)>, key: Seq<char>) -> Option<int>
    decreases entries.len(),
{
    if entries.len() == 0 {
        None
    } else if entries[0].0 == key {
        Some(0)
    } else {
        match entry_index(entries.skip(1), key) {
            Some(i) => Some(i + 1),
            None => None,
        }
    }
}

/// `value[key]`: the entry named `key` of an object, and `null` for anything else.
pub open spec fn member(j: JsonView, key: Seq<char>) -> JsonView {
    match j {
        JsonView::Object(entries) => match entry_index(entries, key) {
            Some(i) => entries[i].1,
            None => JsonView::Null,
        },
        _ => JsonView::Null,
    }
}

pub open spec fn as_str(j: JsonView) -> Option<Seq<char>> {
    match j {
        JsonView::Str(s) => Some(s),
        _ => None,
    }
}

proof fn lemma_entry_views(s: Seq<(String, Json)>)
    ensures
        entry_views(s).len() == s.len(),
        forall|i: int| 0 <= i < s.len() ==> #[trigger] entry_views(s)[i] == (s[i].0@, json_view(s[i].1)),
    decreases s.len(),
{
    if s.len() > 0 {
        lemma_entry_views(s.skip(1));
        assert forall|i: int| 0 <= i < s.len() implies #[trigger] entry_views(s)[i] == (s[i].0@, json_view(s[i].1)) by {
            if i > 0 {
                assert(entry_views(s)[i] == entry_views(s.skip(1))[i - 1]);
                assert(s.skip(1)[i - 1] == s[i]);
            }
        }
    }
}

pub proof fn lemma_json_views(s: Seq<Json>)
    ensures
        json_views(s).len() == s.len(),
        forall|i: int| 0 <= i < s.len() ==> #[trigger] json_views(s)[i] == json_view(s[i]),
    decreases s.len(),
{
    if s.len() > 0 {
        lemma_json_views(s.skip(1));
        assert forall|i: int| 0 <= i < s.len() implies #[trigger] json_views(s)[i] == json_view(s[i]) by {
            if i > 0 {
                assert(json_views(s)[i] == json_views(s.skip(1))[i - 1]);
                assert(s.skip(1)[i - 1] == s[i]);
            }
        }
    }
}

proof fn lemma_entry_index(e: Seq<(Seq<char>, JsonView)>, key: Seq<char>, i: int)
    requires
        0 <= i < e.len(),
        e[i].0 == key,
        forall|j: int| 0 <= j < i ==> e[j].0 != key,
    ensures
        entry_index(e, key) == Some(i),
    decreases i,
{
    if i > 0 {
        assert forall|j: int| 0 <= j < i - 1 implies e.skip(1)[j].0 != key by {
            assert(e.skip(1)[j] == e[j + 1]);
        }
        lemma_entry_index(e.skip(1), key, i - 1);
    }
}

proof fn lemma_no_entry(e: Seq<(Seq<char>, JsonView)>, key: Seq<char>)
    requires
        forall|j: int| 0 <= j < e.len() ==> e[j].0 != key,
    ensures
        entry_index(e, key) is None,
    decreases e.len(),
{
    if e.len() > 0 {
        assert forall|j: int| 0 <= j < e.len() - 1 implies e.skip(1)[j].0 != key by {
            assert(e.skip(1)[j] == e[j + 1]);
        }
        lemma_no_entry(e.skip(1), key);
    }
}

/// `value[key]`; `None` stands for `null`.
pub fn get_member<'a>(j: &'a Json, key: &str) -> (r: Option<&'a Json>)
    ensures
        match r {
            Some(x) => json_view(*x) == member(json_view(*j), key@),
            None => member(json_view(*j), key@) == JsonView::Null,
        },
{
    match j {
        Json::Object(entries) => {
            proof {
                lemma_entry_views(entries@);
            }
            let mut i: usize = 0;
            while i < entries.len()
                invariant
                    i <= entries@.len(),
                    json_view(*j) == JsonView::Object(entry_views(entries@)),
                    entry_views(entries@).len() == entries@.len(),
                    forall|k: int| 0 <= k < entries@.len() ==> #[trigger] entry_views(entries@)[k] == (
                        entries@[k].0@,
                        json_view(entries@[k].1),
                    ),
                    forall|k: int| 0 <= k < i ==> entries@[k].0@ != key@,
                decreases entries@.len() - i,
            {
                if crate::text::str_eq(entries[i].0.as_str(), key) {
                    proof {
                        let e = entry_views(entries@);
                        assert forall|k: int| 0 <= k < i implies e[k].0 != key@ by {
                            assert(e[k] == (entries@[k].0@, json_view(entries@[k].1)));
                        }
                        lemma_entry_index(e, key@, i as int);
                    }
                    return Some(&entries[i].1);
                }
                i = i + 1;
            }
            proof {
                let e = entry_views(entries@);
                assert forall|k: int| 0 <= k < e.len() implies e[k].0 != key@ by {
                    assert(e[k] == (entries@[k].0@, json_view(entries@[k].1)));
                }
                lemma_no_entry(e, key@);
            }
            None
        },
        _ => None,
    }
}

/// Whether a value is an object with an entry named `key`.
pub fn has_key(j: &Json, key: &str) -> (r: bool)
    ensures
        r == match json_view(*j) {
            JsonView::Object(e) => entry_index(e, key@) is Some,
            _ => false,
        },
{
    match j {
        Json::Object(entries) => {
            proof {
                lemma_entry_views(entries@);
            }
            let mut i: usize = 0;
            while i < entries.len()
                invariant
                    i <= entries@.len(),
                    json_view(*j) == JsonView::Object(entry_views(entries@)),
                    entry_views(entries@).len() == entries@.len(),
                    forall|k: int| 0 <= k < entries@.len() ==> #[trigger] entry_views(entries@)[k] == (
                        entries@[k].0@,
                        json_view(entries@[k].1),
                    ),
                    forall|k: int| 0 <= k < i ==> entries@[k].0@ != key@,
                decreases entries@.len() - i,
            {
                if crate::text::str_eq(entries[i].0.as_str(), key) {
                    proof {
                        let e = entry_views(entries@);
                        assert forall|k: int| 0 <= k < i implies e[k].0 != key@ by {
                            assert(e[k] == (entries@[k].0@, json_view(entries@[k].1)));
                        }
                        lemma_entry_index(e, key@, i as int);
                    }
                    return true;
                }
                i = i + 1;
            }
            proof {
                let e = entry_views(entries@);
                assert forall|k: int| 0 <= k < e.len() implies e[k].0 != key@ by {
                    assert(e[k] == (entries@[k].0@, json_view(entries@[k].1)));
                }
                lemma_no_entry(e, key@);
            }
            false
        },
        _ => false,
    }
}

/// The string a value holds, if it is one.
pub fn get_str(j: Option<&Json>) -> (r: Option<String>)
    ensures
        match j {
            Some(x) => crate::tagger::opt_view(r) == as_str(json_view(*x)),
            None => r is None,
        },
{
    match j {
        Some(Json::Str(s)) => Some(s.clone()),
        _ => None,
    }
}

} // verus!
