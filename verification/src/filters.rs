//! Template filters: numbers written with thousands separators, and the links to static files.
use vstd::prelude::*;

use std::sync::Arc;

use crate::json::{as_str, get_str, json_view, Json, JsonView};
use crate::static_files::StaticFileRegistry;
use crate::tagger::assoc_get;
use crate::text::{dec_digits, extend_range, push_dec, push_str, string_of};

verus! {

/// Writes a number with a comma between each group of three digits.
#[derive(Default)]
pub struct CommaFilter {}

/// Digits with a comma before each group of three, counting from the right.
pub open spec fn grouped(d: Seq<char>) -> Seq<char>
    decreases d.len(),
{
    if d.len() <= 3 {
        d
    } else {
        grouped(d.take(d.len() - 3)) + seq![','] + d.skip(d.len() - 3)
    }
}

/// `n` in decimal with thousands separators (the English locale's writing).
pub open spec fn with_commas(n: int) -> Seq<char> {
    if n < 0 {
        seq!['-'] + grouped(dec_digits((-n) as nat))
    } else {
        grouped(dec_digits(n as nat))
    }
}

/// A JSON value read as an `i64`, where it is an integer that fits one.
pub open spec fn json_as_i64(v: JsonView) -> Option<i64> {
    match v {
        JsonView::Number(_, i, _, _) => i,
        _ => None,
    }
}

/// Appends `grouped(d[..n])`.
fn push_grouped(out: &mut Vec<char>, d: &Vec<char>, n: usize)
    requires
        n <= d@.len(),
    ensures
        final(out)@ == old(out)@ + grouped(d@.take(n as int)),
    decreases n,
{
    if n <= 3 {
        extend_range(out, d.as_slice(), 0, n);
        assert(d@.subrange(0, n as int) =~= d@.take(n as int));
    } else {
        push_grouped(out, d, n - 3);
        out.push(',');
        extend_range(out, d.as_slice(), n - 3, n);
        assert(d@.take(n as int).take(n - 3) =~= d@.take(n - 3));
        assert(d@.take(n as int).skip(n - 3) =~= d@.subrange(n - 3, n as int));
        assert(out@ =~= old(out)@ + grouped(d@.take(n as int)));
    }
}

impl CommaFilter {
    /// The value as an integer with thousands separators; 0 where the value is not an integer
    /// that fits an `i64`.
    pub fn filter(&self, value: &Json) -> (r: String)
        ensures
            r@ == with_commas(
                match json_as_i64(json_view(*value)) {
                    Some(n) => n as int,
                    None => 0,
                },
            ),
    {
        let n: i64 = match value {
            Json::Number(num) => match num.as_i64 {
                Some(i) => i,
                None => 0,
            },
            _ => 0,
        };
        let magnitude: u64 = if n >= 0 {
            n as u64
        } else {
            ((-(n + 1)) as u64) + 1
        };
        let mut digits: Vec<char> = Vec::new();
        push_dec(&mut digits, magnitude, 0);
        assert(digits@ =~= dec_digits(magnitude as nat));
        let mut out: Vec<char> = Vec::new();
        if n < 0 {
            out.push('-');
        }
        let ghost before = out@;
        push_grouped(&mut out, &digits, digits.len());
        assert(digits@.take(digits@.len() as int) =~= digits@);
        assert(out@ =~= with_commas(n as int));
        string_of(out.as_slice())
    }
}

/// Turns the key of a static file into the path it is served at.
pub struct StaticFileFilter {
    static_files: Arc<StaticFileRegistry>,
}

/// The path of a static file: `/static/` and the name its key gives, or `<invalid>` for a key the
/// registry does not have; a value that is not a string is the empty key.
pub open spec fn static_path(files: Seq<(Seq<char>, Seq<char>)>, value: JsonView) -> Seq<char> {
    let key = match as_str(value) {
        Some(k) => k,
        None => ""@,
    };
    "/static/"@ + match assoc_get(files, key) {
        Some(name) => name,
        None => "<invalid>"@,
    }
}

impl StaticFileFilter {
    pub fn new(static_files: Arc<StaticFileRegistry>) -> (r: Self)
        ensures
            r.registry() == *static_files,
    {
        Self { static_files }
    }

    /// The registry the filter reads.
    pub closed spec fn registry(&self) -> StaticFileRegistry {
        *self.static_files
    }

    pub fn filter(&self, value: &Json) -> (r: String)
        ensures
            r@ == static_path(self.registry()@.by_key, json_view(*value)),
    {
        let key = match get_str(Some(value)) {
            Some(k) => k,
            None => {
                proof {
                    reveal_strlit("");
                }
                String::new()
            },
        };
        assert(key@ == match as_str(json_view(*value)) {
            Some(k) => k,
            None => ""@,
        });
        let mut s = String::new();
        push_str(&mut s, "/static/");
        assert(s@ =~= "/static/"@);
        let found = self.static_files.lookup_key(key.as_str());
        match found {
            Some(name) => push_str(&mut s, name),
            None => push_str(&mut s, "<invalid>"),
        }
        s
    }
}

} // verus!
