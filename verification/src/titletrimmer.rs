//! Shortening of long titles and removal of `[tag]` markers.
use vstd::prelude::*;

use crate::text::{
    byte_len_at_most, chars_of, contains_seq, extend_range, occurs_at, first_occurrence, is_ascii_alpha, last_occurrence, replace, replace_all, rfind,
    string_of, string_of_range, trim, trim_bounds, trim_seq, utf8_len,
};

verus! {

/// The length a title should ideally not exceed, in bytes.
pub const IDEAL_LENGTH: usize = 150;

/// The length above which a title reads awkwardly, in bytes.
pub const AWKWARD_LENGTH: usize = 200;

/// The longest trailing clause, in bytes, that may be cut at a comma.
pub const MAX_COMMA_CHOP: usize = 50;

pub open spec fn pipe_sep() -> Seq<char> {
    seq![' ', '|', ' ']
}

pub open spec fn sentence_sep() -> Seq<char> {
    seq!['.', ' ']
}

pub open spec fn comma_sep() -> Seq<char> {
    seq![',', ' ']
}

/// The English simplifications, in the order they are applied.
pub open spec fn simplify(t: Seq<char>) -> Seq<char> {
    let t1 = replace_all(t, seq!['A', ' ', 's', 't', 'u', 'd', 'y', ' ', 'o', 'f', ' '], seq!['S', 't', 'u', 'd', 'y', ' ', 'o', 'f', ' ']);
    let t2 = replace_all(t1, seq!['A', ' ', 'r', 'e', 'v', 'i', 'e', 'w'], seq!['R', 'e', 'v', 'i', 'e', 'w']);
    let t3 = replace_all(t2, seq![' ', 'f', 'o', 'u', 'n', 'd', ' ', 't', 'h', 'a', 't', ' '], seq![' ', 'f', 'o', 'u', 'n', 'd', ' ']);
    replace_all(t3, seq![' ', 's', 'h', 'o', 'w', 'e', 'd', ' ', 't', 'h', 'a', 't', ' '], seq![' ', 's', 'h', 'o', 'w', 'e', 'd', ' '])
}

/// Cuts `t` at the last `sep`, again and again, until it is no longer than `limit` bytes or `sep` no
/// longer occurs: `Ok` with the short title, or `Err` with what is left.
pub open spec fn cut_at_last(t: Seq<char>, sep: Seq<char>, limit: nat) -> Result<Seq<char>, Seq<char>>
    decreases t.len(),
{
    match last_occurrence(t, sep) {
        Some(i) => if 0 <= i < t.len() {
            let left = t.take(i);
            if utf8_len(left) <= limit {
                Ok(left)
            } else {
                cut_at_last(left, sep, limit)
            }
        } else {
            Err(t)
        },
        None => Err(t),
    }
}

/// Cuts clauses after the last `, ` (each no longer than the chop limit) and marks the cut with `…`,
/// until the title is no longer than `limit` bytes.
pub open spec fn chop_commas(t: Seq<char>, limit: nat) -> Seq<char>
    decreases t.len(),
{
    match last_occurrence(t, comma_sep()) {
        Some(i) => if 0 <= i && i + 2 <= t.len() {
            let right = t.skip(i + 2);
            if utf8_len(right) > MAX_COMMA_CHOP {
                t
            } else {
                let shorter = t.take(i).push('…');
                if utf8_len(shorter) <= limit {
                    shorter
                } else {
                    chop_commas(shorter, limit)
                }
            }
        } else {
            t
        },
        None => t,
    }
}

/// The trimmed title.
pub open spec fn trimmed_title(t: Seq<char>, ideal: nat, awkward: nat) -> Seq<char> {
    if utf8_len(t) <= ideal {
        t
    } else {
        match cut_at_last(t, pipe_sep(), ideal) {
            Ok(s) => s,
            Err(t1) => match cut_at_last(t1, sentence_sep(), ideal) {
                Ok(s) => s,
                Err(t2) => if utf8_len(t2) <= awkward {
                    t2
                } else {
                    let t3 = simplify(t2);
                    if utf8_len(t3) <= awkward {
                        t3
                    } else {
                        chop_commas(t3, awkward)
                    }
                },
            },
        }
    }
}

fn lit(s: &str) -> (r: Vec<char>)
    ensures
        r@ == s@,
{
    chars_of(s)
}

/// `utf8_len(t) <= limit`, computed without overflow.
fn fits(t: &Vec<char>, limit: usize) -> (r: bool)
    ensures
        r == (utf8_len(t@) <= limit),
{
    byte_len_at_most(t.as_slice(), limit)
}

fn cut_at_last_exec(t: Vec<char>, sep: &Vec<char>, limit: usize) -> (r: Result<Vec<char>, Vec<char>>)
    requires
        sep@.len() > 0,
    ensures
        match (r, cut_at_last(t@, sep@, limit as nat)) {
            (Ok(a), Ok(b)) => a@ == b,
            (Err(a), Err(b)) => a@ == b,
            _ => false,
        },
{
    let mut cur = t;
    loop
        invariant
            sep@.len() > 0,
            cut_at_last(cur@, sep@, limit as nat) == cut_at_last(t@, sep@, limit as nat),
        decreases cur@.len(),
    {
        match rfind(cur.as_slice(), sep.as_slice()) {
            Some(i) => {
                let mut left: Vec<char> = Vec::new();
                extend_range(&mut left, cur.as_slice(), 0, i);
                assert(left@ =~= cur@.take(i as int));
                if fits(&left, limit) {
                    return Ok(left);
                }
                cur = left;
            },
            None => {
                return Err(cur);
            },
        }
    }
}

fn chop_commas_exec(t: Vec<char>, limit: usize) -> (r: Vec<char>)
    ensures
        r@ == chop_commas(t@, limit as nat),
{
    let sep = lit(", ");
    proof {
        reveal_strlit(", ");
    }
    assert(sep@ == comma_sep());
    let mut cur = t;
    loop
        invariant
            sep@ == comma_sep(),
            chop_commas(cur@, limit as nat) == chop_commas(t@, limit as nat),
        decreases cur@.len(),
    {
        match rfind(cur.as_slice(), sep.as_slice()) {
            Some(i) => {
                let mut right: Vec<char> = Vec::new();
                let n = cur.len();
                extend_range(&mut right, cur.as_slice(), i + 2, n);
                assert(right@ =~= cur@.skip(i + 2));
                if !fits(&right, MAX_COMMA_CHOP) {
                    return cur;
                }
                let mut left: Vec<char> = Vec::new();
                extend_range(&mut left, cur.as_slice(), 0, i);
                left.push('…');
                assert(left@ =~= cur@.take(i as int).push('…'));
                if fits(&left, limit) {
                    return left;
                }
                cur = left;
            },
            None => {
                return cur;
            },
        }
    }
}

/// Shortens a title to about `ideal_length` bytes: cuts at the last ` | `, then at the last `. `,
/// accepts anything up to `awkward_length` bytes, then simplifies some English phrasing and
/// finally cuts short clauses at commas (marking the cut with `…`).
pub fn trim_title(title: &str, ideal_length: usize, awkward_length: usize) -> (r: String)
    ensures
        r@ == trimmed_title(title@, ideal_length as nat, awkward_length as nat),
{
    let t = chars_of(title);
    if fits(&t, ideal_length) {
        return string_of(t.as_slice());
    }
    let pipe = lit(" | ");
    let dot = lit(". ");
    proof {
        reveal_strlit(" | ");
        reveal_strlit(". ");
    }
    assert(pipe@ == pipe_sep());
    assert(dot@ == sentence_sep());
    let t1 = match cut_at_last_exec(t, &pipe, ideal_length) {
        Ok(s) => {
            return string_of(s.as_slice());
        },
        Err(rest) => rest,
    };
    let t2 = match cut_at_last_exec(t1, &dot, ideal_length) {
        Ok(s) => {
            return string_of(s.as_slice());
        },
        Err(rest) => rest,
    };
    if fits(&t2, awkward_length) {
        return string_of(t2.as_slice());
    }
    let a1 = lit("A study of ");
    let b1 = lit("Study of ");
    let a2 = lit("A review");
    let b2 = lit("Review");
    let a3 = lit(" found that ");
    let b3 = lit(" found ");
    let a4 = lit(" showed that ");
    let b4 = lit(" showed ");
    proof {
        reveal_strlit("A study of ");
        reveal_strlit("Study of ");
        reveal_strlit("A review");
        reveal_strlit("Review");
        reveal_strlit(" found that ");
        reveal_strlit(" found ");
        reveal_strlit(" showed that ");
        reveal_strlit(" showed ");
    }
    assert(a1@ =~= seq!['A', ' ', 's', 't', 'u', 'd', 'y', ' ', 'o', 'f', ' ']);
    assert(b1@ =~= seq!['S', 't', 'u', 'd', 'y', ' ', 'o', 'f', ' ']);
    assert(a2@ =~= seq!['A', ' ', 'r', 'e', 'v', 'i', 'e', 'w']);
    assert(b2@ =~= seq!['R', 'e', 'v', 'i', 'e', 'w']);
    assert(a3@ =~= seq![' ', 'f', 'o', 'u', 'n', 'd', ' ', 't', 'h', 'a', 't', ' ']);
    assert(b3@ =~= seq![' ', 'f', 'o', 'u', 'n', 'd', ' ']);
    assert(a4@ =~= seq![' ', 's', 'h', 'o', 'w', 'e', 'd', ' ', 't', 'h', 'a', 't', ' ']);
    assert(b4@ =~= seq![' ', 's', 'h', 'o', 'w', 'e', 'd', ' ']);
    let s1 = replace(t2.as_slice(), a1.as_slice(), b1.as_slice());
    let s2 = replace(s1.as_slice(), a2.as_slice(), b2.as_slice());
    let s3 = replace(s2.as_slice(), a3.as_slice(), b3.as_slice());
    let t3 = replace(s3.as_slice(), a4.as_slice(), b4.as_slice());
    assert(t3@ == simplify(t2@));
    if fits(&t3, awkward_length) {
        return string_of(t3.as_slice());
    }
    let r = chop_commas_exec(t3, awkward_length);
    string_of(r.as_slice())
}

/// A tag is one to nine ASCII letters.
pub open spec fn is_valid_tag(t: Seq<char>) -> bool {
    0 < t.len() < 10 && forall|i: int| 0 <= i < t.len() ==> is_ascii_alpha(#[trigger] t[i])
}

/// The bounds and tags that `remove_tags` finds in the trimmed title `t`:
/// `(start, end, leading tag, trailing tag)`.
pub open spec fn tag_bounds(t: Seq<char>) -> (int, int, Option<Seq<char>>, Option<Seq<char>>) {
    let lead: Option<int> = if t.len() > 0 && t[0] == '[' {
        match first_occurrence(t, seq![']']) {
            Some(e) => if 1 <= e <= t.len() && is_valid_tag(t.subrange(1, e)) { Some(e) } else { None },
            None => None,
        }
    } else {
        None
    };
    let start = match lead {
        Some(e) => e + 1,
        None => 0,
    };
    let trail: Option<int> = if t.len() > 0 && t.last() == ']' {
        match last_occurrence(t, seq!['[']) {
            Some(s) => if 0 <= s && s + 1 <= t.len() - 1 && is_valid_tag(t.subrange(s + 1, t.len() - 1)) { Some(s) } else { None },
            None => None,
        }
    } else {
        None
    };
    let end = match trail {
        Some(s) => s,
        None => t.len() as int,
    };
    (
        start,
        end,
        match lead {
            Some(e) => Some(t.subrange(1, e)),
            None => None,
        },
        match trail {
            Some(s) => Some(t.subrange(s + 1, t.len() - 1)),
            None => None,
        },
    )
}

/// `remove_tags` slices the title from the end of a leading tag to the start of a trailing one;
/// when the two tags overlap (`[abc]`) that slice does not exist.
pub open spec fn tags_overlap(title: Seq<char>) -> bool {
    let (start, end, _, _) = tag_bounds(trim_seq(title));
    start > end
}

fn is_valid_tag_exec(t: &Vec<char>, a: usize, b: usize) -> (r: bool)
    requires
        a <= b <= t@.len(),
    ensures
        r == is_valid_tag(t@.subrange(a as int, b as int)),
{
    if b - a == 0 || b - a >= 10 {
        return false;
    }
    let mut i = a;
    while i < b
        invariant
            a <= i <= b <= t@.len(),
            forall|j: int| a <= j < i ==> is_ascii_alpha(#[trigger] t@[j]),
        decreases b - i,
    {
        let c = t[i];
        if !(('a' <= c && c <= 'z') || ('A' <= c && c <= 'Z')) {
            assert(t@.subrange(a as int, b as int)[i - a] == c);
            return false;
        }
        i = i + 1;
    }
    assert forall|j: int| 0 <= j < b - a implies is_ascii_alpha(#[trigger] t@.subrange(a as int, b as int)[j]) by {
        assert(t@.subrange(a as int, b as int)[j] == t@[a + j]);
    }
    true
}

/// Removes a `[tag]` from the start and/or the end of a title: the trimmed title without them,
/// then the leading and the trailing tag.
pub fn remove_tags(title: &str) -> (r: (String, Option<String>, Option<String>))
    requires
        !tags_overlap(title@),
    ensures
        ({
            let t = trim_seq(title@);
            let (start, end, lead, trail) = tag_bounds(t);
            &&& r.0@ == trim_seq(t.subrange(start, end))
            &&& crate::tagger::opt_view(r.1) == lead
            &&& crate::tagger::opt_view(r.2) == trail
        }),
{
    let raw = chars_of(title);
    let t = trim(raw.as_slice());
    let n = t.len();
    let ghost tv = t@;
    let mut start: usize = 0;
    let mut end: usize = n;
    let mut start_tag: Option<String> = None;
    let mut end_tag: Option<String> = None;
    if n > 0 && t[0] == '[' {
        let close = vec![']'];
        match crate::text::find(t.as_slice(), close.as_slice()) {
            Some(e) => {
                assert(close@ == seq![']']);
                if e >= 1 && is_valid_tag_exec(&t, 1, e) {
                    start_tag = Some(string_of_range(t.as_slice(), 1, e));
                    start = e + 1;
                }
            },
            None => {
                assert(close@ == seq![']']);
            },
        }
    }
    if n > 0 && t[n - 1] == ']' {
        let open = vec!['['];
        assert(open@ == seq!['[']);
        match rfind(t.as_slice(), open.as_slice()) {
            Some(s) => {
                assert(crate::text::occurs_at(tv, seq!['['], s as int));
                if s + 1 <= n - 1 && is_valid_tag_exec(&t, s + 1, n - 1) {
                    end_tag = Some(string_of_range(t.as_slice(), s + 1, n - 1));
                    end = s;
                }
            },
            None => {},
        }
    }
    assert(tv.last() == tv[n - 1]) by {
        if n > 0 {
        }
    }
    let (a, b) = trim_bounds_range(&t, start, end);
    (string_of_range(t.as_slice(), a, b), start_tag, end_tag)
}

/// The bounds of `t[start..end]` without its leading and trailing whitespace, relative to `t`.
fn trim_bounds_range(t: &Vec<char>, start: usize, end: usize) -> (r: (usize, usize))
    requires
        start <= end <= t@.len(),
    ensures
        start <= r.0 <= r.1 <= end,
        t@.subrange(r.0 as int, r.1 as int) == trim_seq(t@.subrange(start as int, end as int)),
{
    let mut piece: Vec<char> = Vec::new();
    extend_range(&mut piece, t.as_slice(), start, end);
    let (a, b) = trim_bounds(piece.as_slice());
    assert(piece@.subrange(a as int, b as int) =~= t@.subrange(start + a, start + b));
    (start + a, start + b)
}

proof fn lemma_last_occurrence_facts(t: Seq<char>, sep: Seq<char>)
    ensures
        last_occurrence(t, sep) matches Some(i) ==> occurs_at(t, sep, i) && forall|j: int|
            i < j ==> !#[trigger] occurs_at(t, sep, j),
        last_occurrence(t, sep) is None ==> !contains_seq(t, sep),
{
    reveal(last_occurrence);
    if contains_seq(t, sep) {
        let j0 = choose|j: int| occurs_at(t, sep, j);
        lemma_some_last(t, sep, j0);
    }
}

proof fn lemma_some_last(t: Seq<char>, sep: Seq<char>, j0: int)
    requires
        occurs_at(t, sep, j0),
    ensures
        exists|i: int| occurs_at(t, sep, i) && forall|j: int| i < j ==> !#[trigger] occurs_at(t, sep, j),
    decreases t.len() - j0,
{
    if exists|j: int| j0 < j && #[trigger] occurs_at(t, sep, j) {
        let j = choose|j: int| j0 < j && #[trigger] occurs_at(t, sep, j);
        lemma_some_last(t, sep, j);
    } else {
        assert(forall|j: int| j0 < j ==> !#[trigger] occurs_at(t, sep, j));
    }
}

proof fn lemma_occurs_in_prefix(t: Seq<char>, sep: Seq<char>, i: int, a: int)
    requires
        0 <= i <= t.len(),
    ensures
        occurs_at(t.take(i), sep, a) <==> (occurs_at(t, sep, a) && a + sep.len() <= i),
{
    if 0 <= a && a + sep.len() <= i {
        assert(t.take(i).subrange(a, a + sep.len() as int) =~= t.subrange(a, a + sep.len() as int));
    }
}

/// Cutting a title at the last separator, again while it is too long, keeps a prefix of the title
/// that ends just before an occurrence of the separator and fits the limit, and no later
/// occurrence would have given one that fits: the cut is at the last place where it can be. Where
/// no cut fits, what is left is a prefix of the title without the separator, and no occurrence of
/// the separator gives a prefix that fits. (Occurrences of the separator that overlap each other
/// are left out.)
pub proof fn lemma_cut_at_last_longest(t: Seq<char>, sep: Seq<char>, limit: nat)
    requires
        sep.len() > 0,
        forall|a: int, b: int|
            0 <= a < b < a + sep.len() && #[trigger] occurs_at(t, sep, a) ==> !#[trigger] occurs_at(t, sep, b),
    ensures
        cut_at_last(t, sep, limit) matches Ok(r) ==> ({
            &&& r.len() < t.len()
            &&& r == t.take(r.len() as int)
            &&& occurs_at(t, sep, r.len() as int)
            &&& utf8_len(r) <= limit
            &&& forall|j: int| r.len() < j && #[trigger] occurs_at(t, sep, j) ==> utf8_len(t.take(j)) > limit
        }),
        cut_at_last(t, sep, limit) matches Err(r) ==> ({
            &&& r.len() <= t.len()
            &&& r == t.take(r.len() as int)
            &&& !contains_seq(r, sep)
            &&& forall|j: int| #[trigger] occurs_at(t, sep, j) ==> utf8_len(t.take(j)) > limit
        }),
    decreases t.len(),
{
    lemma_last_occurrence_facts(t, sep);
    match last_occurrence(t, sep) {
        Some(i) => {
            assert(0 <= i < t.len());
            let left = t.take(i);
            if utf8_len(left) <= limit {
                assert(left.len() == i);
            } else {
                assert forall|a: int, b: int|
                    0 <= a < b < a + sep.len() && #[trigger] occurs_at(left, sep, a) implies !#[trigger] occurs_at(
                    left,
                    sep,
                    b,
                ) by {
                    lemma_occurs_in_prefix(t, sep, i, a);
                    lemma_occurs_in_prefix(t, sep, i, b);
                }
                lemma_cut_at_last_longest(left, sep, limit);
                match cut_at_last(left, sep, limit) {
                    Ok(r) => {
                        assert(r =~= t.take(r.len() as int));
                        lemma_occurs_in_prefix(t, sep, i, r.len() as int);
                        assert forall|j: int| r.len() < j && #[trigger] occurs_at(t, sep, j) implies utf8_len(
                            t.take(j),
                        ) > limit by {
                            lemma_occurs_in_prefix(t, sep, i, j);
                            if j < i && j + sep.len() <= i {
                                assert(left.take(j) =~= t.take(j));
                            }
                        }
                    },
                    Err(r) => {
                        assert(r =~= t.take(r.len() as int));
                        assert forall|j: int| #[trigger] occurs_at(t, sep, j) implies utf8_len(t.take(j)) > limit by {
                            lemma_occurs_in_prefix(t, sep, i, j);
                            if j < i && j + sep.len() <= i {
                                assert(left.take(j) =~= t.take(j));
                            }
                        }
                    },
                }
            }
        },
        None => {
            assert(t.take(t.len() as int) =~= t);
            assert forall|j: int| #[trigger] occurs_at(t, sep, j) implies utf8_len(t.take(j)) > limit by {
                assert(contains_seq(t, sep));
            }
        },
    }
}

} // verus!
