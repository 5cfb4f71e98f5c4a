//! URL normalization: a URL becomes a stream of tokens (host without a `www` prefix, the path
//! without a trailing file extension, the sorted query without tracking parameters, a `#!`
//! fragment), and two URLs with equal token streams are the same story.
use vstd::prelude::*;

use crate::tagger::chars_views;
use crate::tagset::{compare_chars, seq_less};
use crate::text::{
    byte_len_at_most, chars_of, contains_seq, extend_range, find, first_occurrence, last_occurrence,
    rfind, string_of, utf8_len,
};
use crate::url::{url_fragment, url_host, url_path_segments, url_query, ParsedUrl};

verus! {

#[verifier::external_type_specification]
#[verifier::external_body]
pub struct ExRegex(regex::Regex);

// ---------------------------------------------------------------------------
// The three patterns
// ---------------------------------------------------------------------------

/// The tracking parameters that a query may hold without changing the story.
pub open spec fn ignored_query_params() -> Seq<Seq<char>> {
    seq![
        "utm_source"@,
        "utm_medium"@,
        "utm_campaign"@,
        "utm_term"@,
        "utm_content"@,
        "utm_expid"@,
        "gclid"@,
        "_ga"@,
        "_gl"@,
        "msclkid"@,
        "fbclid"@,
        "mc_cid"@,
        "mc_eid"@,
    ]
}

/// The query-parameter pattern (the parameters joined by `|`, unanchored) matches `key`: some
/// ignored parameter occurs in it.
pub open spec fn is_ignored_param(key: Seq<char>) -> bool {
    exists|i: int| 0 <= i < ignored_query_params().len() && contains_seq(key, #[trigger] ignored_query_params()[i])
}

pub open spec fn is_ascii_letter(c: char) -> bool {
    ('a' <= c && c <= 'z') || ('A' <= c && c <= 'Z')
}

pub open spec fn is_ascii_digit_char(c: char) -> bool {
    '0' <= c && c <= '9'
}

/// The extension pattern `[a-zA-Z]+[0-9]?$` matches `b`: it ends with a letter, or with a letter
/// and one digit.
pub open spec fn is_trimmable_ext(b: Seq<char>) -> bool {
    (b.len() >= 1 && is_ascii_letter(b.last())) || (b.len() >= 2 && is_ascii_digit_char(b.last())
        && is_ascii_letter(b[b.len() - 2]))
}

/// The number of ASCII digits `s` starts with.
pub open spec fn digit_run(s: Seq<char>) -> nat
    decreases s.len(),
{
    if s.len() > 0 && is_ascii_digit_char(s[0]) {
        1 + digit_run(s.skip(1))
    } else {
        0
    }
}

/// Where a match of the `www` pattern `www?[0-9]*\.` that starts at `p` ends, if one does.
pub open spec fn www_match_end(h: Seq<char>, p: int) -> Option<int> {
    if 0 <= p && p + 2 <= h.len() && h[p] == 'w' && h[p + 1] == 'w' {
        let q = if p + 2 < h.len() && h[p + 2] == 'w' { p + 3 } else { p + 2 };
        let r = q + digit_run(h.skip(q));
        if r < h.len() && h[r] == '.' {
            Some(r + 1)
        } else {
            None
        }
    } else {
        None
    }
}

/// The end of the leftmost match of the `www` pattern at or after `p`.
pub open spec fn first_www_match(h: Seq<char>, p: int) -> Option<int>
    decreases h.len() - p,
{
    if p < 0 || p >= h.len() {
        None
    } else {
        match www_match_end(h, p) {
            Some(e) => Some(e),
            None => first_www_match(h, p + 1),
        }
    }
}

/// What follows the leftmost match of the `www` pattern in the host, if there is one.
pub open spec fn www_tail(h: Seq<char>) -> Option<Seq<char>> {
    match first_www_match(h, 0) {
        Some(e) => if 0 <= e <= h.len() {
            Some(h.skip(e))
        } else {
            None
        },
        None => None,
    }
}

/// The compiled patterns that normalization uses, each with the text it was compiled from.
pub struct UrlPatterns {
    www_prefix: regex::Regex,
    query_param: regex::Regex,
    trim_extension: regex::Regex,
    www_text: String,
    param_text: String,
    extension_text: String,
}

/// The pattern of the `www` prefixes of hosts.
pub open spec fn www_pattern_text() -> Seq<char> {
    "www?[0-9]*\\."@
}

/// The pattern of the ignored query parameters: their names joined by `|`.
pub open spec fn param_pattern_text() -> Seq<char> {
    "utm_source|utm_medium|utm_campaign|utm_term|utm_content|utm_expid|gclid|_ga|_gl|msclkid|fbclid|mc_cid|mc_eid"@
}

/// The pattern of the extensions trimmed from the last path segment.
pub open spec fn extension_pattern_text() -> Seq<char> {
    "[a-zA-Z]+[0-9]?$"@
}

impl UrlPatterns {
    /// Whether the patterns are those normalization uses: `www?[0-9]*\.` for host prefixes, the
    /// ignored query parameters joined by `|`, and `[a-zA-Z]+[0-9]?$` for path extensions.
    pub closed spec fn is_standard(&self) -> bool {
        &&& self.www_text@ == www_pattern_text()
        &&& self.param_text@ == param_pattern_text()
        &&& self.extension_text@ == extension_pattern_text()
    }

    /// The three patterns, compiled.
    pub fn new() -> (r: UrlPatterns)
        ensures
            r.is_standard(),
    {
        Self::compile(
            "www?[0-9]*\\.",
            "utm_source|utm_medium|utm_campaign|utm_term|utm_content|utm_expid|gclid|_ga|_gl|msclkid|fbclid|mc_cid|mc_eid",
            "[a-zA-Z]+[0-9]?$",
        )
    }

    /// `Regex::new` of the three patterns, each kept with its text. The patterns are those of
    /// normalization, all of which compile.
    #[verifier::external_body]
    fn compile(www: &str, param: &str, extension: &str) -> (r: UrlPatterns)
        requires
            www@ == www_pattern_text(),
            param@ == param_pattern_text(),
            extension@ == extension_pattern_text(),
        ensures
            r.www_text@ == www@,
            r.param_text@ == param@,
            r.extension_text@ == extension@,
    {
        UrlPatterns {
            www_prefix: regex::Regex::new(www).unwrap(),
            query_param: regex::Regex::new(param).unwrap(),
            trim_extension: regex::Regex::new(extension).unwrap(),
            www_text: www.to_owned(),
            param_text: param.to_owned(),
            extension_text: extension.to_owned(),
        }
    }

    /// `Regex::splitn(host, 2)` with the `www` pattern: the piece after the first match.
    #[verifier::external_body]
    fn www_tail(&self, host: &str) -> (r: Option<String>)
        requires
            self.is_standard(),
        ensures
            crate::tagger::opt_view(r) == www_tail(host@),
    {
        self.www_prefix.splitn(host, 2).nth(1).map(|t| t.to_owned())
    }

    /// `Regex::is_match` with the query-parameter pattern.
    #[verifier::external_body]
    fn is_ignored(&self, key: &str) -> (r: bool)
        requires
            self.is_standard(),
        ensures
            r == is_ignored_param(key@),
    {
        self.query_param.is_match(key)
    }

    /// `Regex::is_match_at(b, 0)` with the extension pattern.
    #[verifier::external_body]
    fn is_trimmable(&self, b: &str) -> (r: bool)
        requires
            self.is_standard(),
        ensures
            r == is_trimmable_ext(b@),
    {
        self.trim_extension.is_match_at(b, 0)
    }
}

// ---------------------------------------------------------------------------
// Tokens
// ---------------------------------------------------------------------------

/// A token of a normalized URL.
#[derive(Clone, Debug, PartialEq, Eq)]
pub struct CompareToken(pub String);


/// The non-empty sequences of `s`, in order.
pub open spec fn nonempty(s: Seq<Seq<char>>) -> Seq<Seq<char>>
    decreases s.len(),
{
    if s.len() == 0 {
        s
    } else if s.last().len() > 0 {
        nonempty(s.drop_last()).push(s.last())
    } else {
        nonempty(s.drop_last())
    }
}

/// The host token: the host (empty when there is none) without the leftmost `www` match and what
/// precedes it.
pub open spec fn host_token(host: Option<Seq<char>>) -> Seq<char> {
    let h = match host {
        Some(h) => h,
        None => Seq::empty(),
    };
    match www_tail(h) {
        Some(t) => t,
        None => h,
    }
}

/// The last path segment, without an extension of at most six bytes that the extension pattern
/// matches.
pub open spec fn last_segment_token(seg: Seq<char>) -> Seq<char> {
    match last_occurrence(seg, seq!['.']) {
        Some(k) => if 0 <= k < seg.len() {
            let b = seg.skip(k + 1);
            if utf8_len(b) <= 6 && is_trimmable_ext(b) {
                seg.take(k)
            } else {
                seg
            }
        } else {
            seg
        },
        None => seg,
    }
}

/// The path tokens: the non-empty segments, the last one without its extension.
pub open spec fn path_tokens(segs: Option<Seq<Seq<char>>>) -> Seq<Seq<char>> {
    match segs {
        None => Seq::empty(),
        Some(s) => {
            let ne = nonempty(s);
            if ne.len() == 0 {
                Seq::empty()
            } else {
                ne.drop_last().push(last_segment_token(ne.last()))
            }
        },
    }
}

/// `s` split at every `c`, as `str::split` does: the empty text is one empty piece.
pub open spec fn split_on(s: Seq<char>, c: char) -> Seq<Seq<char>>
    decreases s.len(),
{
    if s.len() == 0 {
        seq![Seq::empty()]
    } else {
        let prev = split_on(s.drop_last(), c);
        if s.last() == c {
            prev.push(Seq::empty())
        } else {
            prev.drop_last().push(prev.last().push(s.last()))
        }
    }
}

/// The pairs a query piece contributes: `(key, value)` when it holds a `=`, and always
/// `(piece, "")`.
pub open spec fn bit_pairs(bit: Seq<char>) -> Seq<(Seq<char>, Seq<char>)> {
    match first_occurrence(bit, seq!['=']) {
        Some(k) => if 0 <= k < bit.len() {
            seq![(bit.take(k), bit.skip(k + 1)), (bit, Seq::empty())]
        } else {
            seq![(bit, Seq::empty())]
        },
        None => seq![(bit, Seq::empty())],
    }
}

pub open spec fn raw_pairs(bits: Seq<Seq<char>>) -> Seq<(Seq<char>, Seq<char>)>
    decreases bits.len(),
{
    if bits.len() == 0 {
        Seq::empty()
    } else {
        raw_pairs(bits.drop_last()) + bit_pairs(bits.last())
    }
}

/// The order of `(&str, &str)` pairs: by key, then by value.
pub open spec fn pair_le(p: (Seq<char>, Seq<char>), q: (Seq<char>, Seq<char>)) -> bool {
    seq_less(p.0, q.0) || (p.0 == q.0 && !seq_less(q.1, p.1))
}

/// `p` inserted into `s` before the first element it does not exceed.
pub open spec fn insert_pair(p: (Seq<char>, Seq<char>), s: Seq<(Seq<char>, Seq<char>)>) -> Seq<(Seq<char>, Seq<char>)>
    decreases s.len(),
{
    if s.len() == 0 {
        seq![p]
    } else if pair_le(p, s[0]) {
        seq![p] + s
    } else {
        seq![s[0]] + insert_pair(p, s.skip(1))
    }
}

/// The pairs in sorted order.
pub open spec fn sort_pairs(ps: Seq<(Seq<char>, Seq<char>)>) -> Seq<(Seq<char>, Seq<char>)>
    decreases ps.len(),
{
    if ps.len() == 0 {
        ps
    } else {
        insert_pair(ps.last(), sort_pairs(ps.drop_last()))
    }
}

/// Key and value of each pair whose key the query-parameter pattern does not match.
pub open spec fn pair_tokens(ps: Seq<(Seq<char>, Seq<char>)>) -> Seq<Seq<char>>
    decreases ps.len(),
{
    if ps.len() == 0 {
        Seq::empty()
    } else if is_ignored_param(ps.last().0) {
        pair_tokens(ps.drop_last())
    } else {
        pair_tokens(ps.drop_last()).push(ps.last().0).push(ps.last().1)
    }
}

pub open spec fn query_tokens(q: Option<Seq<char>>) -> Seq<Seq<char>> {
    match q {
        None => Seq::empty(),
        Some(q) => pair_tokens(sort_pairs(raw_pairs(split_on(q, '&')))),
    }
}

/// A `#!` fragment, without its `!`.
pub open spec fn fragment_tokens(f: Option<Seq<char>>) -> Seq<Seq<char>> {
    match f {
        Some(f) => if f.len() > 0 && f[0] == '!' {
            seq![f.skip(1)]
        } else {
            Seq::empty()
        },
        None => Seq::empty(),
    }
}

/// The token stream of the URL parsed from `text`.
pub open spec fn url_tokens(text: Seq<char>) -> Seq<Seq<char>> {
    nonempty(
        seq![host_token(url_host(text))] + path_tokens(url_path_segments(text)) + query_tokens(
            url_query(text),
        ) + fragment_tokens(url_fragment(text)),
    )
}

/// Each token followed by `:`.
pub open spec fn joined_tokens(ts: Seq<Seq<char>>) -> Seq<char>
    decreases ts.len(),
{
    if ts.len() == 0 {
        Seq::empty()
    } else {
        joined_tokens(ts.drop_last()) + ts.last() + seq![':']
    }
}

pub open spec fn tokens_view(v: Seq<CompareToken>) -> Seq<Seq<char>> {
    v.map_values(|t: CompareToken| t.0@)
}

pub open spec fn pairs_view(v: Seq<(Vec<char>, Vec<char>)>) -> Seq<(Seq<char>, Seq<char>)> {
    v.map_values(|p: (Vec<char>, Vec<char>)| (p.0@, p.1@))
}

fn copy_chars(v: &[char]) -> (r: Vec<char>)
    ensures
        r@ == v@,
{
    let mut r: Vec<char> = Vec::new();
    crate::text::extend_chars(&mut r, v);
    r
}

fn nonempty_exec(v: &Vec<Vec<char>>) -> (r: Vec<Vec<char>>)
    ensures
        chars_views(r@) == nonempty(chars_views(v@)),
{
    let mut out: Vec<Vec<char>> = Vec::new();
    let mut i: usize = 0;
    while i < v.len()
        invariant
            i <= v@.len(),
            chars_views(out@) == nonempty(chars_views(v@).take(i as int)),
        decreases v@.len() - i,
    {
        let ghost pre = chars_views(v@).take(i as int);
        assert(chars_views(v@).take(i + 1).drop_last() =~= pre);
        assert(chars_views(v@).take(i + 1).last() == v@[i as int]@);
        if v[i].len() > 0 {
            let c = copy_chars(v[i].as_slice());
            out.push(c);
            assert(chars_views(out@) =~= nonempty(pre).push(v@[i as int]@));
        }
        i = i + 1;
    }
    assert(chars_views(v@).take(v@.len() as int) =~= chars_views(v@));
    out
}

/// The tail of a host after its leftmost `www` match, or the host itself.
fn host_token_exec(pats: &UrlPatterns, host: Option<String>) -> (r: Vec<char>)
    requires
        pats.is_standard(),
    ensures
        r@ == host_token(crate::tagger::opt_view(host)),
{
    let h: String = match host {
        Some(h) => h,
        None => String::new(),
    };
    match pats.www_tail(h.as_str()) {
        Some(t) => chars_of(t.as_str()),
        None => chars_of(h.as_str()),
    }
}

fn last_segment_token_exec(pats: &UrlPatterns, seg: &Vec<char>) -> (r: Vec<char>)
    requires
        pats.is_standard(),
    ensures
        r@ == last_segment_token(seg@),
{
    let dot = vec!['.'];
    assert(dot@ == seq!['.']);
    match rfind(seg.as_slice(), dot.as_slice()) {
        Some(k) => {
            let n = seg.len();
            let mut b: Vec<char> = Vec::new();
            extend_range(&mut b, seg.as_slice(), k + 1, n);
            assert(b@ =~= seg@.skip(k + 1));
            if byte_len_at_most(b.as_slice(), 6) && pats.is_trimmable(string_of(b.as_slice()).as_str()) {
                let mut a: Vec<char> = Vec::new();
                extend_range(&mut a, seg.as_slice(), 0, k);
                assert(a@ =~= seg@.take(k as int));
                a
            } else {
                copy_chars(seg.as_slice())
            }
        },
        None => copy_chars(seg.as_slice()),
    }
}

fn path_tokens_exec(pats: &UrlPatterns, segs: Option<Vec<String>>) -> (r: Vec<Vec<char>>)
    requires
        pats.is_standard(),
    ensures
        segs is None ==> r@.len() == 0,
        segs matches Some(v) ==> chars_views(r@) == path_tokens(Some(crate::tagger::strs_view(v@))),
{
    match segs {
        None => Vec::new(),
        Some(v) => {
            let mut cs: Vec<Vec<char>> = Vec::new();
            let mut i: usize = 0;
            while i < v.len()
                invariant
                    i <= v@.len(),
                    chars_views(cs@) == crate::tagger::strs_view(v@).take(i as int),
                decreases v@.len() - i,
            {
                let c = chars_of(v[i].as_str());
                let ghost before = cs@;
                cs.push(c);
                assert(chars_views(cs@) =~= chars_views(before).push(c@));
                assert(crate::tagger::strs_view(v@).take(i + 1) =~= crate::tagger::strs_view(v@).take(
                    i as int,
                ).push(v@[i as int]@));
                i = i + 1;
            }
            assert(crate::tagger::strs_view(v@).take(v@.len() as int) =~= crate::tagger::strs_view(v@));
            let mut ne = nonempty_exec(&cs);
            if ne.len() == 0 {
                return Vec::new();
            }
            let ghost ne0 = chars_views(ne@);
            let last = ne.pop().unwrap();
            assert(chars_views(ne@) =~= ne0.drop_last());
            let t = last_segment_token_exec(pats, &last);
            ne.push(t);
            assert(chars_views(ne@) =~= ne0.drop_last().push(t@));
            ne
        },
    }
}

fn split_exec(q: &[char], c: char) -> (r: Vec<Vec<char>>)
    ensures
        chars_views(r@) == split_on(q@, c),
{
    let mut done: Vec<Vec<char>> = Vec::new();
    let mut cur: Vec<char> = Vec::new();
    let mut i: usize = 0;
    assert(q@.take(0) =~= Seq::<char>::empty());
    assert(chars_views(done@).push(cur@) =~= seq![Seq::<char>::empty()]);
    while i < q.len()
        invariant
            i <= q@.len(),
            split_on(q@.take(i as int), c) == chars_views(done@).push(cur@),
        decreases q@.len() - i,
    {
        assert(q@.take(i + 1).drop_last() =~= q@.take(i as int));
        assert(q@.take(i + 1).last() == q@[i as int]);
        let ghost prev = split_on(q@.take(i as int), c);
        if q[i] == c {
            let ghost before = done@;
            done.push(cur);
            cur = Vec::new();
            assert(chars_views(done@) =~= chars_views(before).push(prev.last()));
            assert(chars_views(done@).push(cur@) =~= prev.push(Seq::empty()));
        } else {
            cur.push(q[i]);
            assert(chars_views(done@).push(cur@) =~= prev.drop_last().push(prev.last().push(q@[i as int])));
        }
        i = i + 1;
    }
    assert(q@.take(q@.len() as int) =~= q@);
    let ghost before = done@;
    done.push(cur);
    assert(chars_views(done@) =~= chars_views(before).push(cur@));
    done
}

fn raw_pairs_exec(bits: &Vec<Vec<char>>) -> (r: Vec<(Vec<char>, Vec<char>)>)
    ensures
        pairs_view(r@) == raw_pairs(chars_views(bits@)),
{
    let mut out: Vec<(Vec<char>, Vec<char>)> = Vec::new();
    let eq = vec!['='];
    assert(eq@ == seq!['=']);
    let mut i: usize = 0;
    while i < bits.len()
        invariant
            i <= bits@.len(),
            eq@ == seq!['='],
            pairs_view(out@) == raw_pairs(chars_views(bits@).take(i as int)),
        decreases bits@.len() - i,
    {
        let bit = &bits[i];
        assert(chars_views(bits@).take(i + 1).drop_last() =~= chars_views(bits@).take(i as int));
        assert(chars_views(bits@).take(i + 1).last() == bit@);
        let ghost before = pairs_view(out@);
        match find(bit.as_slice(), eq.as_slice()) {
            Some(k) => {
                let n = bit.len();
                let mut key: Vec<char> = Vec::new();
                extend_range(&mut key, bit.as_slice(), 0, k);
                let mut value: Vec<char> = Vec::new();
                extend_range(&mut value, bit.as_slice(), k + 1, n);
                assert(key@ =~= bit@.take(k as int));
                assert(value@ =~= bit@.skip(k + 1));
                out.push((key, value));
                out.push((copy_chars(bit.as_slice()), Vec::new()));
                assert(pairs_view(out@) =~= before + bit_pairs(bit@));
            },
            None => {
                out.push((copy_chars(bit.as_slice()), Vec::new()));
                assert(pairs_view(out@) =~= before + bit_pairs(bit@));
            },
        }
        i = i + 1;
    }
    assert(chars_views(bits@).take(bits@.len() as int) =~= chars_views(bits@));
    out
}

fn pair_le_exec(p: &(Vec<char>, Vec<char>), q: &(Vec<char>, Vec<char>)) -> (r: bool)
    ensures
        r == pair_le((p.0@, p.1@), (q.0@, q.1@)),
{
    let c = compare_chars(p.0.as_slice(), q.0.as_slice());
    if c < 0 {
        true
    } else if c > 0 {
        proof {
            crate::tagset::lemma_seq_less_total(p.0@, q.0@);
        }
        false
    } else {
        let d = compare_chars(p.1.as_slice(), q.1.as_slice());
        d <= 0
    }
}

proof fn lemma_insert_pair_at(p: (Seq<char>, Seq<char>), s: Seq<(Seq<char>, Seq<char>)>, k: int)
    requires
        0 <= k <= s.len(),
        forall|j: int| 0 <= j < k ==> !pair_le(p, #[trigger] s[j]),
        k < s.len() ==> pair_le(p, s[k]),
    ensures
        insert_pair(p, s) == s.insert(k, p),
    decreases s.len(),
{
    if s.len() == 0 {
        assert(s.insert(0, p) =~= seq![p]);
    } else if k == 0 {
        assert(seq![p] + s =~= s.insert(0, p));
    } else {
        assert(!pair_le(p, s[0]));
        assert forall|j: int| 0 <= j < k - 1 implies !pair_le(p, #[trigger] s.skip(1)[j]) by {
            assert(s.skip(1)[j] == s[j + 1]);
        }
        lemma_insert_pair_at(p, s.skip(1), k - 1);
        assert(seq![s[0]] + s.skip(1).insert(k - 1, p) =~= s.insert(k, p));
    }
}

fn sort_pairs_exec(ps: &Vec<(Vec<char>, Vec<char>)>) -> (r: Vec<(Vec<char>, Vec<char>)>)
    ensures
        pairs_view(r@) == sort_pairs(pairs_view(ps@)),
{
    let mut sorted: Vec<(Vec<char>, Vec<char>)> = Vec::new();
    let mut i: usize = 0;
    assert(pairs_view(ps@).take(0) =~= Seq::<(Seq<char>, Seq<char>)>::empty());
    while i < ps.len()
        invariant
            i <= ps@.len(),
            pairs_view(sorted@) == sort_pairs(pairs_view(ps@).take(i as int)),
        decreases ps@.len() - i,
    {
        let p = &ps[i];
        let ghost pv = (p.0@, p.1@);
        assert(pairs_view(ps@).take(i + 1).drop_last() =~= pairs_view(ps@).take(i as int));
        assert(pairs_view(ps@).take(i + 1).last() == pv);
        let mut k: usize = 0;
        while k < sorted.len() && !pair_le_exec(p, &sorted[k])
            invariant
                k <= sorted@.len(),
                pv == (p.0@, p.1@),
                forall|j: int| 0 <= j < k ==> !pair_le(pv, #[trigger] pairs_view(sorted@)[j]),
            decreases sorted@.len() - k,
        {
            assert(pairs_view(sorted@)[k as int] == (sorted@[k as int].0@, sorted@[k as int].1@));
            k = k + 1;
        }
        proof {
            lemma_insert_pair_at(pv, pairs_view(sorted@), k as int);
        }
        let ghost before = sorted@;
        sorted.insert(k, (copy_chars(p.0.as_slice()), copy_chars(p.1.as_slice())));
        assert(pairs_view(sorted@) =~= pairs_view(before).insert(k as int, pv));
        i = i + 1;
    }
    assert(pairs_view(ps@).take(ps@.len() as int) =~= pairs_view(ps@));
    sorted
}

fn pair_tokens_exec(pats: &UrlPatterns, ps: &Vec<(Vec<char>, Vec<char>)>) -> (r: Vec<Vec<char>>)
    requires
        pats.is_standard(),
    ensures
        chars_views(r@) == pair_tokens(pairs_view(ps@)),
{
    let mut out: Vec<Vec<char>> = Vec::new();
    let mut i: usize = 0;
    while i < ps.len()
        invariant
            i <= ps@.len(),
            pats.is_standard(),
            chars_views(out@) == pair_tokens(pairs_view(ps@).take(i as int)),
        decreases ps@.len() - i,
    {
        let p = &ps[i];
        assert(pairs_view(ps@).take(i + 1).drop_last() =~= pairs_view(ps@).take(i as int));
        assert(pairs_view(ps@).take(i + 1).last() == (p.0@, p.1@));
        let key = string_of(p.0.as_slice());
        if !pats.is_ignored(key.as_str()) {
            let ghost before = chars_views(out@);
            out.push(copy_chars(p.0.as_slice()));
            out.push(copy_chars(p.1.as_slice()));
            assert(chars_views(out@) =~= before.push(p.0@).push(p.1@));
        }
        i = i + 1;
    }
    assert(pairs_view(ps@).take(ps@.len() as int) =~= pairs_view(ps@));
    out
}

fn query_tokens_exec(pats: &UrlPatterns, q: Option<String>) -> (r: Vec<Vec<char>>)
    requires
        pats.is_standard(),
    ensures
        chars_views(r@) == query_tokens(crate::tagger::opt_view(q)),
{
    match q {
        None => Vec::new(),
        Some(q) => {
            let qc = chars_of(q.as_str());
            let bits = split_exec(qc.as_slice(), '&');
            let pairs = raw_pairs_exec(&bits);
            let sorted = sort_pairs_exec(&pairs);
            pair_tokens_exec(pats, &sorted)
        },
    }
}

fn fragment_tokens_exec(f: Option<String>) -> (r: Vec<Vec<char>>)
    ensures
        chars_views(r@) == fragment_tokens(crate::tagger::opt_view(f)),
{
    let mut out: Vec<Vec<char>> = Vec::new();
    match f {
        Some(f) => {
            let fc = chars_of(f.as_str());
            if fc.len() > 0 && fc[0] == '!' {
                let n = fc.len();
                let mut t: Vec<char> = Vec::new();
                extend_range(&mut t, fc.as_slice(), 1, n);
                assert(t@ =~= fc@.skip(1));
                out.push(t);
                assert(chars_views(out@) =~= seq![t@]);
            }
        },
        None => {},
    }
    out
}

fn append_all(v: &mut Vec<Vec<char>>, w: Vec<Vec<char>>)
    ensures
        chars_views(final(v)@) == chars_views(old(v)@) + chars_views(w@),
{
    let mut w = w;
    let ghost wv = w@;
    v.append(&mut w);
    assert(chars_views(v@) =~= chars_views(old(v)@) + chars_views(wv));
}

/// The token stream of a URL: the host without a `www` prefix, the non-empty path segments (the
/// last one without a short file extension), key and value of the sorted query pairs whose key is
/// no tracking parameter, and a `#!` fragment; empty tokens are dropped.
pub fn token_stream(pats: &UrlPatterns, url: &ParsedUrl) -> (r: Vec<CompareToken>)
    requires
        pats.is_standard(),
    ensures
        tokens_view(r@) == url_tokens(url.text()),
{
    let host = host_token_exec(pats, url.host());
    let mut all: Vec<Vec<char>> = Vec::new();
    all.push(host);
    let segs = url.path_segments();
    let ghost sv = url_path_segments(url.text());
    assert(segs is Some ==> crate::tagger::strs_view(segs.unwrap()@) =~= sv.unwrap());
    append_all(&mut all, path_tokens_exec(pats, segs));
    append_all(&mut all, query_tokens_exec(pats, url.query()));
    append_all(&mut all, fragment_tokens_exec(url.fragment()));
    let ghost whole = chars_views(all@);
    assert(whole =~= seq![host_token(url_host(url.text()))] + path_tokens(sv) + query_tokens(
        url_query(url.text()),
    ) + fragment_tokens(url_fragment(url.text())));
    let ne = nonempty_exec(&all);
    let mut out: Vec<CompareToken> = Vec::new();
    let mut i: usize = 0;
    while i < ne.len()
        invariant
            i <= ne@.len(),
            tokens_view(out@) == chars_views(ne@).take(i as int),
        decreases ne@.len() - i,
    {
        let ghost before = tokens_view(out@);
        out.push(CompareToken(string_of(ne[i].as_slice())));
        assert(tokens_view(out@) =~= before.push(ne@[i as int]@));
        assert(chars_views(ne@).take(i + 1) =~= chars_views(ne@).take(i as int).push(ne@[i as int]@));
        i = i + 1;
    }
    assert(chars_views(ne@).take(ne@.len() as int) =~= chars_views(ne@));
    out
}

/// The normalization string of a URL: each token followed by `:`.
pub fn url_normalization_string(pats: &UrlPatterns, url: &ParsedUrl) -> (r: String)
    requires
        pats.is_standard(),
    ensures
        r@ == joined_tokens(url_tokens(url.text())),
{
    let tokens = token_stream(pats, url);
    let mut s = String::new();
    let mut i: usize = 0;
    while i < tokens.len()
        invariant
            i <= tokens@.len(),
            tokens_view(tokens@) == url_tokens(url.text()),
            s@ == joined_tokens(tokens_view(tokens@).take(i as int)),
        decreases tokens@.len() - i,
    {
        let ghost tv = tokens_view(tokens@);
        assert(tv.take(i + 1).drop_last() =~= tv.take(i as int));
        assert(tv.take(i + 1).last() == tokens@[i as int].0@);
        crate::text::push_str(&mut s, tokens[i].0.as_str());
        crate::text::push_char(&mut s, ':');
        i = i + 1;
    }
    assert(tokens_view(tokens@).take(tokens@.len() as int) =~= tokens_view(tokens@));
    s
}

/// Whether two URLs normalize to the same token stream.
pub fn urls_are_same(pats: &UrlPatterns, a: &ParsedUrl, b: &ParsedUrl) -> (r: bool)
    requires
        pats.is_standard(),
    ensures
        r == (url_tokens(a.text()) == url_tokens(b.text())),
{
    let ta = token_stream(pats, a);
    let tb = token_stream(pats, b);
    if ta.len() != tb.len() {
        assert(tokens_view(ta@).len() != tokens_view(tb@).len());
        return false;
    }
    let mut i: usize = 0;
    while i < ta.len()
        invariant
            i <= ta@.len(),
            ta@.len() == tb@.len(),
            tokens_view(ta@) == url_tokens(a.text()),
            tokens_view(tb@) == url_tokens(b.text()),
            forall|j: int| 0 <= j < i ==> ta@[j].0@ == tb@[j].0@,
        decreases ta@.len() - i,
    {
        let ca = chars_of(ta[i].0.as_str());
        let cb = chars_of(tb[i].0.as_str());
        if !crate::text::chars_eq(ca.as_slice(), cb.as_slice()) {
            assert(tokens_view(ta@)[i as int] == ca@);
            assert(tokens_view(tb@)[i as int] == cb@);
            assert(tokens_view(ta@)[i as int] != tokens_view(tb@)[i as int]);
            return false;
        }
        i = i + 1;
    }
    assert(tokens_view(ta@) =~= tokens_view(tb@));
    true
}

// ---------------------------------------------------------------------------
// Tokens compared under URL escaping
// ---------------------------------------------------------------------------

/// The position of `c` in `0123456789abcdef0123456789ABCDEF`, or 0 where it does not occur.
pub open spec fn hex_index(c: char) -> u8 {
    if '0' <= c && c <= '9' {
        ((c as u32) - ('0' as u32)) as u8
    } else if 'a' <= c && c <= 'f' {
        ((c as u32) - ('a' as u32) + 10) as u8
    } else if 'A' <= c && c <= 'F' {
        ((c as u32) - ('A' as u32) + 26) as u8
    } else {
        0
    }
}

/// The character an escape `%ab` stands for: `(a << 4) | b` as a byte.
pub open spec fn escape_char(a: u8, b: u8) -> char {
    (((a << 4u8) | b) as u8) as char
}

/// The character that starts at `i` (`+` is a space, `%` takes the next two characters as hex
/// digits, missing ones counting as 0) and where the next one starts.
pub open spec fn decode_at(s: Seq<char>, i: int) -> (char, int) {
    let c = s[i];
    if c == '+' {
        (' ', i + 1)
    } else if c != '%' {
        (c, i + 1)
    } else {
        let a = if i + 1 < s.len() { hex_index(s[i + 1]) } else { 0u8 };
        let b = if i + 2 < s.len() { hex_index(s[i + 2]) } else { 0u8 };
        (escape_char(a, b), if i + 3 <= s.len() { i + 3 } else { s.len() as int })
    }
}

/// Walks `a` from `i` and `b` from `j` in step, decoding both (an exhausted `b` gives `'\0'`);
/// equal when every step agrees and `b` ends when `a` does.
pub open spec fn escaped_walk(a: Seq<char>, i: int, b: Seq<char>, j: int) -> bool
    decreases a.len() - i,
{
    if i < 0 || i >= a.len() {
        j >= b.len()
    } else {
        let (c1, i2) = decode_at(a, i);
        let (c2, j2) = if 0 <= j < b.len() { decode_at(b, j) } else { ('\0', j) };
        if c1 != c2 || i2 <= i {
            false
        } else {
            escaped_walk(a, i2, b, j2)
        }
    }
}

/// Two tokens are equal when their texts are, or when they decode to the same characters.
pub open spec fn escaped_equal(a: Seq<char>, b: Seq<char>) -> bool {
    a == b || escaped_walk(a, 0, b, 0)
}

/// A token compared as URL text, where `+` and `%xx` escapes stand for the characters they
/// encode.
#[derive(Debug)]
pub struct EscapedCompareToken(pub String);

fn hex_index_exec(c: char) -> (r: u8)
    ensures
        r == hex_index(c),
{
    if '0' <= c && c <= '9' {
        ((c as u32) - ('0' as u32)) as u8
    } else if 'a' <= c && c <= 'f' {
        ((c as u32) - ('a' as u32) + 10) as u8
    } else if 'A' <= c && c <= 'F' {
        ((c as u32) - ('A' as u32) + 26) as u8
    } else {
        0
    }
}

fn decode_at_exec(s: &Vec<char>, i: usize) -> (r: (char, usize))
    requires
        i < s@.len(),
    ensures
        (r.0, r.1 as int) == decode_at(s@, i as int),
        i < r.1 <= s@.len(),
{
    let n = s.len();
    let c = s[i];
    if c == '+' {
        (' ', i + 1)
    } else if c != '%' {
        (c, i + 1)
    } else {
        let a: u8 = if i + 1 < n { hex_index_exec(s[i + 1]) } else { 0 };
        let b: u8 = if n - i > 2 { hex_index_exec(s[i + 2]) } else { 0 };
        let x: u8 = (a << 4u8) | b;
        let next = if n - i >= 3 { i + 3 } else { n };
        (x as char, next)
    }
}

fn escaped_equal_exec(a: &Vec<char>, b: &Vec<char>) -> (r: bool)
    ensures
        r == escaped_equal(a@, b@),
{
    if crate::text::chars_eq(a.as_slice(), b.as_slice()) {
        return true;
    }
    let mut i: usize = 0;
    let mut j: usize = 0;
    while i < a.len()
        invariant
            i <= a@.len(),
            j <= b@.len(),
            a@ != b@,
            escaped_walk(a@, i as int, b@, j as int) == escaped_walk(a@, 0, b@, 0),
        decreases a@.len() - i,
    {
        let (c1, i2) = decode_at_exec(a, i);
        let (c2, j2) = if j < b.len() { decode_at_exec(b, j) } else { ('\0', j) };
        if c1 != c2 {
            return false;
        }
        i = i2;
        j = j2;
    }
    j >= b.len()
}

impl PartialEq for EscapedCompareToken {
    fn eq(&self, other: &Self) -> (r: bool) {
        let a = chars_of(self.0.as_str());
        let b = chars_of(other.0.as_str());
        escaped_equal_exec(&a, &b)
    }
}

impl vstd::std_specs::cmp::PartialEqSpecImpl for EscapedCompareToken {
    open spec fn obeys_eq_spec() -> bool {
        true
    }

    open spec fn eq_spec(&self, other: &EscapedCompareToken) -> bool {
        escaped_equal(self.0@, other.0@)
    }
}

// ---------------------------------------------------------------------------
// Laws
// ---------------------------------------------------------------------------

proof fn lemma_nonempty_has_no_empty(s: Seq<Seq<char>>)
    ensures
        forall|i: int| 0 <= i < nonempty(s).len() ==> #[trigger] nonempty(s)[i].len() > 0,
    decreases s.len(),
{
    if s.len() > 0 {
        lemma_nonempty_has_no_empty(s.drop_last());
        let prev = nonempty(s.drop_last());
        if s.last().len() > 0 {
            assert forall|i: int| 0 <= i < nonempty(s).len() implies #[trigger] nonempty(s)[i].len() > 0 by {
                if i < prev.len() {
                    assert(nonempty(s)[i] == prev[i]);
                }
            }
        }
    }
}

/// A URL's token stream holds no empty token.
pub proof fn lemma_tokens_nonempty(text: Seq<char>)
    ensures
        forall|i: int| 0 <= i < url_tokens(text).len() ==> #[trigger] url_tokens(text)[i].len() > 0,
{
    lemma_nonempty_has_no_empty(
        seq![host_token(url_host(text))] + path_tokens(url_path_segments(text)) + query_tokens(
            url_query(text),
        ) + fragment_tokens(url_fragment(text)),
    );
}

/// URLs with the same token stream have the same normalization string.
pub proof fn lemma_same_tokens_same_string(a: Seq<char>, b: Seq<char>)
    requires
        url_tokens(a) == url_tokens(b),
    ensures
        joined_tokens(url_tokens(a)) == joined_tokens(url_tokens(b)),
{
}

/// Every token compares equal to itself.
pub proof fn lemma_escaped_equal_reflexive(a: Seq<char>)
    ensures
        escaped_equal(a, a),
{
}

/// `s` is in order.
pub open spec fn pairs_sorted(s: Seq<(Seq<char>, Seq<char>)>) -> bool {
    forall|i: int, j: int| 0 <= i < j < s.len() ==> pair_le(#[trigger] s[i], #[trigger] s[j])
}

proof fn lemma_pair_le_total(p: (Seq<char>, Seq<char>), q: (Seq<char>, Seq<char>))
    ensures
        pair_le(p, q) || pair_le(q, p),
{
    crate::tagset::lemma_seq_less_total(p.0, q.0);
    crate::tagset::lemma_seq_less_total(p.1, q.1);
}

proof fn lemma_pair_le_transitive(p: (Seq<char>, Seq<char>), q: (Seq<char>, Seq<char>), r: (Seq<char>, Seq<char>))
    requires
        pair_le(p, q),
        pair_le(q, r),
    ensures
        pair_le(p, r),
{
    crate::tagset::lemma_seq_less_total(p.0, q.0);
    crate::tagset::lemma_seq_less_total(q.0, r.0);
    crate::tagset::lemma_seq_less_total(p.0, r.0);
    crate::tagset::lemma_seq_less_total(p.1, q.1);
    crate::tagset::lemma_seq_less_total(q.1, r.1);
    crate::tagset::lemma_seq_less_total(p.1, r.1);
    if seq_less(p.0, q.0) && seq_less(q.0, r.0) {
        crate::tagset::lemma_seq_less_transitive(p.0, q.0, r.0);
    }
    if p.0 == q.0 && q.0 == r.0 && seq_less(r.1, p.1) {
        if seq_less(q.1, p.1) {
        } else if q.1 == p.1 {
        } else {
            crate::tagset::lemma_seq_less_transitive(r.1, p.1, q.1);
        }
    }
}

proof fn lemma_insert_pair_sorted(p: (Seq<char>, Seq<char>), s: Seq<(Seq<char>, Seq<char>)>)
    requires
        pairs_sorted(s),
    ensures
        pairs_sorted(insert_pair(p, s)),
        insert_pair(p, s).len() == s.len() + 1,
        forall|x: (Seq<char>, Seq<char>)| #[trigger] insert_pair(p, s).contains(x) ==> x == p || s.contains(x),
    decreases s.len(),
{
    if s.len() == 0 {
    } else if pair_le(p, s[0]) {
        let r = seq![p] + s;
        assert forall|i: int, j: int| 0 <= i < j < r.len() implies pair_le(#[trigger] r[i], #[trigger] r[j]) by {
            if i == 0 {
                if j > 1 {
                    lemma_pair_le_transitive(p, s[0], s[j - 1]);
                }
            } else {
                assert(r[i] == s[i - 1] && r[j] == s[j - 1]);
            }
        }
        assert forall|x: (Seq<char>, Seq<char>)| #[trigger] r.contains(x) implies x == p || s.contains(x) by {
            let k = choose|k: int| 0 <= k < r.len() && r[k] == x;
            if k > 0 {
                assert(s[k - 1] == x);
            }
        }
    } else {
        let rest = s.skip(1);
        assert forall|i: int, j: int| 0 <= i < j < rest.len() implies pair_le(#[trigger] rest[i], #[trigger] rest[j]) by {
            assert(rest[i] == s[i + 1] && rest[j] == s[j + 1]);
        }
        lemma_insert_pair_sorted(p, rest);
        lemma_pair_le_total(p, s[0]);
        let tail = insert_pair(p, rest);
        let r = seq![s[0]] + tail;
        assert forall|i: int, j: int| 0 <= i < j < r.len() implies pair_le(#[trigger] r[i], #[trigger] r[j]) by {
            if i == 0 {
                assert(r[j] == tail[j - 1]);
                assert(tail.contains(tail[j - 1]));
                if tail[j - 1] == p {
                } else {
                    let k = choose|k: int| 0 <= k < rest.len() && rest[k] == tail[j - 1];
                    assert(s[k + 1] == tail[j - 1]);
                }
            } else {
                assert(r[i] == tail[i - 1] && r[j] == tail[j - 1]);
            }
        }
        assert forall|x: (Seq<char>, Seq<char>)| #[trigger] r.contains(x) implies x == p || s.contains(x) by {
            let k = choose|k: int| 0 <= k < r.len() && r[k] == x;
            if k == 0 {
                assert(s[0] == x);
            } else {
                assert(tail[k - 1] == x);
                assert(tail.contains(x));
                if x != p {
                    let m = choose|m: int| 0 <= m < rest.len() && rest[m] == x;
                    assert(s[m + 1] == x);
                }
            }
        }
    }
}

/// The query pairs come out in order.
pub proof fn lemma_sort_pairs_sorted(ps: Seq<(Seq<char>, Seq<char>)>)
    ensures
        pairs_sorted(sort_pairs(ps)),
        sort_pairs(ps).len() == ps.len(),
    decreases ps.len(),
{
    if ps.len() > 0 {
        lemma_sort_pairs_sorted(ps.drop_last());
        lemma_insert_pair_sorted(ps.last(), sort_pairs(ps.drop_last()));
    }
}

} // verus!
