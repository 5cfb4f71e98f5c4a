//! The story tagger: finds the configured tags in a story title.
//!
//! A configuration names tags by category. Each tag may have alternative spellings, an internal
//! name (for symbol-like tags such as `c++`, indexed as `cplusplus`), a tag that it implies, and
//! phrases that mute it. Spellings may hold `(-)` (an optional hyphen or space) and end in `(s)`
//! (an optional plural).
use vstd::prelude::*;

use crate::tagset::{TagAcceptor, TagSet};
use crate::text::{
    chars_of, contains, contains_char, contains_seq, ends_with, has_suffix, lemma_replace_shrinks,
    replace, replace_all, split_words, string_of, words,
};

verus! {

// ---------------------------------------------------------------------------
// Calls into std
// ---------------------------------------------------------------------------

/// What `str::to_lowercase` returns (Unicode lowercase mapping).
pub uninterp spec fn unicode_lowercase(s: Seq<char>) -> Seq<char>;

/// `str::to_lowercase`; its result is named `unicode_lowercase`.
#[verifier::external_body]
pub(crate) fn str_to_lowercase(s: &str) -> (r: String)
    ensures
        r@ == unicode_lowercase(s@),
{
    s.to_lowercase()
}

/// What `char::is_alphanumeric` returns (Unicode `Alphabetic` or `Numeric`).
pub uninterp spec fn unicode_alphanumeric(c: char) -> bool;

/// `char::is_alphanumeric`; its result is named `unicode_alphanumeric`.
#[verifier::external_body]
pub(crate) fn char_is_alphanumeric(c: char) -> (r: bool)
    ensures
        r == unicode_alphanumeric(c),
{
    c.is_alphanumeric()
}

// ---------------------------------------------------------------------------
// Configuration
// ---------------------------------------------------------------------------

/// The configuration of one tag.
#[derive(Default)]
pub struct TagConfig {
    pub host: Option<String>,
    pub hosts: Vec<String>,
    pub alt: Option<String>,
    pub alts: Vec<String>,
    pub implies: Option<String>,
    pub internal: Option<String>,
    pub excludes: Vec<String>,
    pub symbol: bool,
}

/// The tagger configuration: for each category, its tags and their configurations.
#[derive(Default)]
pub struct TaggerConfig {
    pub tags: Vec<(String, Vec<(String, TagConfig)>)>,
}

pub open spec fn opt_view(o: Option<String>) -> Option<Seq<char>> {
    match o {
        Some(s) => Some(s@),
        None => None,
    }
}

pub open spec fn strs_view(v: Seq<String>) -> Seq<Seq<char>> {
    v.map_values(|s: String| s@)
}

pub open spec fn chars_views(v: Seq<Vec<char>>) -> Seq<Seq<char>> {
    v.map_values(|x: Vec<char>| x@)
}

pub open spec fn string_keys<V>(m: Seq<(String, V)>) -> Seq<Seq<char>> {
    m.map_values(|e: (String, V)| e.0@)
}

/// What the tagger reads of a tag's configuration.
pub struct TagConfigView {
    pub alt: Option<Seq<char>>,
    pub alts: Seq<Seq<char>>,
    pub implies: Option<Seq<char>>,
    pub internal: Option<Seq<char>>,
    pub excludes: Seq<Seq<char>>,
    pub symbol: bool,
}

impl TagConfig {
    pub open spec fn view(&self) -> TagConfigView {
        TagConfigView {
            alt: opt_view(self.alt),
            alts: strs_view(self.alts@),
            implies: opt_view(self.implies),
            internal: opt_view(self.internal),
            excludes: strs_view(self.excludes@),
            symbol: self.symbol,
        }
    }
}

pub open spec fn tag_entries_view(v: Seq<(String, TagConfig)>) -> Seq<(Seq<char>, TagConfigView)> {
    v.map_values(|t: (String, TagConfig)| (t.0@, t.1.view()))
}

impl TaggerConfig {
    /// For each category, its tags with their configurations.
    pub open spec fn view(&self) -> Seq<Seq<(Seq<char>, TagConfigView)>> {
        self.tags@.map_values(
            |c: (String, Vec<(String, TagConfig)>)|
                tag_entries_view(c.1@),
        )
    }
}

// ---------------------------------------------------------------------------
// Spelling expansion
// ---------------------------------------------------------------------------

pub open spec fn optional_hyphen() -> Seq<char> {
    seq!['(', '-', ')']
}

pub open spec fn optional_plural() -> Seq<char> {
    seq!['(', 's', ')']
}

/// The spellings that `tag` stands for: `(-)` is a hyphen or a space, and a trailing `(s)` is an
/// optional plural.
pub open spec fn expand_tag(tag: Seq<char>) -> Seq<Seq<char>>
    decreases tag.len(),
{
    if contains_seq(tag, optional_hyphen()) {
        proof {
            lemma_replace_shrinks(tag, optional_hyphen(), seq!['-']);
            lemma_replace_shrinks(tag, optional_hyphen(), seq![' ']);
        }
        expand_tag(replace_all(tag, optional_hyphen(), seq!['-'])) + expand_tag(
            replace_all(tag, optional_hyphen(), seq![' ']),
        )
    } else if has_suffix(tag, optional_plural()) {
        let stem = tag.take(tag.len() - 3);
        seq![stem, stem + seq!['s']]
    } else {
        seq![tag]
    }
}

pub proof fn lemma_expand_tag_nonempty(tag: Seq<char>)
    ensures
        expand_tag(tag).len() > 0,
    decreases tag.len(),
{
    if contains_seq(tag, optional_hyphen()) {
        lemma_replace_shrinks(tag, optional_hyphen(), seq!['-']);
        lemma_expand_tag_nonempty(replace_all(tag, optional_hyphen(), seq!['-']));
    }
}

/// The spellings of each of `tags`, in order.
pub open spec fn expand_all(tags: Seq<Seq<char>>) -> Seq<Seq<char>>
    decreases tags.len(),
{
    if tags.len() == 0 {
        Seq::empty()
    } else {
        expand_all(tags.drop_last()) + expand_tag(tags.last())
    }
}

/// `s` without repeats, keeping first occurrences.
pub open spec fn dedup(s: Seq<Seq<char>>) -> Seq<Seq<char>>
    decreases s.len(),
{
    if s.len() == 0 {
        Seq::empty()
    } else {
        let d = dedup(s.drop_last());
        if d.contains(s.last()) {
            d
        } else {
            d.push(s.last())
        }
    }
}

/// Every spelling of a tag, its alternative and its alternatives, without repeats.
pub open spec fn all_spellings(tag: Seq<char>, alt: Option<Seq<char>>, alts: Seq<Seq<char>>) -> Seq<Seq<char>> {
    dedup(
        expand_tag(tag) + match alt {
            Some(a) => expand_tag(a),
            None => Seq::empty(),
        } + expand_all(alts),
    )
}

fn compute_tag_chars(tag: &Vec<char>) -> (r: Vec<Vec<char>>)
    ensures
        chars_views(r@) == expand_tag(tag@),
    decreases tag@.len(),
{
    let hy = vec!['(', '-', ')'];
    let pl = vec!['(', 's', ')'];
    assert(hy@ == optional_hyphen());
    assert(pl@ == optional_plural());
    if contains(tag.as_slice(), hy.as_slice()) {
        let dash = vec!['-'];
        let space = vec![' '];
        let a = replace(tag.as_slice(), hy.as_slice(), dash.as_slice());
        let b = replace(tag.as_slice(), hy.as_slice(), space.as_slice());
        proof {
            assert(dash@ == seq!['-']);
            assert(space@ == seq![' ']);
            lemma_replace_shrinks(tag@, optional_hyphen(), seq!['-']);
            lemma_replace_shrinks(tag@, optional_hyphen(), seq![' ']);
        }
        let mut v = compute_tag_chars(&a);
        let w = compute_tag_chars(&b);
        let ghost va = chars_views(v@);
        let mut k: usize = 0;
        while k < w.len()
            invariant
                k <= w@.len(),
                chars_views(v@) == va + chars_views(w@).take(k as int),
            decreases w@.len() - k,
        {
            let ghost prev = chars_views(v@);
            let x = w[k].clone();
            assert(x@ =~= w@[k as int]@);
            v.push(x);
            assert(chars_views(v@) =~= prev.push(w@[k as int]@));
            assert(chars_views(w@).take(k + 1) =~= chars_views(w@).take(k as int).push(w@[k as int]@));
            k = k + 1;
        }
        assert(chars_views(w@).take(k as int) =~= chars_views(w@));
        return v;
    }
    if ends_with(tag.as_slice(), pl.as_slice()) {
        let n = tag.len() - 3;
        let mut stem: Vec<char> = Vec::new();
        crate::text::extend_range(&mut stem, tag.as_slice(), 0, n);
        let mut plural = stem.clone();
        assert(plural@ =~= stem@);
        plural.push('s');
        let ghost sv = stem@;
        let ghost pv = plural@;
        let r = vec![stem, plural];
        assert(r@[0]@ == sv && r@[1]@ == pv);
        assert(pv =~= sv + seq!['s']);
        assert(sv =~= tag@.take(tag@.len() - 3));
        assert(chars_views(r@) =~= expand_tag(tag@));
        return r;
    }
    let r = vec![tag.clone()];
    assert(chars_views(r@) =~= expand_tag(tag@));
    r
}

// ---------------------------------------------------------------------------
// Association lists (the tagger's maps, in insertion order)
// ---------------------------------------------------------------------------

/// The position of the first `k` in `keys`.
pub open spec fn key_index<K>(keys: Seq<K>, k: K) -> Option<int>
    decreases keys.len(),
{
    if keys.len() == 0 {
        None
    } else {
        match key_index(keys.drop_last(), k) {
            Some(i) => Some(i),
            None => if keys.last() == k {
                Some(keys.len() - 1)
            } else {
                None
            },
        }
    }
}

pub proof fn lemma_key_index<K>(keys: Seq<K>, k: K)
    ensures
        key_index(keys, k) matches Some(i) ==> 0 <= i < keys.len() && keys[i] == k && forall|j: int|
            0 <= j < i ==> keys[j] != k,
        key_index(keys, k) is None ==> forall|j: int| 0 <= j < keys.len() ==> keys[j] != k,
    decreases keys.len(),
{
    if keys.len() > 0 {
        lemma_key_index(keys.drop_last(), k);
        assert forall|j: int| 0 <= j < keys.len() - 1 implies keys.drop_last()[j] == keys[j] by {}
    }
}

pub proof fn lemma_key_index_at<K>(keys: Seq<K>, k: K, i: int)
    requires
        0 <= i < keys.len(),
        keys[i] == k,
        forall|j: int| 0 <= j < i ==> keys[j] != k,
    ensures
        key_index(keys, k) == Some(i),
{
    lemma_key_index(keys, k);
    match key_index(keys, k) {
        Some(w) => {
            if w < i {
            } else if w > i {
            }
        },
        None => {},
    }
}

pub open spec fn keys_of<K, V>(m: Seq<(K, V)>) -> Seq<K> {
    m.map_values(|e: (K, V)| e.0)
}

/// `HashMap::insert` on an association list: replaces the value of `k`, or appends `(k, v)`.
pub open spec fn assoc_insert<K, V>(m: Seq<(K, V)>, k: K, v: V) -> Seq<(K, V)> {
    match key_index(keys_of(m), k) {
        Some(i) => m.update(i, (k, v)),
        None => m.push((k, v)),
    }
}

pub proof fn lemma_assoc_insert_values<K, V>(m: Seq<(K, V)>, k: K, v: V)
    ensures
        assoc_insert(m, k, v).len() >= m.len(),
        forall|i: int| 0 <= i < assoc_insert(m, k, v).len() ==> (#[trigger] assoc_insert(m, k, v)[i]).1 == v
            || (i < m.len() && assoc_insert(m, k, v)[i] == m[i]),
{
    lemma_key_index(keys_of(m), k);
}

/// `HashMap::get` on an association list.
pub open spec fn assoc_get<K, V>(m: Seq<(K, V)>, k: K) -> Option<V> {
    match key_index(keys_of(m), k) {
        Some(i) => Some(m[i].1),
        None => None,
    }
}

/// Reading a key just written gives the written value.
pub proof fn lemma_assoc_get_insert<K, V>(m: Seq<(K, V)>, k: K, v: V)
    ensures
        assoc_get(assoc_insert(m, k, v), k) == Some(v),
{
    lemma_key_index(keys_of(m), k);
    let m2 = assoc_insert(m, k, v);
    match key_index(keys_of(m), k) {
        Some(i) => {
            assert(keys_of(m2) =~= keys_of(m).update(i, k));
            assert forall|j: int| 0 <= j < i implies keys_of(m2)[j] != k by {
                assert(keys_of(m2)[j] == keys_of(m)[j]);
            }
            lemma_key_index_at(keys_of(m2), k, i);
        },
        None => {
            assert(keys_of(m2) =~= keys_of(m).push(k));
            assert forall|j: int| 0 <= j < m.len() implies keys_of(m2)[j] != k by {
                assert(keys_of(m2)[j] == keys_of(m)[j]);
            }
            lemma_key_index_at(keys_of(m2), k, m.len() as int);
        },
    }
}

pub(crate) fn string_key_index<V>(m: &Vec<(String, V)>, k: &String) -> (r: Option<usize>)
    ensures
        r matches Some(i) ==> key_index(string_keys(m@), k@) == Some(i as int) && i < m@.len(),
        r is None ==> key_index(string_keys(m@), k@) is None,
{
    let ghost keys = string_keys(m@);
    let mut i: usize = 0;
    while i < m.len()
        invariant
            i <= m@.len(),
            keys == string_keys(m@),
            forall|j: int| 0 <= j < i ==> keys[j] != k@,
        decreases m@.len() - i,
    {
        if m[i].0 == *k {
            proof {
                lemma_key_index_at(keys, k@, i as int);
            }
            return Some(i);
        }
        i = i + 1;
    }
    proof {
        lemma_key_index(keys, k@);
        if key_index(keys, k@) is Some {
            let w = key_index(keys, k@)->0;
            assert(keys[w] == k@);
        }
    }
    None
}

pub open spec fn multi_keys<V>(m: Seq<(MultiTokenTag, V)>) -> Seq<Seq<Seq<char>>> {
    m.map_values(|e: (MultiTokenTag, V)| e.0.view())
}

fn multi_key_index<V>(m: &Vec<(MultiTokenTag, V)>, k: &MultiTokenTag) -> (r: Option<usize>)
    ensures
        r matches Some(i) ==> key_index(multi_keys(m@), k.view()) == Some(i as int) && i < m@.len(),
        r is None ==> key_index(multi_keys(m@), k.view()) is None,
{
    let ghost keys = multi_keys(m@);
    let mut i: usize = 0;
    while i < m.len()
        invariant
            i <= m@.len(),
            keys == multi_keys(m@),
            forall|j: int| 0 <= j < i ==> keys[j] != k.view(),
        decreases m@.len() - i,
    {
        if strings_eq(&m[i].0.tag, &k.tag) {
            proof {
                lemma_key_index_at(keys, k.view(), i as int);
            }
            return Some(i);
        }
        i = i + 1;
    }
    proof {
        lemma_key_index(keys, k.view());
        if key_index(keys, k.view()) is Some {
            let w = key_index(keys, k.view())->0;
            assert(keys[w] == k.view());
        }
    }
    None
}

fn strings_eq(a: &Vec<String>, b: &Vec<String>) -> (r: bool)
    ensures
        r == (strs_view(a@) == strs_view(b@)),
{
    if a.len() != b.len() {
        assert(strs_view(a@).len() != strs_view(b@).len());
        return false;
    }
    let mut i: usize = 0;
    while i < a.len()
        invariant
            a@.len() == b@.len(),
            i <= a@.len(),
            forall|j: int| 0 <= j < i ==> a@[j]@ == b@[j]@,
        decreases a@.len() - i,
    {
        if a[i] != b[i] {
            assert(strs_view(a@)[i as int] != strs_view(b@)[i as int]);
            return false;
        }
        i = i + 1;
    }
    assert(strs_view(a@) =~= strs_view(b@));
    true
}

// ---------------------------------------------------------------------------
// Multi-word tags
// ---------------------------------------------------------------------------

/// `key` is the start of `tokens`.
pub open spec fn starts_tokens(key: Seq<Seq<char>>, tokens: Seq<Seq<char>>) -> bool {
    key.len() <= tokens.len() && tokens.take(key.len() as int) == key
}

/// A tag made of several words.
#[derive(Debug)]
pub struct MultiTokenTag {
    tag: Vec<String>,
}

impl MultiTokenTag {
    pub closed spec fn view(&self) -> Seq<Seq<char>> {
        strs_view(self.tag@)
    }

    /// The words of `s`.
    pub fn from_words(s: &Vec<char>) -> (r: MultiTokenTag)
        ensures
            r.view() == words(s@),
    {
        let ws = split_words(s.as_slice());
        let mut tag: Vec<String> = Vec::new();
        let mut i: usize = 0;
        while i < ws.len()
            invariant
                i <= ws@.len(),
                strs_view(tag@) == chars_views(ws@).take(i as int),
            decreases ws@.len() - i,
        {
            let ghost prev = strs_view(tag@);
            let x = string_of(ws[i].as_slice());
            tag.push(x);
            assert(strs_view(tag@) =~= prev.push(ws@[i as int]@));
            assert(chars_views(ws@).take(i + 1) =~= chars_views(ws@).take(i as int).push(ws@[i as int]@));
            i = i + 1;
        }
        assert(chars_views(ws@).take(i as int) =~= chars_views(ws@));
        MultiTokenTag { tag }
    }

    pub fn len(&self) -> (r: usize)
        ensures
            r == self.view().len(),
    {
        self.tag.len()
    }

    /// Whether the tokens starting at `pos` begin with this tag (more tokens may follow).
    pub fn matches_at(&self, slice: &[String], pos: usize) -> (r: bool)
        requires
            pos <= slice@.len(),
        ensures
            r == starts_tokens(self.view(), strs_view(slice@).skip(pos as int)),
    {
        let ghost t = strs_view(slice@).skip(pos as int);
        let n = slice.len();
        if n - pos < self.tag.len() {
            assert(t.len() < self.view().len());
            return false;
        }
        let mut i: usize = 0;
        while i < self.tag.len()
            invariant
                i <= self.tag@.len(),
                pos + self.tag@.len() <= n,
                n == slice@.len(),
                t == strs_view(slice@).skip(pos as int),
                forall|j: int| 0 <= j < i ==> t[j] == self.view()[j],
            decreases self.tag@.len() - i,
        {
            if slice[pos + i] != self.tag[i] {
                assert(t.take(self.view().len() as int)[i as int] != self.view()[i as int]);
                return false;
            }
            i = i + 1;
        }
        assert(t.take(self.view().len() as int) =~= self.view());
        true
    }

    /// Whether `slice` begins with this tag (more tokens may follow).
    pub fn matches(&self, slice: &[String]) -> (r: bool)
        ensures
            r == starts_tokens(self.view(), strs_view(slice@)),
    {
        let r = self.matches_at(slice, 0);
        assert(strs_view(slice@).skip(0) =~= strs_view(slice@));
        r
    }

    /// Moves `pos` past this tag if the tokens at `pos` begin with it.
    pub fn chomp(&self, slice: &[String], pos: &mut usize) -> (r: bool)
        requires
            *old(pos) <= slice@.len(),
        ensures
            r == starts_tokens(self.view(), strs_view(slice@).skip(*old(pos) as int)),
            r ==> *final(pos) == *old(pos) + self.view().len(),
            !r ==> *final(pos) == *old(pos),
    {
        let n = slice.len();
        if self.matches_at(slice, *pos) {
            assert(strs_view(slice@).skip(*old(pos) as int).len() == n - *old(pos));
            *pos = *pos + self.tag.len();
            true
        } else {
            false
        }
    }
}

// ---------------------------------------------------------------------------
// The tagger's tables
// ---------------------------------------------------------------------------

/// A tag as it is reported: its output name and the tags it implies.
#[derive(Debug)]
struct TagRecord {
    output: String,
    implies: Vec<String>,
}

/// The tagger's tables, as sequences in insertion order.
pub struct TaggerModel {
    pub records: Seq<(Seq<char>, Seq<Seq<char>>)>,
    pub forward: Seq<(Seq<char>, usize)>,
    pub forward_multi: Seq<(Seq<Seq<char>>, usize)>,
    pub exclusions: Seq<(Seq<Seq<char>>, Seq<char>)>,
    pub backward: Seq<(Seq<char>, Seq<char>)>,
    pub symbols: Seq<(Seq<char>, usize)>,
}

pub open spec fn empty_model() -> TaggerModel {
    TaggerModel {
        records: Seq::empty(),
        forward: Seq::empty(),
        forward_multi: Seq::empty(),
        exclusions: Seq::empty(),
        backward: Seq::empty(),
        symbols: Seq::empty(),
    }
}

/// Registers each exclusion phrase as muting `primary`.
pub open spec fn add_exclusions(
    ex: Seq<(Seq<Seq<char>>, Seq<char>)>,
    phrases: Seq<Seq<char>>,
    primary: Seq<char>,
) -> Seq<(Seq<Seq<char>>, Seq<char>)>
    decreases phrases.len(),
{
    if phrases.len() == 0 {
        ex
    } else {
        assoc_insert(add_exclusions(ex, phrases.drop_last(), primary), words(phrases.last()), primary)
    }
}

/// Registers one spelling of the tag with record number `idx`.
pub open spec fn add_spelling(m: TaggerModel, t: Seq<char>, symbol: bool, output: Seq<char>, idx: usize) -> TaggerModel {
    if symbol {
        TaggerModel {
            backward: assoc_insert(m.backward, output, t),
            symbols: assoc_insert(m.symbols, t, idx),
            ..m
        }
    } else if t.contains(' ') {
        TaggerModel { forward_multi: assoc_insert(m.forward_multi, words(t), idx), ..m }
    } else {
        TaggerModel { forward: assoc_insert(m.forward, t, idx), ..m }
    }
}

pub open spec fn add_spellings(m: TaggerModel, ts: Seq<Seq<char>>, symbol: bool, output: Seq<char>, idx: usize) -> TaggerModel
    decreases ts.len(),
{
    if ts.len() == 0 {
        m
    } else {
        add_spelling(add_spellings(m, ts.drop_last(), symbol, output, idx), ts.last(), symbol, output, idx)
    }
}

/// The tables after registering one configured tag.
pub open spec fn add_tag(m: TaggerModel, tag: Seq<char>, cfg: TagConfigView) -> TaggerModel {
    let primary = expand_tag(tag)[0];
    let output = match cfg.internal {
        Some(i) => i,
        None => primary,
    };
    let implies = match cfg.implies {
        Some(x) => seq![x],
        None => Seq::empty(),
    };
    let idx = m.records.len() as usize;
    let m1 = TaggerModel { exclusions: add_exclusions(m.exclusions, expand_all(cfg.excludes), primary), ..m };
    let m2 = match cfg.internal {
        Some(i) => TaggerModel { backward: assoc_insert(m1.backward, i, tag), ..m1 },
        None => m1,
    };
    let m3 = add_spellings(m2, all_spellings(tag, cfg.alt, cfg.alts), cfg.symbol, output, idx);
    TaggerModel { records: m3.records.push((output, implies)), ..m3 }
}

pub open spec fn add_tags(m: TaggerModel, tags: Seq<(Seq<char>, TagConfigView)>) -> TaggerModel
    decreases tags.len(),
{
    if tags.len() == 0 {
        m
    } else {
        let prev = add_tags(m, tags.drop_last());
        add_tag(prev, tags.last().0, tags.last().1)
    }
}

/// The tables built from every category of the configuration, in order.
pub open spec fn build_model(cats: Seq<Seq<(Seq<char>, TagConfigView)>>) -> TaggerModel
    decreases cats.len(),
{
    if cats.len() == 0 {
        empty_model()
    } else {
        add_tags(build_model(cats.drop_last()), cats.last())
    }
}

// ---------------------------------------------------------------------------
// Scanning a title
// ---------------------------------------------------------------------------

/// The tags reported for record `rec`: its output, then what it implies.
pub open spec fn emit(m: TaggerModel, rec: usize) -> Seq<Seq<char>> {
    seq![m.records[rec as int].0] + m.records[rec as int].1
}

/// Mute counters after one step: spent counters are dropped, the others count down.
pub open spec fn decay(mutes: Seq<(Seq<char>, nat)>) -> Seq<(Seq<char>, nat)>
    decreases mutes.len(),
{
    if mutes.len() == 0 {
        Seq::empty()
    } else {
        let d = decay(mutes.drop_last());
        let e = mutes.last();
        if e.1 > 0 {
            d.push((e.0, (e.1 - 1) as nat))
        } else {
            d
        }
    }
}

/// Mute counters after checking every exclusion phrase against the tokens ahead.
pub open spec fn apply_exclusions(
    ex: Seq<(Seq<Seq<char>>, Seq<char>)>,
    tokens: Seq<Seq<char>>,
    mutes: Seq<(Seq<char>, nat)>,
) -> Seq<(Seq<char>, nat)>
    decreases ex.len(),
{
    if ex.len() == 0 {
        mutes
    } else {
        let m = apply_exclusions(ex.drop_last(), tokens, mutes);
        let (phrase, tag) = ex.last();
        if starts_tokens(phrase, tokens) {
            assoc_insert(m, tag, (phrase.len() - 1) as nat)
        } else {
            m
        }
    }
}

/// The first multi-word tag (in table order) that the tokens ahead begin with: its length and record.
pub open spec fn first_multi(fm: Seq<(Seq<Seq<char>>, usize)>, tokens: Seq<Seq<char>>) -> Option<(nat, usize)>
    decreases fm.len(),
{
    if fm.len() == 0 {
        None
    } else {
        match first_multi(fm.drop_last(), tokens) {
            Some(x) => Some(x),
            None => if starts_tokens(fm.last().0, tokens) {
                Some((fm.last().0.len(), fm.last().1))
            } else {
                None
            },
        }
    }
}

/// The tags of a single-word tag at the front of the tokens, unless it is muted.
pub open spec fn single_tag(m: TaggerModel, token: Seq<char>, muted: Seq<(Seq<char>, nat)>) -> Seq<Seq<char>> {
    match assoc_get(m.forward, token) {
        Some(rec) => if key_index(keys_of(muted), token) is None {
            emit(m, rec)
        } else {
            Seq::empty()
        },
        None => Seq::empty(),
    }
}

/// The tags found in a token stream, with the given mute counters.
pub open spec fn scan(m: TaggerModel, tokens: Seq<Seq<char>>, mutes: Seq<(Seq<char>, nat)>) -> Seq<Seq<char>>
    decreases tokens.len(),
{
    if tokens.len() == 0 {
        Seq::empty()
    } else {
        let muted = apply_exclusions(m.exclusions, tokens, decay(mutes));
        match first_multi(m.forward_multi, tokens) {
            Some((n, rec)) => if 0 < n <= tokens.len() {
                emit(m, rec) + scan(m, tokens.skip(n as int), muted)
            } else {
                Seq::empty()
            },
            None => single_tag(m, tokens[0], muted) + scan(m, tokens.skip(1), muted),
        }
    }
}

/// Replaces each symbol-like tag found in `s` by a space, collecting their tags.
pub open spec fn symbol_pass(m: TaggerModel, syms: Seq<(Seq<char>, usize)>, s: Seq<char>) -> (Seq<char>, Seq<Seq<char>>)
    decreases syms.len(),
{
    if syms.len() == 0 {
        (s, Seq::empty())
    } else {
        let (s0, e0) = symbol_pass(m, syms.drop_last(), s);
        let (sym, rec) = syms.last();
        if contains_seq(s0, sym) {
            (replace_all(s0, sym, seq![' ']), e0 + emit(m, rec))
        } else {
            (s0, e0)
        }
    }
}

/// A word reduced to its alphanumeric characters and hyphens.
pub open spec fn clean_word(w: Seq<char>) -> Seq<char>
    decreases w.len(),
{
    if w.len() == 0 {
        Seq::empty()
    } else {
        let c = w.last();
        if unicode_alphanumeric(c) || c == '-' {
            clean_word(w.drop_last()).push(c)
        } else {
            clean_word(w.drop_last())
        }
    }
}

/// The non-empty cleaned words.
pub open spec fn clean_words(ws: Seq<Seq<char>>) -> Seq<Seq<char>>
    decreases ws.len(),
{
    if ws.len() == 0 {
        Seq::empty()
    } else {
        let c = clean_word(ws.last());
        if c.len() > 0 {
            clean_words(ws.drop_last()).push(c)
        } else {
            clean_words(ws.drop_last())
        }
    }
}

/// The tags found in lowercased text `s`: first the symbol-like tags, then the word tags.
pub open spec fn tags_in(m: TaggerModel, s: Seq<char>) -> Seq<Seq<char>> {
    let (rest, found) = symbol_pass(m, m.symbols, s);
    found + scan(m, clean_words(words(rest)), Seq::empty())
}

/// Single and curly quotes, which count as an apostrophe.
pub open spec fn is_quote(c: char) -> bool {
    c == '`' || c == '\u{2018}' || c == '\u{2019}' || c == '\u{201a}' || c == '\u{201b}'
}

/// Quotes turned into apostrophes.
pub open spec fn apostrophes(s: Seq<char>) -> Seq<char> {
    s.map_values(|c: char| if is_quote(c) { '\'' } else { c })
}

/// A title made ready for tagging: lowercased, quotes turned into apostrophes, possessives removed.
pub open spec fn prepared_title(s: Seq<char>) -> Seq<char> {
    replace_all(apostrophes(unicode_lowercase(s)), seq!['\'', 's'], Seq::empty())
}

/// The tags that `StoryTagger::tag` finds in a title, in the order it reports them.
pub open spec fn story_tags(m: TaggerModel, s: Seq<char>) -> Seq<Seq<char>> {
    tags_in(m, prepared_title(s))
}

/// What a search for `q` is turned into: the internal name of a symbol-like or ordinary tag, or the
/// search itself (lowercased) when it is an internal name already.
pub open spec fn search_target(m: TaggerModel, q: Seq<char>) -> Option<Seq<char>> {
    let l = unicode_lowercase(q);
    match assoc_get(m.symbols, l) {
        Some(i) => Some(m.records[i as int].0),
        None => match assoc_get(m.forward, l) {
            Some(i) => Some(m.records[i as int].0),
            None => match key_index(keys_of(m.backward), l) {
                Some(_) => Some(l),
                None => None,
            },
        },
    }
}

/// The display form of an indexed tag.
pub open spec fn display_tag(m: TaggerModel, s: Seq<char>) -> Seq<char> {
    let l = unicode_lowercase(s);
    match assoc_get(m.backward, l) {
        Some(v) => v,
        None => l,
    }
}

pub open spec fn display_tags(m: TaggerModel, ts: Seq<Seq<char>>) -> Seq<Seq<char>> {
    ts.map_values(|t: Seq<char>| display_tag(m, t))
}

pub open spec fn mutes_view(m: Seq<(String, usize)>) -> Seq<(Seq<char>, nat)> {
    m.map_values(|e: (String, usize)| (e.0@, e.1 as nat))
}

/// The acceptor's tags after it has been handed `tags`.
pub open spec fn accepted_after<T: TagAcceptor>(start: Set<Seq<char>>, tags: Seq<Seq<char>>) -> Set<Seq<char>> {
    start + tags.map_values(|t: Seq<char>| T::kept_as(t)).to_set()
}

/// A symbol-like tag with an internal name and a single spelling is found by searching for its
/// spelling, which gives the internal name, and displays as its spelling again: searching for
/// `c++` gives `cplusplus`, and `cplusplus` displays as `c++` (where lowercasing leaves both as
/// they are).
pub proof fn lemma_symbol_tag_round_trip(m: TaggerModel, t: Seq<char>, cfg: TagConfigView, internal: Seq<char>)
    requires
        cfg.symbol,
        cfg.internal == Some(internal),
        all_spellings(t, cfg.alt, cfg.alts) == seq![t],
        m.records.len() < usize::MAX,
    ensures
        unicode_lowercase(t) == t ==> search_target(add_tag(m, t, cfg), t) == Some(internal),
        unicode_lowercase(internal) == internal ==> display_tag(add_tag(m, t, cfg), internal) == t,
{
    let primary = expand_tag(t)[0];
    let idx = m.records.len() as usize;
    let implies = match cfg.implies {
        Some(x) => seq![x],
        None => Seq::<Seq<char>>::empty(),
    };
    let m1 = TaggerModel { exclusions: add_exclusions(m.exclusions, expand_all(cfg.excludes), primary), ..m };
    let m2 = TaggerModel { backward: assoc_insert(m1.backward, internal, t), ..m1 };
    assert(seq![t].drop_last() =~= Seq::<Seq<char>>::empty());
    assert(add_spellings(m2, Seq::empty(), true, internal, idx) == m2);
    let m3 = add_spelling(m2, t, true, internal, idx);
    assert(add_spellings(m2, seq![t], true, internal, idx) == m3);
    let r = add_tag(m, t, cfg);
    assert(r == TaggerModel { records: m3.records.push((internal, implies)), ..m3 });
    lemma_assoc_get_insert(m2.symbols, t, idx);
    lemma_assoc_get_insert(m2.backward, internal, t);
    assert(r.records[idx as int] == (internal, implies));
}

/// Creates a list of tag symbols from a story.
#[derive(Debug)]
pub struct StoryTagger {
    records: Vec<TagRecord>,
    forward: Vec<(String, usize)>,
    forward_multi: Vec<(MultiTokenTag, usize)>,
    exclusions: Vec<(MultiTokenTag, String)>,
    backward: Vec<(String, String)>,
    symbols: Vec<(String, usize)>,
}

/// Every record number stored in the tables names a record.
pub open spec fn records_in_range(m: TaggerModel) -> bool {
    &&& forall|i: int| 0 <= i < m.forward.len() ==> (#[trigger] m.forward[i]).1 < m.records.len()
    &&& forall|i: int| 0 <= i < m.forward_multi.len() ==> (#[trigger] m.forward_multi[i]).1 < m.records.len()
    &&& forall|i: int| 0 <= i < m.symbols.len() ==> (#[trigger] m.symbols[i]).1 < m.records.len()
}

/// No multi-word tag and no exclusion phrase is empty (an empty one would never let the scan
/// move on).
pub open spec fn no_empty_phrases(m: TaggerModel) -> bool {
    &&& forall|i: int| 0 <= i < m.forward_multi.len() ==> (#[trigger] m.forward_multi[i]).0.len() > 0
    &&& forall|i: int| 0 <= i < m.exclusions.len() ==> (#[trigger] m.exclusions[i]).0.len() > 0
}

impl StoryTagger {
    /// The tables.
    pub closed spec fn model(&self) -> TaggerModel {
        TaggerModel {
            records: self.records@.map_values(|r: TagRecord| (r.output@, strs_view(r.implies@))),
            forward: self.forward@.map_values(|e: (String, usize)| (e.0@, e.1)),
            forward_multi: self.forward_multi@.map_values(|e: (MultiTokenTag, usize)| (e.0.view(), e.1)),
            exclusions: self.exclusions@.map_values(|e: (MultiTokenTag, String)| (e.0.view(), e.1@)),
            backward: self.backward@.map_values(|e: (String, String)| (e.0@, e.1@)),
            symbols: self.symbols@.map_values(|e: (String, usize)| (e.0@, e.1)),
        }
    }

    /// The tables are consistent.
    pub closed spec fn wf(&self) -> bool {
        records_in_range(self.model())
    }

    /// Scanning any title terminates.
    pub closed spec fn total(&self) -> bool {
        no_empty_phrases(self.model())
    }

    /// Whether scanning any title terminates: no configured multi-word tag or exclusion phrase
    /// is blank.
    pub fn scans_terminate(&self) -> (r: bool)
        ensures
            r == self.total(),
    {
        let ghost m = self.model();
        let mut i: usize = 0;
        while i < self.forward_multi.len()
            invariant
                i <= self.forward_multi@.len(),
                m == self.model(),
                forall|j: int| 0 <= j < i ==> (#[trigger] m.forward_multi[j]).0.len() > 0,
            decreases self.forward_multi@.len() - i,
        {
            assert(m.forward_multi[i as int].0.len() == self.forward_multi@[i as int].0.view().len());
            if self.forward_multi[i].0.len() == 0 {
                return false;
            }
            i = i + 1;
        }
        let mut k: usize = 0;
        while k < self.exclusions.len()
            invariant
                k <= self.exclusions@.len(),
                m == self.model(),
                forall|j: int| 0 <= j < m.forward_multi.len() ==> (#[trigger] m.forward_multi[j]).0.len() > 0,
                forall|j: int| 0 <= j < k ==> (#[trigger] m.exclusions[j]).0.len() > 0,
            decreases self.exclusions@.len() - k,
        {
            assert(m.exclusions[k as int].0.len() == self.exclusions@[k as int].0.view().len());
            if self.exclusions[k].0.len() == 0 {
                return false;
            }
            k = k + 1;
        }
        true
    }

    /// The spellings that `tag` stands for.
    fn compute_tag(tag: &str) -> (r: Vec<String>)
        ensures
            strs_view(r@) == expand_tag(tag@),
    {
        let t = chars_of(tag);
        let v = compute_tag_chars(&t);
        let mut out: Vec<String> = Vec::new();
        let mut i: usize = 0;
        while i < v.len()
            invariant
                i <= v@.len(),
                strs_view(out@) == chars_views(v@).take(i as int),
            decreases v@.len() - i,
        {
            let ghost prev = strs_view(out@);
            let x = string_of(v[i].as_slice());
            out.push(x);
            assert(strs_view(out@) =~= prev.push(v@[i as int]@));
            assert(chars_views(v@).take(i + 1) =~= chars_views(v@).take(i as int).push(v@[i as int]@));
            i = i + 1;
        }
        assert(chars_views(v@).take(i as int) =~= chars_views(v@));
        out
    }

    /// The primary spelling of a tag and all spellings of it and its alternatives.
    fn compute_all_tags(tag: &str, alt: &Option<String>, alts: &Vec<String>) -> (r: (String, Vec<String>))
        ensures
            r.0@ == expand_tag(tag@)[0],
            strs_view(r.1@) == all_spellings(tag@, opt_view(*alt), strs_view(alts@)),
    {
        let v = Self::compute_tag(tag);
        proof {
            lemma_expand_tag_nonempty(tag@);
        }
        let primary = v[0].clone();
        let mut all: Vec<String> = v;
        match alt {
            Some(a) => {
                let w = Self::compute_tag(a.as_str());
                append_strings(&mut all, &w);
            },
            None => {},
        }
        let ghost head = strs_view(all@);
        let mut i: usize = 0;
        while i < alts.len()
            invariant
                i <= alts@.len(),
                strs_view(all@) == head + expand_all(strs_view(alts@).take(i as int)),
            decreases alts@.len() - i,
        {
            let w = Self::compute_tag(alts[i].as_str());
            append_strings(&mut all, &w);
            i = i + 1;
            assert(strs_view(alts@).take(i as int).drop_last() =~= strs_view(alts@).take(i - 1));
            assert(strs_view(all@) =~= head + expand_all(strs_view(alts@).take(i as int)));
        }
        assert(strs_view(alts@).take(i as int) =~= strs_view(alts@));
        let d = dedup_strings(&all);
        assert(strs_view(all@) =~= expand_tag(tag@) + match opt_view(*alt) {
            Some(a) => expand_tag(a),
            None => Seq::empty(),
        } + expand_all(strs_view(alts@)));
        (primary, d)
    }

    /// Builds the tables from a configuration.
    pub fn new(config: &TaggerConfig) -> (r: StoryTagger)
        ensures
            r.model() == build_model(config.view()),
            r.wf(),
            r.total() == no_empty_phrases(build_model(config.view())),
    {
        let mut t = StoryTagger {
            records: Vec::new(),
            forward: Vec::new(),
            forward_multi: Vec::new(),
            exclusions: Vec::new(),
            backward: Vec::new(),
            symbols: Vec::new(),
        };
        assert(t.model() == empty_model()) by {
            assert(t.model().records =~= Seq::empty());
            assert(t.model().forward =~= Seq::empty());
            assert(t.model().forward_multi =~= Seq::empty());
            assert(t.model().exclusions =~= Seq::empty());
            assert(t.model().backward =~= Seq::empty());
            assert(t.model().symbols =~= Seq::empty());
        }
        let mut c: usize = 0;
        while c < config.tags.len()
            invariant
                c <= config.tags@.len(),
                t.model() == build_model(config.view().take(c as int)),
                t.wf(),
            decreases config.tags@.len() - c,
        {
            let inner = &config.tags[c].1;
            let ghost start = t.model();
            let ghost tags_view = config.view()[c as int];
            assert(tags_view == tag_entries_view(inner@));
            let mut k: usize = 0;
            assert(add_tags(start, tags_view.take(0)) == start);
            while k < inner.len()
                invariant
                    k <= inner@.len(),
                    tags_view == tag_entries_view(inner@),
                    t.model() == add_tags(start, tags_view.take(k as int)),
                    t.wf(),
                decreases inner@.len() - k,
            {
                t.add_tag(&inner[k].0, &inner[k].1);
                k = k + 1;
                assert(tags_view.take(k as int).drop_last() =~= tags_view.take(k - 1));
            }
            assert(tags_view.take(k as int) =~= tags_view);
            c = c + 1;
            assert(config.view().take(c as int).drop_last() =~= config.view().take(c - 1));
        }
        assert(config.view().take(c as int) =~= config.view());
        t
    }

    /// Registers one configured tag.
    fn add_tag(&mut self, tag: &String, cfg: &TagConfig)
        requires
            old(self).wf(),
        ensures
            final(self).model() == add_tag(old(self).model(), tag@, cfg.view()),
            final(self).wf(),
    {
        let (primary, all_tags) = Self::compute_all_tags(tag.as_str(), &cfg.alt, &cfg.alts);
        // exclusions
        let ghost m0 = self.model();
        let mut ex: Vec<String> = Vec::new();
        let mut i: usize = 0;
        while i < cfg.excludes.len()
            invariant
                i <= cfg.excludes@.len(),
                strs_view(ex@) == expand_all(strs_view(cfg.excludes@).take(i as int)),
            decreases cfg.excludes@.len() - i,
        {
            let w = Self::compute_tag(cfg.excludes[i].as_str());
            append_strings(&mut ex, &w);
            i = i + 1;
            assert(strs_view(cfg.excludes@).take(i as int).drop_last() =~= strs_view(cfg.excludes@).take(i - 1));
        }
        assert(strs_view(cfg.excludes@).take(i as int) =~= strs_view(cfg.excludes@));
        let ghost base_ex = self.model().exclusions;
        let mut j: usize = 0;
        while j < ex.len()
            invariant
                j <= ex@.len(),
                self.model() == (TaggerModel { exclusions: self.model().exclusions, ..m0 }),
                self.model().exclusions == add_exclusions(base_ex, strs_view(ex@).take(j as int), primary@),
                records_in_range(self.model()),
            decreases ex@.len() - j,
        {
            let chars = chars_of(ex[j].as_str());
            let key = MultiTokenTag::from_words(&chars);
            self.insert_exclusion(key, primary.clone());
            j = j + 1;
            assert(strs_view(ex@).take(j as int).drop_last() =~= strs_view(ex@).take(j - 1));
        }
        assert(strs_view(ex@).take(j as int) =~= strs_view(ex@));
        let ghost m1 = self.model();
        let output = match &cfg.internal {
            Some(s) => s.clone(),
            None => primary.clone(),
        };
        let implies: Vec<String> = match &cfg.implies {
            Some(s) => vec![s.clone()],
            None => Vec::new(),
        };
        assert(strs_view(implies@) == match opt_view(cfg.implies) {
            Some(x) => seq![x],
            None => Seq::<Seq<char>>::empty(),
        });
        match &cfg.internal {
            Some(internal) => {
                self.insert_backward(internal.clone(), tag.clone());
            },
            None => {},
        }
        let idx = self.records.len();
        let ghost m2 = self.model();
        let mut k: usize = 0;
        while k < all_tags.len()
            invariant
                k <= all_tags@.len(),
                idx == m2.records.len(),
                self.model() == add_spellings(m2, strs_view(all_tags@).take(k as int), cfg.symbol, output@, idx),
                forall|i: int| 0 <= i < self.model().forward.len() ==> (#[trigger] self.model().forward[i]).1 <= idx,
                forall|i: int| 0 <= i < self.model().forward_multi.len() ==> (#[trigger] self.model().forward_multi[i]).1 <= idx,
                forall|i: int| 0 <= i < self.model().symbols.len() ==> (#[trigger] self.model().symbols[i]).1 <= idx,
                self.model().records == m2.records,
            decreases all_tags@.len() - k,
        {
            let t = &all_tags[k];
            let ghost mb = self.model();
            proof {
                lemma_assoc_insert_values(mb.forward, t@, idx);
                lemma_assoc_insert_values(mb.forward_multi, words(t@), idx);
                lemma_assoc_insert_values(mb.symbols, t@, idx);
            }
            if cfg.symbol {
                self.insert_backward(output.clone(), t.clone());
                self.insert_symbol(t.clone(), idx);
            } else {
                let tc = chars_of(t.as_str());
                if contains_char(tc.as_slice(), ' ') {
                    let key = MultiTokenTag::from_words(&tc);
                    self.insert_multi(key, idx);
                } else {
                    self.insert_forward(t.clone(), idx);
                }
            }
            k = k + 1;
            assert(strs_view(all_tags@).take(k as int).drop_last() =~= strs_view(all_tags@).take(k - 1));
        }
        assert(strs_view(all_tags@).take(k as int) =~= strs_view(all_tags@));
        let ghost mp = self.model();
        self.records.push(TagRecord { output, implies });
        proof {
            let m = self.model();
            assert(m.records =~= m2.records.push((output@, strs_view(implies@))));
            assert(m.forward == mp.forward);
            assert(m.forward_multi == mp.forward_multi);
            assert(m.symbols == mp.symbols);
            assert forall|i: int| 0 <= i < m.forward.len() implies (#[trigger] m.forward[i]).1 < m.records.len() by {
                assert(mp.forward[i].1 <= idx);
            }
            assert forall|i: int| 0 <= i < m.forward_multi.len() implies (#[trigger] m.forward_multi[i]).1 < m.records.len() by {
                assert(mp.forward_multi[i].1 <= idx);
            }
            assert forall|i: int| 0 <= i < m.symbols.len() implies (#[trigger] m.symbols[i]).1 < m.records.len() by {
                assert(mp.symbols[i].1 <= idx);
            }
        }
    }

    fn insert_exclusion(&mut self, key: MultiTokenTag, tag: String)
        ensures
            final(self).model() == (TaggerModel {
                exclusions: assoc_insert(old(self).model().exclusions, key.view(), tag@),
                ..old(self).model()
            }),
    {
        let ghost before = self.model();
        assert(keys_of(before.exclusions) =~= multi_keys(self.exclusions@));
        match multi_key_index(&self.exclusions, &key) {
            Some(i) => {
                let ghost kv = key.view();
                self.exclusions.set(i, (key, tag));
                assert(self.model().exclusions =~= before.exclusions.update(i as int, (kv, tag@)));
            },
            None => {
                let ghost kv = key.view();
                self.exclusions.push((key, tag));
                assert(self.model().exclusions =~= before.exclusions.push((kv, tag@)));
            },
        }
    }

    fn insert_backward(&mut self, k: String, v: String)
        ensures
            final(self).model() == (TaggerModel {
                backward: assoc_insert(old(self).model().backward, k@, v@),
                ..old(self).model()
            }),
    {
        let ghost before = self.model();
        assert(keys_of(before.backward) =~= string_keys(self.backward@));
        match string_key_index(&self.backward, &k) {
            Some(i) => {
                self.backward.set(i, (k, v));
                assert(self.model().backward =~= before.backward.update(i as int, (k@, v@)));
            },
            None => {
                self.backward.push((k, v));
                assert(self.model().backward =~= before.backward.push((k@, v@)));
            },
        }
    }

    fn insert_symbol(&mut self, k: String, idx: usize)
        ensures
            final(self).model() == (TaggerModel {
                symbols: assoc_insert(old(self).model().symbols, k@, idx),
                ..old(self).model()
            }),
    {
        let ghost before = self.model();
        assert(keys_of(before.symbols) =~= string_keys(self.symbols@));
        match string_key_index(&self.symbols, &k) {
            Some(i) => {
                self.symbols.set(i, (k, idx));
                assert(self.model().symbols =~= before.symbols.update(i as int, (k@, idx)));
            },
            None => {
                self.symbols.push((k, idx));
                assert(self.model().symbols =~= before.symbols.push((k@, idx)));
            },
        }
    }

    fn insert_forward(&mut self, k: String, idx: usize)
        ensures
            final(self).model() == (TaggerModel {
                forward: assoc_insert(old(self).model().forward, k@, idx),
                ..old(self).model()
            }),
    {
        let ghost before = self.model();
        assert(keys_of(before.forward) =~= string_keys(self.forward@));
        match string_key_index(&self.forward, &k) {
            Some(i) => {
                self.forward.set(i, (k, idx));
                assert(self.model().forward =~= before.forward.update(i as int, (k@, idx)));
            },
            None => {
                self.forward.push((k, idx));
                assert(self.model().forward =~= before.forward.push((k@, idx)));
            },
        }
    }

    fn insert_multi(&mut self, key: MultiTokenTag, idx: usize)
        ensures
            final(self).model() == (TaggerModel {
                forward_multi: assoc_insert(old(self).model().forward_multi, key.view(), idx),
                ..old(self).model()
            }),
    {
        let ghost before = self.model();
        assert(keys_of(before.forward_multi) =~= multi_keys(self.forward_multi@));
        match multi_key_index(&self.forward_multi, &key) {
            Some(i) => {
                let ghost kv = key.view();
                self.forward_multi.set(i, (key, idx));
                assert(self.model().forward_multi =~= before.forward_multi.update(i as int, (kv, idx)));
            },
            None => {
                let ghost kv = key.view();
                self.forward_multi.push((key, idx));
                assert(self.model().forward_multi =~= before.forward_multi.push((kv, idx)));
            },
        }
    }
}

impl StoryTagger {
    fn emit_into(&self, rec: usize, out: &mut Vec<String>)
        requires
            rec < self.model().records.len(),
        ensures
            strs_view(final(out)@) == strs_view(old(out)@) + emit(self.model(), rec),
    {
        let r = &self.records[rec];
        assert(self.model().records[rec as int] == (r.output@, strs_view(r.implies@)));
        let ghost start = strs_view(out@);
        out.push(r.output.clone());
        assert(strs_view(out@) =~= start + seq![r.output@]);
        append_strings(out, &r.implies);
        assert(strs_view(out@) =~= start + emit(self.model(), rec));
    }

    /// Replaces each symbol-like tag found in `s` by a space, reporting its tags into `out`.
    fn replace_symbols(&self, s: Vec<char>, out: &mut Vec<String>) -> (r: Vec<char>)
        requires
            self.wf(),
        ensures
            (r@, strs_view(final(out)@).skip(old(out)@.len() as int)) == symbol_pass(self.model(), self.model().symbols, s@),
            strs_view(final(out)@).take(old(out)@.len() as int) == strs_view(old(out)@),
    {
        let ghost m = self.model();
        let ghost start = strs_view(out@);
        let mut cur = s;
        let mut k: usize = 0;
        assert(m.symbols.take(0) =~= Seq::<(Seq<char>, usize)>::empty());
        assert(strs_view(out@).skip(start.len() as int) =~= Seq::<Seq<char>>::empty());
        while k < self.symbols.len()
            invariant
                k <= self.symbols@.len(),
                m == self.model(),
                records_in_range(m),
                start.len() == old(out)@.len(),
                strs_view(out@).len() >= start.len(),
                strs_view(out@).take(start.len() as int) == start,
                (cur@, strs_view(out@).skip(start.len() as int)) == symbol_pass(m, m.symbols.take(k as int), s@),
            decreases self.symbols@.len() - k,
        {
            let ghost before = strs_view(out@);
            let sym = chars_of(self.symbols[k].0.as_str());
            let rec = self.symbols[k].1;
            assert(m.symbols[k as int] == (sym@, rec));
            assert(m.symbols.take(k + 1).drop_last() =~= m.symbols.take(k as int));
            if contains(cur.as_slice(), sym.as_slice()) {
                let space = vec![' '];
                assert(space@ == seq![' ']);
                cur = replace(cur.as_slice(), sym.as_slice(), space.as_slice());
                self.emit_into(rec, out);
                assert(strs_view(out@).skip(start.len() as int) =~= before.skip(start.len() as int) + emit(m, rec));
                assert(strs_view(out@).take(start.len() as int) =~= before.take(start.len() as int));
            }
            k = k + 1;
        }
        assert(m.symbols.take(k as int) =~= m.symbols);
        cur
    }

    fn forward_get(&self, tok: &String) -> (r: Option<usize>)
        requires
            self.wf(),
        ensures
            r == assoc_get(self.model().forward, tok@),
            r matches Some(i) ==> i < self.model().records.len(),
    {
        let ghost m = self.model();
        assert(keys_of(m.forward) =~= string_keys(self.forward@));
        match string_key_index(&self.forward, tok) {
            Some(i) => {
                assert(m.forward[i as int].1 == self.forward@[i as int].1);
                Some(self.forward[i].1)
            },
            None => None,
        }
    }

    fn first_multi_at(&self, toks: &Vec<String>, pos: usize) -> (r: Option<(usize, usize)>)
        requires
            self.wf(),
            self.total(),
            pos < toks@.len(),
        ensures
            r matches Some((n, rec)) ==> first_multi(self.model().forward_multi, strs_view(toks@).skip(pos as int))
                == Some((n as nat, rec)) && 0 < n <= toks@.len() - pos && rec < self.model().records.len(),
            r is None ==> first_multi(self.model().forward_multi, strs_view(toks@).skip(pos as int)) is None,
    {
        let ghost m = self.model();
        let ghost t = strs_view(toks@).skip(pos as int);
        let mut i: usize = 0;
        assert(m.forward_multi.take(0) =~= Seq::<(Seq<Seq<char>>, usize)>::empty());
        while i < self.forward_multi.len()
            invariant
                i <= self.forward_multi@.len(),
                m == self.model(),
                pos < toks@.len(),
                t == strs_view(toks@).skip(pos as int),
                no_empty_phrases(m),
                records_in_range(m),
                first_multi(m.forward_multi.take(i as int), t) is None,
            decreases self.forward_multi@.len() - i,
        {
            let entry = &self.forward_multi[i];
            assert(m.forward_multi[i as int] == (entry.0.view(), entry.1));
            assert(m.forward_multi.take(i + 1).drop_last() =~= m.forward_multi.take(i as int));
            if entry.0.matches_at(toks.as_slice(), pos) {
                let n = entry.0.len();
                proof {
                    lemma_first_multi_prefix(m.forward_multi, t, i as int);
                    lemma_first_multi_extend(m.forward_multi, t, i + 1);
                    assert(m.forward_multi[i as int].0.len() > 0);
                }
                return Some((n, entry.1));
            }
            i = i + 1;
        }
        assert(m.forward_multi.take(i as int) =~= m.forward_multi);
        None
    }

    fn apply_exclusions_at(&self, toks: &Vec<String>, pos: usize, mutes: Vec<(String, usize)>) -> (r: Vec<(String, usize)>)
        requires
            self.total(),
            pos < toks@.len(),
        ensures
            mutes_view(r@) == apply_exclusions(self.model().exclusions, strs_view(toks@).skip(pos as int), mutes_view(mutes@)),
    {
        let ghost m = self.model();
        let ghost t = strs_view(toks@).skip(pos as int);
        let mut cur = mutes;
        let ghost start = mutes_view(cur@);
        let mut i: usize = 0;
        assert(m.exclusions.take(0) =~= Seq::<(Seq<Seq<char>>, Seq<char>)>::empty());
        while i < self.exclusions.len()
            invariant
                i <= self.exclusions@.len(),
                m == self.model(),
                no_empty_phrases(m),
                pos < toks@.len(),
                t == strs_view(toks@).skip(pos as int),
                mutes_view(cur@) == apply_exclusions(m.exclusions.take(i as int), t, start),
            decreases self.exclusions@.len() - i,
        {
            let entry = &self.exclusions[i];
            assert(m.exclusions[i as int] == (entry.0.view(), entry.1@));
            assert(m.exclusions.take(i + 1).drop_last() =~= m.exclusions.take(i as int));
            if entry.0.matches_at(toks.as_slice(), pos) {
                assert(m.exclusions[i as int].0.len() > 0);
                let n = entry.0.len() - 1;
                let ghost before = mutes_view(cur@);
                assert(keys_of(before) =~= string_keys(cur@));
                match string_key_index(&cur, &entry.1) {
                    Some(j) => {
                        cur.set(j, (entry.1.clone(), n));
                        assert(mutes_view(cur@) =~= before.update(j as int, (entry.1@, n as nat)));
                    },
                    None => {
                        cur.push((entry.1.clone(), n));
                        assert(mutes_view(cur@) =~= before.push((entry.1@, n as nat)));
                    },
                }
            }
            i = i + 1;
        }
        assert(m.exclusions.take(i as int) =~= m.exclusions);
        cur
    }

    /// The tags found in a token stream.
    fn scan_tokens(&self, toks: &Vec<String>, out: &mut Vec<String>)
        requires
            self.wf(),
            self.total(),
        ensures
            strs_view(final(out)@) == strs_view(old(out)@) + scan(self.model(), strs_view(toks@), Seq::empty()),
    {
        let ghost m = self.model();
        let ghost all = strs_view(toks@);
        let mut mutes: Vec<(String, usize)> = Vec::new();
        let mut pos: usize = 0;
        assert(all.skip(0) =~= all);
        assert(mutes_view(mutes@) =~= Seq::<(Seq<char>, nat)>::empty());
        while pos < toks.len()
            invariant
                pos <= toks@.len(),
                m == self.model(),
                self.wf(),
                self.total(),
                all == strs_view(toks@),
                strs_view(out@) + scan(m, all.skip(pos as int), mutes_view(mutes@)) == strs_view(old(out)@) + scan(m, all, Seq::empty()),
            decreases toks@.len() - pos,
        {
            let ghost rest = all.skip(pos as int);
            let ghost before = strs_view(out@);
            let ghost mv = mutes_view(mutes@);
            let decayed = decay_mutes(&mutes);
            let muted = self.apply_exclusions_at(toks, pos, decayed);
            match self.first_multi_at(toks, pos) {
                Some((n, rec)) => {
                    self.emit_into(rec, out);
                    assert(rest.skip(n as int) =~= all.skip(pos + n));
                    pos = pos + n;
                },
                None => {
                    let tok = &toks[pos];
                    assert(rest[0] == tok@);
                    match self.forward_get(tok) {
                        Some(rec) => {
                            let ghost keys = keys_of(mutes_view(muted@));
                            assert(keys =~= string_keys(muted@));
                            if string_key_index(&muted, tok).is_none() {
                                self.emit_into(rec, out);
                            }
                        },
                        None => {},
                    }
                    assert(rest.skip(1) =~= all.skip(pos + 1));
                    pos = pos + 1;
                },
            }
            mutes = muted;
            assert(strs_view(out@) + scan(m, all.skip(pos as int), mutes_view(mutes@)) =~= before + scan(m, rest, mv));
        }
        assert(all.skip(pos as int) =~= Seq::<Seq<char>>::empty());
        assert(strs_view(out@) =~= strs_view(old(out)@) + scan(m, all, Seq::empty()));
    }

    /// The tags found in lowercased text.
    fn find_tags(&self, s: Vec<char>) -> (r: Vec<String>)
        requires
            self.wf(),
            self.total(),
        ensures
            strs_view(r@) == tags_in(self.model(), s@),
    {
        let mut out: Vec<String> = Vec::new();
        let rest = self.replace_symbols(s, &mut out);
        let ghost found = strs_view(out@);
        assert(found.skip(0) =~= found);
        let toks = clean_tokens(&rest);
        self.scan_tokens(&toks, &mut out);
        out
    }

    /// The tags of a title, in the order in which `tag` reports them.
    fn story_tags_exec(&self, s: &str) -> (r: Vec<String>)
        requires
            self.wf(),
            self.total(),
        ensures
            strs_view(r@) == story_tags(self.model(), s@),
    {
        let lower = str_to_lowercase(s);
        let chars = chars_of(lower.as_str());
        let quoted = to_apostrophes(&chars);
        let pos = vec!['\'', 's'];
        let none: Vec<char> = Vec::new();
        assert(pos@ == seq!['\'', 's']);
        assert(none@ == Seq::<char>::empty());
        let prepared = replace(quoted.as_slice(), pos.as_slice(), none.as_slice());
        self.find_tags(prepared)
    }

    /// Reports the tags found in a title to `tags`. The title is lowercased, quotes become
    /// apostrophes and possessive `'s` is dropped; symbol-like tags are found anywhere in the text,
    /// the others word by word.
    pub fn tag<T: TagAcceptor>(&self, s: &str, tags: &mut T)
        requires
            self.wf(),
            self.total(),
        ensures
            final(tags).accepted() == accepted_after::<T>(old(tags).accepted(), story_tags(self.model(), s@)),
    {
        let found = self.story_tags_exec(s);
        hand_over(&found, tags);
    }

    /// Identifies a tag in a search term and returns the term to search for: for a symbol-like tag,
    /// its internal name (`c++` becomes `cplusplus`).
    pub fn check_tag_search(&self, search: &str) -> (r: Option<String>)
        requires
            self.wf(),
        ensures
            opt_view(r) == search_target(self.model(), search@),
    {
        let ghost m = self.model();
        let lower = str_to_lowercase(search);
        assert(keys_of(m.symbols) =~= string_keys(self.symbols@));
        assert(keys_of(m.backward) =~= string_keys(self.backward@));
        match string_key_index(&self.symbols, &lower) {
            Some(i) => {
                let idx = self.symbols[i].1;
                assert(m.symbols[i as int].1 == idx);
                return Some(self.records[idx].output.clone());
            },
            None => {},
        }
        match self.forward_get(&lower) {
            Some(idx) => {
                return Some(self.records[idx].output.clone());
            },
            None => {},
        }
        match string_key_index(&self.backward, &lower) {
            Some(i) => {
                proof {
                    lemma_key_index(keys_of(m.backward), lower@);
                }
                Some(self.backward[i].0.clone())
            },
            None => None,
        }
    }

    /// The display form of an indexed tag (`cplusplus` becomes `c++`).
    pub fn make_display_tag(&self, s: &str) -> (r: String)
        ensures
            r@ == display_tag(self.model(), s@),
    {
        let ghost m = self.model();
        let lower = str_to_lowercase(s);
        assert(keys_of(m.backward) =~= string_keys(self.backward@));
        match string_key_index(&self.backward, &lower) {
            Some(i) => self.backward[i].1.clone(),
            None => lower,
        }
    }

    /// The display forms of indexed tags.
    pub fn make_display_tags(&self, tags: &Vec<String>) -> (r: Vec<String>)
        ensures
            strs_view(r@) == display_tags(self.model(), strs_view(tags@)),
    {
        let mut out: Vec<String> = Vec::new();
        let mut i: usize = 0;
        while i < tags.len()
            invariant
                i <= tags@.len(),
                strs_view(out@) == display_tags(self.model(), strs_view(tags@).take(i as int)),
            decreases tags@.len() - i,
        {
            let ghost prev = strs_view(out@);
            let d = self.make_display_tag(tags[i].as_str());
            out.push(d);
            assert(strs_view(out@) =~= prev.push(display_tag(self.model(), tags@[i as int]@)));
            assert(strs_view(tags@).take(i + 1) =~= strs_view(tags@).take(i as int).push(tags@[i as int]@));
            i = i + 1;
        }
        assert(strs_view(tags@).take(i as int) =~= strs_view(tags@));
        out
    }

    /// Per-source tag details; none are kept.
    pub fn tag_details() -> (r: Vec<(String, TagSet)>)
        ensures
            r@.len() == 0,
    {
        Vec::new()
    }
}

proof fn lemma_first_multi_extend(fm: Seq<(Seq<Seq<char>>, usize)>, t: Seq<Seq<char>>, k: int)
    requires
        0 <= k <= fm.len(),
        first_multi(fm.take(k), t) is Some,
    ensures
        first_multi(fm, t) == first_multi(fm.take(k), t),
    decreases fm.len(),
{
    if k == fm.len() {
        assert(fm.take(k) =~= fm);
    } else {
        assert(fm.drop_last().take(k) =~= fm.take(k));
        lemma_first_multi_extend(fm.drop_last(), t, k);
    }
}

proof fn lemma_first_multi_prefix(fm: Seq<(Seq<Seq<char>>, usize)>, t: Seq<Seq<char>>, i: int)
    requires
        0 <= i < fm.len(),
        first_multi(fm.take(i), t) is None,
        starts_tokens(fm[i].0, t),
    ensures
        first_multi(fm.take(i + 1), t) == Some((fm[i].0.len(), fm[i].1)),
{
    assert(fm.take(i + 1).drop_last() =~= fm.take(i));
}

/// Hands each of `found` to the acceptor, in order.
fn hand_over<T: TagAcceptor>(found: &Vec<String>, tags: &mut T)
    ensures
        final(tags).accepted() == accepted_after::<T>(old(tags).accepted(), strs_view(found@)),
{
    let mut i: usize = 0;
    while i < found.len()
        invariant
            i <= found@.len(),
            tags.accepted() == accepted_after::<T>(old(tags).accepted(), strs_view(found@).take(i as int)),
        decreases found@.len() - i,
    {
        let ghost before = tags.accepted();
        tags.tag(found[i].as_str());
        proof {
            let a = strs_view(found@).take(i + 1).map_values(|t: Seq<char>| T::kept_as(t));
            let b = strs_view(found@).take(i as int).map_values(|t: Seq<char>| T::kept_as(t));
            assert(a =~= b.push(T::kept_as(found@[i as int]@)));
            assert(a.to_set() =~= b.to_set().insert(T::kept_as(found@[i as int]@))) by {
                assert forall|x: Seq<char>| a.to_set().contains(x) <==> b.to_set().insert(T::kept_as(found@[i as int]@)).contains(x) by {
                    if a.to_set().contains(x) {
                        let k = choose|k: int| 0 <= k < a.len() && a[k] == x;
                        if k < b.len() {
                            assert(b[k] == x);
                        }
                    }
                    if b.to_set().contains(x) {
                        let k = choose|k: int| 0 <= k < b.len() && b[k] == x;
                        assert(a[k] == x);
                    }
                    if x == T::kept_as(found@[i as int]@) {
                        assert(a[i as int] == x);
                    }
                }
            }
            assert(tags.accepted() =~= accepted_after::<T>(old(tags).accepted(), strs_view(found@).take(i + 1)));
        }
        i = i + 1;
    }
    assert(strs_view(found@).take(i as int) =~= strs_view(found@));
}

/// Mute counters after one step.
fn decay_mutes(m: &Vec<(String, usize)>) -> (r: Vec<(String, usize)>)
    ensures
        mutes_view(r@) == decay(mutes_view(m@)),
{
    let mut out: Vec<(String, usize)> = Vec::new();
    let mut i: usize = 0;
    while i < m.len()
        invariant
            i <= m@.len(),
            mutes_view(out@) == decay(mutes_view(m@).take(i as int)),
        decreases m@.len() - i,
    {
        let ghost prev = mutes_view(out@);
        assert(mutes_view(m@).take(i + 1).drop_last() =~= mutes_view(m@).take(i as int));
        assert(mutes_view(m@).take(i + 1).last() == (m@[i as int].0@, m@[i as int].1 as nat));
        if m[i].1 > 0 {
            out.push((m[i].0.clone(), m[i].1 - 1));
            assert(mutes_view(out@) =~= prev.push((m@[i as int].0@, (m@[i as int].1 - 1) as nat)));
        }
        i = i + 1;
    }
    assert(mutes_view(m@).take(i as int) =~= mutes_view(m@));
    out
}

/// A word reduced to its alphanumeric characters and hyphens.
fn clean(w: &Vec<char>) -> (r: Vec<char>)
    ensures
        r@ == clean_word(w@),
{
    let mut out: Vec<char> = Vec::new();
    let mut i: usize = 0;
    while i < w.len()
        invariant
            i <= w@.len(),
            out@ == clean_word(w@.take(i as int)),
        decreases w@.len() - i,
    {
        assert(w@.take(i + 1).drop_last() =~= w@.take(i as int));
        assert(w@.take(i + 1).last() == w@[i as int]);
        let c = w[i];
        if char_is_alphanumeric(c) || c == '-' {
            out.push(c);
        }
        i = i + 1;
    }
    assert(w@.take(i as int) =~= w@);
    out
}

/// The non-empty cleaned words of `s`.
fn clean_tokens(s: &Vec<char>) -> (r: Vec<String>)
    ensures
        strs_view(r@) == clean_words(words(s@)),
{
    let ws = split_words(s.as_slice());
    let ghost wv = chars_views(ws@);
    let mut out: Vec<String> = Vec::new();
    let mut i: usize = 0;
    while i < ws.len()
        invariant
            i <= ws@.len(),
            wv == chars_views(ws@),
            strs_view(out@) == clean_words(wv.take(i as int)),
        decreases ws@.len() - i,
    {
        let ghost prev = strs_view(out@);
        assert(wv.take(i + 1).drop_last() =~= wv.take(i as int));
        assert(wv.take(i + 1).last() == ws@[i as int]@);
        let c = clean(&ws[i]);
        if c.len() > 0 {
            out.push(string_of(c.as_slice()));
            assert(strs_view(out@) =~= prev.push(c@));
        }
        i = i + 1;
    }
    assert(wv.take(i as int) =~= wv);
    out
}

/// Quotes turned into apostrophes.
fn to_apostrophes(s: &Vec<char>) -> (r: Vec<char>)
    ensures
        r@ == apostrophes(s@),
{
    let mut out: Vec<char> = Vec::new();
    let mut i: usize = 0;
    while i < s.len()
        invariant
            i <= s@.len(),
            out@ == apostrophes(s@.take(i as int)),
        decreases s@.len() - i,
    {
        let c = s[i];
        let d = if c == '`' || c == '\u{2018}' || c == '\u{2019}' || c == '\u{201a}' || c == '\u{201b}' {
            '\''
        } else {
            c
        };
        out.push(d);
        i = i + 1;
        assert(out@ =~= apostrophes(s@.take(i as int)));
    }
    assert(s@.take(i as int) =~= s@);
    out
}

/// The tagger of the first generation of the site: like `StoryTagger`, without the clean-up of
/// quotes and possessives.
#[derive(Debug)]
pub struct Tagger {
    inner: StoryTagger,
}

impl Tagger {
    pub closed spec fn model(&self) -> TaggerModel {
        self.inner.model()
    }

    pub closed spec fn wf(&self) -> bool {
        self.inner.wf()
    }

    pub closed spec fn total(&self) -> bool {
        self.inner.total()
    }

    /// Whether scanning any title terminates.
    pub fn scans_terminate(&self) -> (r: bool)
        ensures
            r == self.total(),
    {
        self.inner.scans_terminate()
    }

    pub fn new(config: &TaggerConfig) -> (r: Tagger)
        ensures
            r.model() == build_model(config.view()),
            r.wf(),
            r.total() == no_empty_phrases(build_model(config.view())),
    {
        Tagger { inner: StoryTagger::new(config) }
    }

    /// Adds the tags found in the lowercased title to `tag_set`.
    pub fn tag(&self, s: &str, tag_set: &mut TagSet)
        requires
            self.wf(),
            self.total(),
        ensures
            final(tag_set).view() == accepted_after::<TagSet>(old(tag_set).view(), tags_in(self.model(), unicode_lowercase(s@))),
    {
        let lower = str_to_lowercase(s);
        let chars = chars_of(lower.as_str());
        let found = self.inner.find_tags(chars);
        hand_over(&found, tag_set);
    }
}

/// Appends copies of `w` to `v`.
fn append_strings(v: &mut Vec<String>, w: &Vec<String>)
    ensures
        strs_view(final(v)@) == strs_view(old(v)@) + strs_view(w@),
{
    let mut i: usize = 0;
    while i < w.len()
        invariant
            i <= w@.len(),
            strs_view(v@) == strs_view(old(v)@) + strs_view(w@).take(i as int),
        decreases w@.len() - i,
    {
        let ghost prev = strs_view(v@);
        let x = w[i].clone();
        assert(x@ == w@[i as int]@);
        v.push(x);
        assert(strs_view(v@) =~= prev.push(w@[i as int]@));
        assert(strs_view(w@).take(i + 1) =~= strs_view(w@).take(i as int).push(w@[i as int]@));
        i = i + 1;
    }
    assert(strs_view(w@).take(i as int) =~= strs_view(w@));
}

/// `v` without repeats, keeping first occurrences.
fn dedup_strings(v: &Vec<String>) -> (r: Vec<String>)
    ensures
        strs_view(r@) == dedup(strs_view(v@)),
{
    let mut out: Vec<String> = Vec::new();
    let mut i: usize = 0;
    while i < v.len()
        invariant
            i <= v@.len(),
            strs_view(out@) == dedup(strs_view(v@).take(i as int)),
        decreases v@.len() - i,
    {
        let mut seen = false;
        let mut k: usize = 0;
        while k < out.len()
            invariant
                k <= out@.len(),
                i < v@.len(),
                seen == exists|j: int| 0 <= j < k && #[trigger] out@[j]@ == v@[i as int]@,
            decreases out@.len() - k,
        {
            if out[k] == v[i] {
                seen = true;
            }
            k = k + 1;
        }
        let ghost prev = strs_view(v@).take(i as int);
        assert(strs_view(v@).take(i + 1).drop_last() =~= prev);
        proof {
            if seen {
                let j = choose|j: int| 0 <= j < k && out@[j]@ == v@[i as int]@;
                assert(strs_view(out@)[j] == v@[i as int]@);
            } else {
                assert forall|j: int| 0 <= j < strs_view(out@).len() implies strs_view(out@)[j] != v@[i as int]@ by {
                    assert(strs_view(out@)[j] == out@[j]@);
                }
            }
        }
        if !seen {
            out.push(v[i].clone());
        }
        i = i + 1;
        assert(strs_view(out@) =~= dedup(strs_view(v@).take(i as int)));
    }
    assert(strs_view(v@).take(i as int) =~= strs_view(v@));
    out
}

} // verus!
