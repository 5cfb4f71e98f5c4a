//! Story identifiers: the date a story was first seen and its URL normalization, written as
//! `year:month:day:norm` and carried around in URL-safe base64.
use vstd::prelude::*;
use vstd::string::StringSliceAdditionalSpecFns;
use vstd::utf8::{decode_utf8, encode_utf8, valid_utf8};

use crate::date::{civil_day, civil_month, civil_year, StoryDate};
use crate::shard::{month_ordinal, Shard};
use crate::text::{
    chars_of, dec_digits, dec_padded, find, first_occurrence, is_ascii_digit, parse_uint,
    parse_unsigned, push_dec, string_of, string_of_range,
};
use crate::url::StoryUrlNorm;

verus! {

/// The URL-safe, unpadded base64 text of the bytes.
pub uninterp spec fn b64_encoded(bytes: Seq<u8>) -> Seq<char>;

/// The bytes that URL-safe, unpadded base64 text decodes to, if it is valid.
pub uninterp spec fn b64_decoded(text: Seq<char>) -> Option<Seq<u8>>;

/// `URL_SAFE_NO_PAD.encode`. Decoding what it encodes gives the bytes back.
#[verifier::external_body]
fn b64_encode(bytes: &[u8]) -> (r: String)
    requires
        bytes@.len() <= usize::MAX / 2,
    ensures
        r@ == b64_encoded(bytes@),
        b64_decoded(r@) == Some(bytes@),
{
    base64::Engine::encode(&base64::engine::general_purpose::URL_SAFE_NO_PAD, bytes)
}

/// `URL_SAFE_NO_PAD.decode`.
#[verifier::external_body]
fn b64_decode(text: &str) -> (r: Option<Vec<u8>>)
    ensures
        match (r, b64_decoded(text@)) {
            (Some(v), Some(b)) => v@ == b,
            (None, None) => true,
            _ => false,
        },
{
    base64::Engine::decode(&base64::engine::general_purpose::URL_SAFE_NO_PAD, text).ok()
}

/// Uniquely identifies a story within the index.
#[derive(Clone, Debug, PartialEq, Eq, PartialOrd, Ord, Hash)]
pub struct StoryIdentifier {
    pub norm: StoryUrlNorm,
    year: u16,
    month: u8,
    day: u8,
}

/// The identifier's text: `year:month:day:norm`.
pub open spec fn id_text(date: (u16, u8, u8), norm: Seq<char>) -> Seq<char> {
    dec_digits(date.0 as nat) + seq![':'] + dec_digits(date.1 as nat) + seq![':'] + dec_digits(
        date.2 as nat,
    ) + seq![':'] + norm
}

/// Reads `year:month:day:norm` (split at the first three `:`; the norm keeps any others), each of
/// the three numbers as `str::parse` reads it.
pub open spec fn parse_id_text(t: Seq<char>) -> Option<((u16, u8, u8), Seq<char>)> {
    match first_occurrence(t, seq![':']) {
        None => None,
        Some(i) => {
            let t1 = t.skip(i + 1);
            match first_occurrence(t1, seq![':']) {
                None => None,
                Some(j) => {
                    let t2 = t1.skip(j + 1);
                    match first_occurrence(t2, seq![':']) {
                        None => None,
                        Some(k) => match (
                            parse_unsigned(t.take(i), 10, 0xffff),
                            parse_unsigned(t1.take(j), 10, 0xff),
                            parse_unsigned(t2.take(k), 10, 0xff),
                        ) {
                            (Some(y), Some(m), Some(d)) => Some(
                                ((y as u16, m as u8, d as u8), t2.skip(k + 1)),
                            ),
                            _ => None,
                        },
                    }
                },
            }
        },
    }
}

/// What `from_base64` reads from a text.
pub open spec fn decoded_identifier(s: Seq<char>) -> Option<((u16, u8, u8), Seq<char>)> {
    match b64_decoded(s) {
        Some(bytes) => if valid_utf8(bytes) {
            parse_id_text(decode_utf8(bytes))
        } else {
            None
        },
        None => None,
    }
}

/// The date of an instant as the identifier keeps it: year, month and day, each truncated to its
/// field's width.
pub open spec fn id_date_of(d: StoryDate) -> (u16, u8, u8) {
    (
        civil_year(d.millis()) as u16,
        civil_month(d.millis()) as u8,
        civil_day(d.millis()) as u8,
    )
}

/// A decimal number reads back as itself.
proof fn lemma_dec_reads_back(n: nat, max: nat)
    requires
        n <= max,
    ensures
        parse_unsigned(dec_digits(n), 10, max) == Some(n),
        !dec_digits(n).contains(':'),
{
    crate::text::lemma_parse_dec_padded(n, 0, max);
    assert(dec_padded(n, 0) =~= dec_digits(n));
    if dec_digits(n).contains(':') {
        let k = choose|k: int| 0 <= k < dec_digits(n).len() && dec_digits(n)[k] == ':';
        assert(is_ascii_digit(dec_padded(n, 0)[k]));
    }
}

/// Writing an identifier's text and reading it back gives the identifier.
pub proof fn lemma_id_text_round_trip(date: (u16, u8, u8), norm: Seq<char>)
    ensures
        parse_id_text(id_text(date, norm)) == Some((date, norm)),
{
    let y = dec_digits(date.0 as nat);
    let m = dec_digits(date.1 as nat);
    let d = dec_digits(date.2 as nat);
    lemma_dec_reads_back(date.0 as nat, 0xffff);
    lemma_dec_reads_back(date.1 as nat, 0xff);
    lemma_dec_reads_back(date.2 as nat, 0xff);
    let t = id_text(date, norm);
    let t1 = m + seq![':'] + d + seq![':'] + norm;
    let t2 = d + seq![':'] + norm;
    assert(t =~= y + seq![':'] + t1);
    assert(t1 =~= m + seq![':'] + t2);
    lemma_first_colon(y, t1);
    lemma_first_colon(m, t2);
    lemma_first_colon(d, norm);
    assert(t.skip(y.len() as int + 1) =~= t1);
    assert(t1.skip(m.len() as int + 1) =~= t2);
    assert(t2.skip(d.len() as int + 1) =~= norm);
    assert(t.take(y.len() as int) =~= y);
    assert(t1.take(m.len() as int) =~= m);
    assert(t2.take(d.len() as int) =~= d);
}

/// In `a:b` with no `:` in `a`, the first `:` follows `a`.
proof fn lemma_first_colon(a: Seq<char>, b: Seq<char>)
    requires
        !a.contains(':'),
    ensures
        first_occurrence(a + seq![':'] + b, seq![':']) == Some(a.len() as int),
{
    let t = a + seq![':'] + b;
    assert forall|j: int| 0 <= j < a.len() implies t[j] != ':' by {
        assert(t[j] == a[j]);
    }
    crate::text::lemma_first_char(t, ':', a.len() as int);
}

impl StoryIdentifier {
    /// The date the identifier keeps.
    pub closed spec fn date(&self) -> (u16, u8, u8) {
        (self.year, self.month, self.day)
    }

    /// The URL normalization the identifier keeps.
    pub closed spec fn norm_text(&self) -> Seq<char> {
        self.norm@
    }

    /// The identifier of a story first seen at `date` with the given URL normalization.
    pub fn new(date: StoryDate, norm: &StoryUrlNorm) -> (r: Self)
        requires
            date.valid(),
        ensures
            r.date() == id_date_of(date),
            r.norm_text() == norm@,
    {
        let y = date.year();
        let m = date.month();
        let d = date.day();
        StoryIdentifier {
            norm: StoryUrlNorm::from_string(string_of(chars_of(norm.string()).as_slice())),
            year: y as u16,
            month: m as u8,
            day: d as u8,
        }
    }

    /// Moves the identifier to another date.
    pub fn update_date(&mut self, date: StoryDate)
        requires
            date.valid(),
        ensures
            final(self).date() == id_date_of(date),
            final(self).norm_text() == old(self).norm_text(),
    {
        let y = date.year();
        let m = date.month();
        let d = date.day();
        self.year = y as u16;
        self.month = m as u8;
        self.day = d as u8;
    }

    /// Whether the identifier's date is the day of `date`.
    pub fn matches_date(&self, date: StoryDate) -> (r: bool)
        requires
            date.valid(),
        ensures
            r == (self.date() == id_date_of(date)),
    {
        let y = date.year();
        let m = date.month();
        let d = date.day();
        self.year == y as u16 && self.month == m as u8 && self.day == d as u8
    }

    /// The identifier's text, `year:month:day:norm`.
    pub fn to_string(&self) -> (r: String)
        ensures
            r@ == id_text(self.date(), self.norm_text()),
    {
        let mut out: Vec<char> = Vec::new();
        push_dec(&mut out, self.year as u64, 0);
        out.push(':');
        push_dec(&mut out, self.month as u64, 0);
        out.push(':');
        push_dec(&mut out, self.day as u64, 0);
        out.push(':');
        let norm = chars_of(self.norm.string());
        crate::text::extend_chars(&mut out, norm.as_slice());
        proof {
            assert(dec_padded(self.year as nat, 0) =~= dec_digits(self.year as nat));
            assert(dec_padded(self.month as nat, 0) =~= dec_digits(self.month as nat));
            assert(dec_padded(self.day as nat, 0) =~= dec_digits(self.day as nat));
        }
        assert(out@ =~= id_text(self.date(), self.norm@));
        string_of(out.as_slice())
    }

    /// The identifier in URL-safe base64; `from_base64` reads it back.
    pub fn to_base64(&self) -> (r: String)
        requires
            encode_utf8(id_text(self.date(), self.norm_text())).len() <= usize::MAX / 2,
        ensures
            r@ == b64_encoded(encode_utf8(id_text(self.date(), self.norm_text()))),
            decoded_identifier(r@) == Some((self.date(), self.norm_text())),
    {
        let text = self.to_string();
        let bytes = text.as_str().as_bytes();
        let r = b64_encode(bytes);
        proof {
            vstd::utf8::encode_utf8_valid_utf8(text@);
            vstd::utf8::encode_utf8_decode_utf8(text@);
            lemma_id_text_round_trip(self.date(), self.norm@);
        }
        r
    }

    /// Reads an identifier from its base64 form.
    pub fn from_base64(s: &str) -> (r: Option<Self>)
        ensures
            match (r, decoded_identifier(s@)) {
                (Some(id), Some((date, norm))) => id.date() == date && id.norm_text() == norm,
                (None, None) => true,
                _ => false,
            },
    {
        let bytes = match b64_decode(s) {
            Some(b) => b,
            None => {
                return None;
            },
        };
        let text = match crate::text::string_from_utf8(bytes.as_slice()) {
            Ok(t) => t,
            Err(_) => {
                return None;
            },
        };
        let t = chars_of(text.as_str());
        let colon = vec![':'];
        assert(colon@ == seq![':']);
        let n = t.len();
        let i = match find(t.as_slice(), colon.as_slice()) {
            Some(i) => i,
            None => {
                return None;
            },
        };
        let mut t1: Vec<char> = Vec::new();
        crate::text::extend_range(&mut t1, t.as_slice(), i + 1, n);
        assert(t1@ =~= t@.skip(i + 1));
        let n1 = t1.len();
        let j = match find(t1.as_slice(), colon.as_slice()) {
            Some(j) => j,
            None => {
                return None;
            },
        };
        let mut t2: Vec<char> = Vec::new();
        crate::text::extend_range(&mut t2, t1.as_slice(), j + 1, n1);
        assert(t2@ =~= t1@.skip(j + 1));
        let n2 = t2.len();
        let k = match find(t2.as_slice(), colon.as_slice()) {
            Some(k) => k,
            None => {
                return None;
            },
        };
        assert(t@.subrange(0, i as int) =~= t@.take(i as int));
        assert(t1@.subrange(0, j as int) =~= t1@.take(j as int));
        assert(t2@.subrange(0, k as int) =~= t2@.take(k as int));
        let y = parse_uint(t.as_slice(), 0, i, 10, 0xffff);
        let m = parse_uint(t1.as_slice(), 0, j, 10, 0xff);
        let d = parse_uint(t2.as_slice(), 0, k, 10, 0xff);
        match (y, m, d) {
            (Some(y), Some(m), Some(d)) => {
                let norm = string_of_range(t2.as_slice(), k + 1, n2);
                assert(norm@ =~= t2@.skip(k + 1));
                Some(
                    StoryIdentifier {
                        norm: StoryUrlNorm::from_string(norm),
                        year: y as u16,
                        month: m as u8,
                        day: d as u8,
                    },
                )
            },
            _ => None,
        }
    }

    /// The shard the identifier's month falls in.
    pub fn shard(&self) -> (r: Shard)
        requires
            self.date().1 > 0,
            self.date().0 * 12 + self.date().1 <= 0xffff,
        ensures
            r.ordinal() == month_ordinal(self.date().0 as int, self.date().1 as int),
    {
        Shard::from_year_month(self.year, self.month)
    }
}

} // verus!
