//! Story dates: instants in UTC, kept as milliseconds since the Unix epoch, with the calendar
//! computations left to `chrono`.
use vstd::prelude::*;
use crate::text::{byte_len_at_most, char_width, chars_of, push_str, string_of_range, utf8_len};

verus! {

/// Whether `chrono` can represent the instant `millis` milliseconds after the epoch.
pub uninterp spec fn chrono_accepts_millis(millis: int) -> bool;

/// The calendar year (UTC) of the instant.
pub uninterp spec fn civil_year(millis: int) -> int;

/// The calendar month (UTC, 1 to 12) of the instant.
pub uninterp spec fn civil_month(millis: int) -> int;

/// The day of the month (UTC, 1 to 31) of the instant.
pub uninterp spec fn civil_day(millis: int) -> int;

/// The instant of midnight UTC on the given date, if that date exists.
pub uninterp spec fn ymd_to_millis(year: int, month: int, day: int) -> Option<int>;

/// The instant an RFC 3339 timestamp names, if `chrono` reads it as one.
pub uninterp spec fn rfc3339_to_millis(text: Seq<char>) -> Option<int>;

/// The instant an RFC 2822 timestamp names, if `chrono` reads it as one.
pub uninterp spec fn rfc2822_to_millis(text: Seq<char>) -> Option<int>;

/// The instant (read as UTC) that `chrono`'s `NaiveDateTime::parse_from_str` reads from the text
/// with the given format, if it reads one.
pub uninterp spec fn naive_datetime_to_millis(text: Seq<char>, format: Seq<char>) -> Option<int>;

/// Within 2^53 milliseconds of the epoch: `chrono` represents only the years -262142 to 262142,
/// all of which lie in this range.
pub open spec fn in_chrono_range(millis: int) -> bool {
    -0x20_0000_0000_0000 <= millis <= 0x20_0000_0000_0000
}

/// The RFC 3339 text `chrono` writes for the instant (`DateTime::to_rfc3339`).
pub uninterp spec fn rfc3339_text_of(millis: int) -> Seq<char>;

/// The RFC 2822 text `chrono` writes for the instant (`DateTime::to_rfc2822`).
pub uninterp spec fn rfc2822_text_of(millis: int) -> Seq<char>;

/// The instant `months` calendar months after the given one, if `chrono` can represent it
/// (`DateTime::checked_add_months`, which keeps the day where the month has it).
pub uninterp spec fn months_added(millis: int, months: int) -> Option<int>;

/// The instant `months` calendar months before the given one, if `chrono` can represent it
/// (`DateTime::checked_sub_months`).
pub uninterp spec fn months_subtracted(millis: int, months: int) -> Option<int>;

/// The milliseconds in a day.
pub open spec fn day_millis() -> int {
    86_400_000
}

/// The instant `millis` if `chrono` can represent it.
pub open spec fn if_accepted(millis: int) -> Option<int> {
    if chrono_accepts_millis(millis) {
        Some(millis)
    } else {
        None
    }
}

/// The instant, where `chrono` can represent it.
pub open spec fn accepted(o: Option<int>) -> Option<int> {
    match o {
        Some(m) => if_accepted(m),
        None => None,
    }
}

pub open spec fn opt_int(o: Option<i64>) -> Option<int> {
    match o {
        Some(v) => Some(v as int),
        None => None,
    }
}

/// `DateTime::<Utc>::MAX_UTC.timestamp_millis()`: `chrono` documents `MAX_UTC` as the latest
/// `DateTime<Utc>` it can hold, so no instant it represents comes after it.
#[verifier::external_body]
fn max_utc_millis() -> (r: i64)
    ensures
        chrono_accepts_millis(r as int),
        in_chrono_range(r as int),
        forall|m: int| #[trigger] chrono_accepts_millis(m) ==> m <= r,
{
    chrono::DateTime::<chrono::Utc>::MAX_UTC.timestamp_millis()
}

/// `DateTime::<Utc>::MIN_UTC.timestamp_millis()`: `chrono` documents `MIN_UTC` as the earliest
/// `DateTime<Utc>` it can hold, so no instant it represents comes before it.
#[verifier::external_body]
fn min_utc_millis() -> (r: i64)
    ensures
        chrono_accepts_millis(r as int),
        in_chrono_range(r as int),
        forall|m: int| #[trigger] chrono_accepts_millis(m) ==> r <= m,
{
    chrono::DateTime::<chrono::Utc>::MIN_UTC.timestamp_millis()
}

/// `Utc.timestamp_millis_opt(millis).earliest().is_some()`.
#[verifier::external_body]
fn millis_valid(millis: i64) -> (r: bool)
    ensures
        r == chrono_accepts_millis(millis as int),
        r ==> in_chrono_range(millis as int),
{
    chrono::TimeZone::timestamp_millis_opt(&chrono::Utc, millis).earliest().is_some()
}

/// `Datelike::year` of the instant.
#[verifier::external_body]
fn year_of(millis: i64) -> (r: i32)
    requires
        chrono_accepts_millis(millis as int),
    ensures
        r == civil_year(millis as int),
{
    chrono::Datelike::year(&chrono::TimeZone::timestamp_millis_opt(&chrono::Utc, millis).unwrap())
}

/// `Datelike::month` of the instant: 1 to 12.
#[verifier::external_body]
fn month_of(millis: i64) -> (r: u32)
    requires
        chrono_accepts_millis(millis as int),
    ensures
        r == civil_month(millis as int),
        1 <= r <= 12,
{
    chrono::Datelike::month(&chrono::TimeZone::timestamp_millis_opt(&chrono::Utc, millis).unwrap())
}

/// `Datelike::day` of the instant: 1 to 31.
#[verifier::external_body]
fn day_of(millis: i64) -> (r: u32)
    requires
        chrono_accepts_millis(millis as int),
    ensures
        r == civil_day(millis as int),
        1 <= r <= 31,
{
    chrono::Datelike::day(&chrono::TimeZone::timestamp_millis_opt(&chrono::Utc, millis).unwrap())
}

/// `NaiveDate::from_ymd_opt` at midnight UTC, as milliseconds since the epoch.
#[verifier::external_body]
fn ymd_millis(year: i32, month: u32, day: u32) -> (r: Option<i64>)
    ensures
        opt_int(r) == ymd_to_millis(year as int, month as int, day as int),
        r matches Some(m) ==> chrono_accepts_millis(m as int) && in_chrono_range(m as int),
{
    match chrono::NaiveDate::from_ymd_opt(year, month, day) {
        Some(d) => Some(
            chrono::TimeZone::from_utc_datetime(&chrono::Utc, &d.and_time(chrono::NaiveTime::MIN)).timestamp_millis(),
        ),
        None => None,
    }
}

/// `DateTime::parse_from_rfc3339`, as milliseconds since the epoch.
#[verifier::external_body]
fn rfc3339_millis(text: &str) -> (r: Option<i64>)
    ensures
        opt_int(r) == rfc3339_to_millis(text@),
        r matches Some(m) ==> chrono_accepts_millis(m as int) && in_chrono_range(m as int),
{
    match chrono::DateTime::parse_from_rfc3339(text) {
        Ok(d) => Some(d.timestamp_millis()),
        Err(_) => None,
    }
}

/// `DateTime::parse_from_rfc2822`, as milliseconds since the epoch. The parser takes a leap
/// second and years of any length, so the instant may lie past what `chrono` represents.
#[verifier::external_body]
fn rfc2822_millis(text: &str) -> (r: Option<i64>)
    ensures
        opt_int(r) == rfc2822_to_millis(text@),
{
    match chrono::DateTime::parse_from_rfc2822(text) {
        Ok(d) => Some(d.timestamp_millis()),
        Err(_) => None,
    }
}

/// `NaiveDateTime::parse_from_str`, read as UTC, as milliseconds since the epoch. A leap second
/// at the end of the last representable day gives an instant past what `chrono` represents.
#[verifier::external_body]
fn naive_datetime_millis(text: &str, format: &str) -> (r: Option<i64>)
    ensures
        opt_int(r) == naive_datetime_to_millis(text@, format@),
{
    match chrono::NaiveDateTime::parse_from_str(text, format) {
        Ok(d) => Some(d.and_utc().timestamp_millis()),
        Err(_) => None,
    }
}

/// `Utc::now()`, as milliseconds since the epoch. The value depends on the clock; what is said is
/// only that `chrono` can represent it.
#[verifier::external_body]
fn now_millis() -> (r: i64)
    ensures
        chrono_accepts_millis(r as int),
        in_chrono_range(r as int),
{
    chrono::Utc::now().timestamp_millis()
}

/// `DateTime::to_rfc3339` of the instant.
#[verifier::external_body]
fn rfc3339_string(millis: i64) -> (r: String)
    requires
        chrono_accepts_millis(millis as int),
    ensures
        r@ == rfc3339_text_of(millis as int),
{
    chrono::TimeZone::timestamp_millis_opt(&chrono::Utc, millis).unwrap().to_rfc3339()
}

/// `DateTime::to_rfc2822` of the instant; `chrono` writes years 0 to 9999 only (and panics on
/// others).
#[verifier::external_body]
fn rfc2822_string(millis: i64) -> (r: String)
    requires
        chrono_accepts_millis(millis as int),
        0 <= civil_year(millis as int) <= 9999,
    ensures
        r@ == rfc2822_text_of(millis as int),
{
    chrono::TimeZone::timestamp_millis_opt(&chrono::Utc, millis).unwrap().to_rfc2822()
}

/// `DateTime::checked_add_days`: in UTC the same time of day `days` days later, that is
/// `days * 86_400_000` milliseconds later, where `chrono` can represent that instant.
#[verifier::external_body]
fn add_days_millis(millis: i64, days: u64) -> (r: Option<i64>)
    requires
        chrono_accepts_millis(millis as int),
    ensures
        opt_int(r) == if_accepted(millis + days * day_millis()),
        r matches Some(m) ==> in_chrono_range(m as int),
{
    match chrono::TimeZone::timestamp_millis_opt(&chrono::Utc, millis).unwrap().checked_add_days(chrono::Days::new(days)) {
        Some(d) => Some(d.timestamp_millis()),
        None => None,
    }
}

/// `DateTime::checked_sub_days`: in UTC the same time of day `days` days earlier.
#[verifier::external_body]
fn sub_days_millis(millis: i64, days: u64) -> (r: Option<i64>)
    requires
        chrono_accepts_millis(millis as int),
    ensures
        opt_int(r) == if_accepted(millis - days * day_millis()),
        r matches Some(m) ==> in_chrono_range(m as int),
{
    match chrono::TimeZone::timestamp_millis_opt(&chrono::Utc, millis).unwrap().checked_sub_days(chrono::Days::new(days)) {
        Some(d) => Some(d.timestamp_millis()),
        None => None,
    }
}

/// `DateTime::checked_add_signed` with a `TimeDelta` of `duration` milliseconds: in UTC the instant
/// that much later, where `chrono` can represent it.
#[verifier::external_body]
fn add_signed_millis(millis: i64, duration: i64) -> (r: Option<i64>)
    requires
        chrono_accepts_millis(millis as int),
        duration > i64::MIN,
    ensures
        opt_int(r) == if_accepted(millis + duration),
        r matches Some(m) ==> in_chrono_range(m as int),
{
    match chrono::TimeZone::timestamp_millis_opt(&chrono::Utc, millis).unwrap().checked_add_signed(chrono::TimeDelta::milliseconds(duration)) {
        Some(d) => Some(d.timestamp_millis()),
        None => None,
    }
}

/// `DateTime::checked_add_months`.
#[verifier::external_body]
fn add_months_millis(millis: i64, months: u32) -> (r: Option<i64>)
    requires
        chrono_accepts_millis(millis as int),
    ensures
        opt_int(r) == months_added(millis as int, months as int),
        r matches Some(m) ==> chrono_accepts_millis(m as int) && in_chrono_range(m as int),
{
    match chrono::TimeZone::timestamp_millis_opt(&chrono::Utc, millis).unwrap().checked_add_months(chrono::Months::new(months)) {
        Some(d) => Some(d.timestamp_millis()),
        None => None,
    }
}

/// `DateTime::checked_sub_months`.
#[verifier::external_body]
fn sub_months_millis(millis: i64, months: u32) -> (r: Option<i64>)
    requires
        chrono_accepts_millis(millis as int),
    ensures
        opt_int(r) == months_subtracted(millis as int, months as int),
        r matches Some(m) ==> chrono_accepts_millis(m as int) && in_chrono_range(m as int),
{
    match chrono::TimeZone::timestamp_millis_opt(&chrono::Utc, millis).unwrap().checked_sub_months(chrono::Months::new(months)) {
        Some(d) => Some(d.timestamp_millis()),
        None => None,
    }
}

/// An instant in UTC.
#[derive(Clone, Copy, Debug, PartialEq, Eq, Structural, Hash, PartialOrd, Ord)]
pub struct StoryDate {
    millis: i64,
}

/// Some prefix of `t` takes exactly `k` bytes: byte `k` is a character boundary.
pub open spec fn on_boundary(t: Seq<char>, k: int) -> bool {
    exists|i: int| 0 <= i <= t.len() && utf8_len(t.take(i)) == k
}

/// The number of characters before byte `k` of `t`.
pub open spec fn boundary_index(t: Seq<char>, k: int) -> int {
    choose|i: int| 0 <= i <= t.len() && utf8_len(t.take(i)) == k
}

/// The characters between bytes `a` and `b` of the UTF-8 text of `t`.
pub open spec fn byte_slice(t: Seq<char>, a: int, b: int) -> Seq<char> {
    t.subrange(boundary_index(t, a), boundary_index(t, b))
}

/// What `parse_from_rfc3339_loose` reads: the text as RFC 3339; else its first 19 bytes with a `Z`;
/// else bytes 0..10 and 11..19 joined by `T`, with a `Z`; else its first 10 bytes at midnight.
pub open spec fn loose_rfc3339_millis(t: Seq<char>) -> Option<int> {
    match rfc3339_to_millis(t) {
        Some(m) => Some(m),
        None => {
            let midnight = rfc3339_to_millis(byte_slice(t, 0, 10) + "T00:00:00Z"@);
            if utf8_len(t) >= 19 {
                match rfc3339_to_millis(byte_slice(t, 0, 19) + "Z"@) {
                    Some(m) => Some(m),
                    None => match rfc3339_to_millis(
                        byte_slice(t, 0, 10) + "T"@ + byte_slice(t, 11, 19) + "Z"@,
                    ) {
                        Some(m) => Some(m),
                        None => midnight,
                    },
                }
            } else {
                midnight
            }
        },
    }
}

/// Whatever reads as RFC 3339 reads the same way loosely.
pub proof fn lemma_loose_extends_strict(t: Seq<char>)
    requires
        rfc3339_to_millis(t) is Some,
    ensures
        loose_rfc3339_millis(t) == rfc3339_to_millis(t),
        loose_slices_ok(t),
{
}

/// The loose parse slices the text only at character boundaries: the inputs on which it does not
/// panic.
pub open spec fn loose_slices_ok(t: Seq<char>) -> bool {
    ||| rfc3339_to_millis(t) is Some
    ||| (utf8_len(t) >= 19 && on_boundary(t, 19) && (rfc3339_to_millis(byte_slice(t, 0, 19) + "Z"@)
        is Some || (on_boundary(t, 10) && on_boundary(t, 11))))
    ||| (utf8_len(t) < 19 && utf8_len(t) >= 10 && on_boundary(t, 10))
}

/// The start of a text is a character boundary.
proof fn lemma_boundary_zero(t: Seq<char>)
    ensures
        on_boundary(t, 0),
{
    assert(t.take(0) =~= Seq::<char>::empty());
    assert(utf8_len(t.take(0)) == 0);
}

/// Longer prefixes take more bytes.
proof fn lemma_prefix_bytes_grow(t: Seq<char>, i: int, j: int)
    requires
        0 <= i < j <= t.len(),
    ensures
        utf8_len(t.take(i)) < utf8_len(t.take(j)),
{
    assert(t.take(j) =~= t.take(i) + t.subrange(i, j));
    crate::text::lemma_utf8_len_add(t.take(i), t.subrange(i, j));
    crate::text::lemma_utf8_len_bound(t.subrange(i, j));
}

/// The prefix that takes `k` bytes, if there is one.
fn boundary_exec(t: &[char], k: usize) -> (r: Option<usize>)
    ensures
        r is Some <==> on_boundary(t@, k as int),
        r matches Some(i) ==> i == boundary_index(t@, k as int) && i <= t@.len(),
{
    let mut n: usize = 0;
    let mut i: usize = 0;
    while i < t.len() && n < k
        invariant
            i <= t@.len(),
            n == utf8_len(t@.take(i as int)),
            n <= k,
        decreases t@.len() - i,
    {
        let w = char_width(t[i]);
        assert(t@.take(i + 1).drop_last() =~= t@.take(i as int));
        if w > k - n {
            proof {
                assert forall|j: int| 0 <= j <= t@.len() implies utf8_len(t@.take(j)) != k by {
                    if j <= i {
                        if j < i {
                            lemma_prefix_bytes_grow(t@, j, i as int);
                        }
                    } else {
                        if j > i + 1 {
                            lemma_prefix_bytes_grow(t@, i + 1, j);
                        }
                    }
                }
            }
            return None;
        }
        n = n + w;
        i = i + 1;
    }
    if n == k {
        proof {
            let b = boundary_index(t@, k as int);
            assert(0 <= i <= t@.len() && utf8_len(t@.take(i as int)) == k);
            if b < i {
                lemma_prefix_bytes_grow(t@, b, i as int);
            } else if b > i {
                lemma_prefix_bytes_grow(t@, i as int, b);
            }
        }
        Some(i)
    } else {
        proof {
            assert(i == t@.len());
            assert forall|j: int| 0 <= j <= t@.len() implies utf8_len(t@.take(j)) != k by {
                if j < i {
                    lemma_prefix_bytes_grow(t@, j, i as int);
                }
            }
        }
        None
    }
}

/// The characters of `t` between two byte positions that are character boundaries.
fn byte_slice_exec(t: &Vec<char>, a: usize, b: usize) -> (r: String)
    requires
        on_boundary(t@, a as int),
        on_boundary(t@, b as int),
        a <= b,
    ensures
        r@ == byte_slice(t@, a as int, b as int),
{
    let i = boundary_exec(t.as_slice(), a).unwrap();
    let j = boundary_exec(t.as_slice(), b).unwrap();
    proof {
        if j < i {
            lemma_prefix_bytes_grow(t@, j as int, i as int);
        }
    }
    string_of_range(t.as_slice(), i, j)
}

impl StoryDate {
    /// Whether `chrono` can represent this instant: true of every date there is.
    pub closed spec fn valid(&self) -> bool {
        chrono_accepts_millis(self.millis as int) && in_chrono_range(self.millis as int)
    }

    /// Every date is one `chrono` can represent.
    #[verifier::type_invariant]
    pub open spec fn representable(self) -> bool {
        self.valid()
    }

    /// Milliseconds since the epoch.
    pub closed spec fn millis(&self) -> int {
        self.millis as int
    }

    /// The latest instant there is a date for.
    pub fn latest_possible() -> (r: StoryDate)
        ensures
            forall|d: StoryDate| d.valid() ==> d.millis() <= r.millis(),
    {
        StoryDate { millis: max_utc_millis() }
    }

    /// The earliest instant there is a date for.
    pub fn earliest_possible() -> (r: StoryDate)
        ensures
            forall|d: StoryDate| d.valid() ==> r.millis() <= d.millis(),
    {
        StoryDate { millis: min_utc_millis() }
    }

    /// The current instant.
    pub fn now() -> (r: StoryDate)
        ensures
            r.valid(),
    {
        StoryDate { millis: now_millis() }
    }

    /// The instant `millis` milliseconds after the epoch, if `chrono` can represent it.
    pub fn from_millis(millis: i64) -> (r: Option<StoryDate>)
        ensures
            r is Some <==> chrono_accepts_millis(millis as int),
            r matches Some(d) ==> d.millis() == millis && d.valid(),
    {
        if millis_valid(millis) {
            Some(StoryDate { millis })
        } else {
            None
        }
    }

    /// The instant `seconds` seconds after the epoch, if `chrono` can represent it.
    pub fn from_seconds(seconds: i64) -> (r: Option<StoryDate>)
        requires
            i64::MIN <= seconds * 1000 <= i64::MAX,
        ensures
            r is Some <==> chrono_accepts_millis(seconds * 1000),
            r matches Some(d) ==> d.millis() == seconds * 1000 && d.valid(),
    {
        Self::from_millis(seconds * 1000)
    }

    /// Midnight UTC on the given date, if the date exists.
    pub fn year_month_day(year: i32, month: u32, day: u32) -> (r: Option<StoryDate>)
        ensures
            match (r, ymd_to_millis(year as int, month as int, day as int)) {
                (Some(d), Some(m)) => d.millis() == m && d.valid(),
                (None, None) => true,
                _ => false,
            },
    {
        match ymd_millis(year, month, day) {
            Some(millis) => Some(StoryDate { millis }),
            None => None,
        }
    }

    /// The instant an RFC 3339 timestamp names.
    pub fn parse_from_rfc3339(date: &str) -> (r: Option<StoryDate>)
        ensures
            match (r, rfc3339_to_millis(date@)) {
                (Some(d), Some(m)) => d.millis() == m && d.valid(),
                (None, None) => true,
                _ => false,
            },
    {
        match rfc3339_millis(date) {
            Some(millis) => Some(StoryDate { millis }),
            None => None,
        }
    }

    /// The instant (in UTC) the text names in the given `chrono` format, where there is a date
    /// for it.
    pub fn from_string(date: &str, s: &str) -> (r: Option<StoryDate>)
        ensures
            match (r, accepted(naive_datetime_to_millis(date@, s@))) {
                (Some(d), Some(m)) => d.millis() == m && d.valid(),
                (None, None) => true,
                _ => false,
            },
    {
        match naive_datetime_millis(date, s) {
            Some(millis) => {
                if millis_valid(millis) {
                    Some(StoryDate { millis })
                } else {
                    None
                }
            },
            None => None,
        }
    }

    /// The instant an RFC 2822 timestamp names, where there is a date for it.
    pub fn parse_from_rfc2822(date: &str) -> (r: Option<StoryDate>)
        ensures
            match (r, accepted(rfc2822_to_millis(date@))) {
                (Some(d), Some(m)) => d.millis() == m && d.valid(),
                (None, None) => true,
                _ => false,
            },
    {
        match rfc2822_millis(date) {
            Some(millis) => {
                if millis_valid(millis) {
                    Some(StoryDate { millis })
                } else {
                    None
                }
            },
            None => None,
        }
    }

    /// Reads a timestamp that is RFC 3339 or close to it: without the `Z`, with trailing text, with
    /// a space for the `T`, or a bare date.
    pub fn parse_from_rfc3339_loose(date: &str) -> (r: Option<StoryDate>)
        requires
            loose_slices_ok(date@),
        ensures
            match (r, loose_rfc3339_millis(date@)) {
                (Some(d), Some(m)) => d.millis() == m && d.valid(),
                (None, None) => true,
                _ => false,
            },
    {
        if let Some(d) = Self::parse_from_rfc3339(date) {
            return Some(d);
        }
        let t = chars_of(date);
        proof {
            lemma_boundary_zero(t@);
        }
        if !byte_len_at_most(t.as_slice(), 18) {
            let mut a = byte_slice_exec(&t, 0, 19);
            push_str(&mut a, "Z");
            if let Some(d) = Self::parse_from_rfc3339(a.as_str()) {
                return Some(d);
            }
            let mut b = byte_slice_exec(&t, 0, 10);
            push_str(&mut b, "T");
            let mid = byte_slice_exec(&t, 11, 19);
            push_str(&mut b, mid.as_str());
            push_str(&mut b, "Z");
            if let Some(d) = Self::parse_from_rfc3339(b.as_str()) {
                return Some(d);
            }
        }
        let mut c = byte_slice_exec(&t, 0, 10);
        push_str(&mut c, "T00:00:00Z");
        Self::parse_from_rfc3339(c.as_str())
    }

    pub fn year(&self) -> (r: i32)
        requires
            self.valid(),
        ensures
            r == civil_year(self.millis()),
    {
        year_of(self.millis)
    }

    pub fn month(&self) -> (r: u32)
        requires
            self.valid(),
        ensures
            r == civil_month(self.millis()),
            1 <= r <= 12,
    {
        month_of(self.millis)
    }

    pub fn day(&self) -> (r: u32)
        requires
            self.valid(),
        ensures
            r == civil_day(self.millis()),
            1 <= r <= 31,
    {
        day_of(self.millis)
    }

    /// Whole seconds since the epoch, rounded down.
    pub fn timestamp(&self) -> (r: i64)
        ensures
            r * 1000 <= self.millis() < r * 1000 + 1000,
    {
        let m = self.millis;
        if m >= 0 {
            m / 1000
        } else {
            let q = m / 1000;
            if q * 1000 == m { q } else { q - 1 }
        }
    }
}

impl StoryDate {
    /// The month, counted from 0.
    pub fn month0(&self) -> (r: u32)
        requires
            self.valid(),
        ensures
            r == civil_month(self.millis()) - 1,
            r <= 11,
    {
        self.month() - 1
    }

    /// The day of the month, counted from 0.
    pub fn day0(&self) -> (r: u32)
        requires
            self.valid(),
        ensures
            r == civil_day(self.millis()) - 1,
            r <= 30,
    {
        self.day() - 1
    }

    /// The instant as RFC 3339 text.
    pub fn to_rfc3339(&self) -> (r: String)
        requires
            self.valid(),
        ensures
            r@ == rfc3339_text_of(self.millis()),
    {
        rfc3339_string(self.millis)
    }

    /// The instant as RFC 2822 text; RFC 2822 writes only the years 0 to 9999.
    pub fn to_rfc2822(&self) -> (r: String)
        requires
            self.valid(),
            0 <= civil_year(self.millis()) <= 9999,
        ensures
            r@ == rfc2822_text_of(self.millis()),
    {
        rfc2822_string(self.millis)
    }

    /// The instant as RFC 2822 text, or `None` where its year is outside 0 to 9999.
    pub fn try_to_rfc2822(&self) -> (r: Option<String>)
        requires
            self.valid(),
        ensures
            r is Some <==> 0 <= civil_year(self.millis()) <= 9999,
            r matches Some(t) ==> t@ == rfc2822_text_of(self.millis()),
    {
        let y = self.year();
        if 0 <= y && y <= 9999 {
            Some(self.to_rfc2822())
        } else {
            None
        }
    }

    /// The same time of day `months` calendar months later, if `chrono` can represent it.
    pub fn checked_add_months(&self, months: u32) -> (r: Option<StoryDate>)
        requires
            self.valid(),
        ensures
            match (r, months_added(self.millis(), months as int)) {
                (Some(d), Some(m)) => d.millis() == m && d.valid(),
                (None, None) => true,
                _ => false,
            },
    {
        match add_months_millis(self.millis, months) {
            Some(millis) => Some(StoryDate { millis }),
            None => None,
        }
    }

    /// The same time of day `months` calendar months earlier, if `chrono` can represent it.
    pub fn checked_sub_months(&self, months: u32) -> (r: Option<StoryDate>)
        requires
            self.valid(),
        ensures
            match (r, months_subtracted(self.millis(), months as int)) {
                (Some(d), Some(m)) => d.millis() == m && d.valid(),
                (None, None) => true,
                _ => false,
            },
    {
        match sub_months_millis(self.millis, months) {
            Some(millis) => Some(StoryDate { millis }),
            None => None,
        }
    }

    /// The instant a duration later, if `chrono` can represent it (`DateTime + TimeDelta`, which
    /// panics where this returns `None`).
    pub fn checked_add(&self, d: StoryDuration) -> (r: Option<StoryDate>)
        ensures
            r is Some <==> chrono_accepts_millis(self.millis() + d.millis()),
            r matches Some(x) ==> x.millis() == self.millis() + d.millis() && x.valid(),
    {
        proof {
            use_type_invariant(self);
            use_type_invariant(&d);
        }
        match add_signed_millis(self.millis, d.millis) {
            Some(millis) => Some(StoryDate { millis }),
            None => None,
        }
    }

    /// The instant `days` whole days later, if `chrono` can represent it.
    pub fn checked_add_days(&self, days: u64) -> (r: Option<StoryDate>)
        requires
            self.valid(),
        ensures
            r is Some <==> chrono_accepts_millis(self.millis() + days * day_millis()),
            r matches Some(d) ==> d.millis() == self.millis() + days * day_millis() && d.valid(),
    {
        match add_days_millis(self.millis, days) {
            Some(millis) => Some(StoryDate { millis }),
            None => None,
        }
    }

    /// The instant `days` whole days earlier, if `chrono` can represent it.
    pub fn checked_sub_days(&self, days: u64) -> (r: Option<StoryDate>)
        requires
            self.valid(),
        ensures
            r is Some <==> chrono_accepts_millis(self.millis() - days * day_millis()),
            r matches Some(d) ==> d.millis() == self.millis() - days * day_millis() && d.valid(),
    {
        match sub_days_millis(self.millis, days) {
            Some(millis) => Some(StoryDate { millis }),
            None => None,
        }
    }
}

impl StoryDate {
    /// Whether this instant comes after `other`.
    pub fn is_after(&self, other: &StoryDate) -> (r: bool)
        ensures
            r == (self.millis() > other.millis()),
    {
        self.millis > other.millis
    }

    /// The earlier of two instants (this one where they are equal).
    pub fn earliest(self, other: StoryDate) -> (r: StoryDate)
        ensures
            r == (if other.millis() < self.millis() { other } else { self }),
    {
        if other.millis < self.millis {
            other
        } else {
            self
        }
    }
}

impl core::ops::Sub for StoryDate {
    type Output = StoryDuration;

    /// The time from `rhs` to this instant.
    fn sub(self, rhs: StoryDate) -> (r: StoryDuration)
        ensures
            r.millis() == self.millis() - rhs.millis(),
    {
        proof {
            use_type_invariant(&self);
            use_type_invariant(&rhs);
        }
        StoryDuration { millis: self.millis - rhs.millis }
    }
}

impl vstd::std_specs::ops::SubSpecImpl for StoryDate {
    open spec fn obeys_sub_spec() -> bool {
        true
    }

    open spec fn sub_req(self, rhs: StoryDate) -> bool {
        true
    }

    open spec fn sub_spec(self, rhs: StoryDate) -> StoryDuration {
        duration_of(self.millis() - rhs.millis())
    }
}

/// The duration of `millis` milliseconds.
pub closed spec fn duration_of(millis: int) -> StoryDuration {
    StoryDuration { millis: millis as i64 }
}

/// A span of time, in milliseconds (at most `i64::MAX` either way).
#[derive(Clone, Copy, PartialEq, Eq, Structural, PartialOrd, Ord)]
pub struct StoryDuration {
    millis: i64,
}

/// `a / b` rounded toward zero, for `b > 0`.
pub open spec fn div_toward_zero(a: int, b: int) -> int {
    if a >= 0 {
        a / b
    } else {
        -((-a) / b)
    }
}

/// The largest number of whole seconds a duration can hold: `i64::MAX / 1000`.
pub open spec fn max_duration_seconds() -> int {
    9_223_372_036_854_775
}

fn quotient_toward_zero(a: i64, b: i64) -> (r: i64)
    requires
        b > 0,
        a > i64::MIN,
    ensures
        r == div_toward_zero(a as int, b as int),
{
    if a >= 0 {
        a / b
    } else {
        let p: i64 = -a;
        let q: i64 = p / b;
        -q
    }
}

impl StoryDuration {
    /// The length in milliseconds.
    pub closed spec fn millis(&self) -> int {
        self.millis as int
    }

    #[verifier::type_invariant]
    closed spec fn in_range(self) -> bool {
        self.millis > i64::MIN
    }

    pub fn weeks(weeks: i64) -> (r: StoryDuration)
        requires
            -max_duration_seconds() <= weeks * 604_800 <= max_duration_seconds(),
        ensures
            r.millis() == weeks * 604_800_000,
    {
        StoryDuration { millis: weeks * 604_800_000 }
    }

    pub fn days(days: i64) -> (r: StoryDuration)
        requires
            -max_duration_seconds() <= days * 86_400 <= max_duration_seconds(),
        ensures
            r.millis() == days * 86_400_000,
    {
        StoryDuration { millis: days * 86_400_000 }
    }

    pub fn hours(hours: i64) -> (r: StoryDuration)
        requires
            -max_duration_seconds() <= hours * 3_600 <= max_duration_seconds(),
        ensures
            r.millis() == hours * 3_600_000,
    {
        StoryDuration { millis: hours * 3_600_000 }
    }

    pub fn minutes(minutes: i64) -> (r: StoryDuration)
        requires
            -max_duration_seconds() <= minutes * 60 <= max_duration_seconds(),
        ensures
            r.millis() == minutes * 60_000,
    {
        StoryDuration { millis: minutes * 60_000 }
    }

    pub fn seconds(seconds: i64) -> (r: StoryDuration)
        requires
            -max_duration_seconds() <= seconds <= max_duration_seconds(),
        ensures
            r.millis() == seconds * 1_000,
    {
        StoryDuration { millis: seconds * 1_000 }
    }

    pub fn milliseconds(milliseconds: i64) -> (r: StoryDuration)
        requires
            milliseconds > i64::MIN,
        ensures
            r.millis() == milliseconds,
    {
        StoryDuration { millis: milliseconds }
    }

    /// Whole seconds, rounded toward zero.
    pub fn num_seconds(&self) -> (r: i64)
        ensures
            r == div_toward_zero(self.millis(), 1000),
    {
        proof {
            use_type_invariant(self);
        }
        quotient_toward_zero(self.millis, 1000)
    }

    /// Whole minutes: the whole seconds divided by 60, rounded toward zero.
    pub fn num_minutes(&self) -> (r: i64)
        ensures
            r == div_toward_zero(div_toward_zero(self.millis(), 1000), 60),
    {
        quotient_toward_zero(self.num_seconds(), 60)
    }

    /// Whole hours: the whole seconds divided by 3600, rounded toward zero.
    pub fn num_hours(&self) -> (r: i64)
        ensures
            r == div_toward_zero(div_toward_zero(self.millis(), 1000), 3600),
    {
        quotient_toward_zero(self.num_seconds(), 3600)
    }

    /// Whole days: the whole seconds divided by 86400, rounded toward zero.
    pub fn num_days(&self) -> (r: i64)
        ensures
            r == div_toward_zero(div_toward_zero(self.millis(), 1000), 86400),
    {
        quotient_toward_zero(self.num_seconds(), 86400)
    }

    /// The length in milliseconds.
    pub fn num_milliseconds(&self) -> (r: i64)
        ensures
            r == self.millis(),
    {
        self.millis
    }
}

} // verus!
