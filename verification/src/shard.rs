//! Month-sized shards of the story store.
//!
//! A shard is the number of months since January of year 0: `year * 12 + (month - 1)`.
use core::ops::RangeInclusive;
use vstd::prelude::*;

use crate::text::{
    chars_of, dec_padded, find, first_occurrence, is_ascii_digit, lemma_parse_dec_padded,
    parse_uint, parse_unsigned, push_dec, string_of,
};

verus! {

/// `RangeInclusive::start`: the lower bound of the range.
pub assume_specification<Idx>[ RangeInclusive::<Idx>::start ](r: &RangeInclusive<Idx>) -> (res: &Idx)
    ensures
        *res == r@.start,
;

/// `RangeInclusive::end`: the upper bound of the range.
pub assume_specification<Idx>[ RangeInclusive::<Idx>::end ](r: &RangeInclusive<Idx>) -> (res: &Idx)
    ensures
        *res == r@.end,
;

/// A month of stories, counted in months since January of year 0.
#[derive(Clone, Copy, PartialEq, Eq, Structural, Hash, Debug, PartialOrd, Ord)]
pub struct Shard(u16);

/// The in-memory index keys its stories by the same month count.
pub type YearMonth = Shard;

/// The month number of `year`/`month` (1-based month).
pub open spec fn month_ordinal(year: int, month: int) -> int {
    year * 12 + month - 1
}

/// The text form `YYYY-MM` of a shard ordinal.
pub open spec fn shard_text(n: nat) -> Seq<char> {
    dec_padded(n / 12, 4) + seq!['-'] + dec_padded(n % 12 + 1, 2)
}

/// The two parts of `s` around its first `-`, if it has one.
pub open spec fn split_dash(s: Seq<char>) -> Option<(Seq<char>, Seq<char>)> {
    match first_occurrence(s, seq!['-']) {
        Some(i) => Some((s.take(i), s.skip(i + 1))),
        None => None,
    }
}

/// The year and month that `s` spells as `<u16>-<u8>`, if it does.
pub open spec fn year_month_of(s: Seq<char>) -> Option<(nat, nat)> {
    match split_dash(s) {
        Some((a, b)) => match (parse_unsigned(a, 10, 0xffff), parse_unsigned(b, 10, 0xff)) {
            (Some(y), Some(m)) => Some((y, m)),
            _ => None,
        },
        None => None,
    }
}

/// Parsing `s` would ask for a month of zero or for a month count that does not fit in `u16`.
pub open spec fn shard_text_out_of_range(s: Seq<char>) -> bool {
    match year_month_of(s) {
        Some((y, m)) => m == 0 || y * 12 + m > 0xffff,
        None => false,
    }
}

proof fn lemma_out_of_range(s: Seq<char>, y: nat, m: nat)
    requires
        year_month_of(s) == Some((y, m)),
    ensures
        shard_text_out_of_range(s) == ((m == 0) || (y * 12 + m > 0xffff)),
        shard_of_text(s) == Some((y * 12 + m - 1) as nat),
{
}

/// The shard that `s` names, if any.
pub open spec fn shard_of_text(s: Seq<char>) -> Option<nat> {
    match year_month_of(s) {
        Some((y, m)) => Some(month_ordinal(y as int, m as int) as nat),
        None => None,
    }
}

/// The signed 16-bit reading of a month count (`as i16`).
pub open spec fn signed16(n: nat) -> int {
    if n < 0x8000 {
        n as int
    } else {
        n - 0x10000
    }
}

/// The month count `n` moved by `months`, as `plus_months` computes it.
pub open spec fn shifted(n: nat, months: int) -> nat {
    let o = signed16(n) + months;
    (if o < 0 { o + 0x10000 } else { o }) as nat
}

/// Moving by `months` stays within the `i16` range in which `plus_months` computes.
pub open spec fn shift_in_range(n: nat, months: int) -> bool {
    -0x8000 <= signed16(n) + months <= 0x7fff
}

impl Shard {
    /// The month count.
    pub closed spec fn ordinal(self) -> nat {
        self.0 as nat
    }

    /// The shard for a year and a 1-based month.
    pub fn from_year_month(year: u16, month: u8) -> (r: Shard)
        requires
            month > 0,
            year * 12 + month <= 0xffff,
        ensures
            r.ordinal() == month_ordinal(year as int, month as int),
    {
        Shard(year * 12 + month as u16 - 1)
    }

    /// The shard of the month a date falls in.
    pub fn from_date_time(date: crate::date::StoryDate) -> (r: Shard)
        requires
            date.valid(),
            (crate::date::civil_year(date.millis()) as u16) * 12 + crate::date::civil_month(date.millis())
                <= 0xffff,
        ensures
            r.ordinal() == month_ordinal(
                (crate::date::civil_year(date.millis()) as u16) as int,
                crate::date::civil_month(date.millis()),
            ),
    {
        let y = date.year();
        let m = date.month();
        Shard::from_year_month(y as u16, m as u8)
    }

    /// The shard of the month a date falls in, or `None` where that month's count
    /// (with the year taken as `u16`) does not fit in a shard.
    pub fn try_from_date_time(date: crate::date::StoryDate) -> (r: Option<Shard>)
        requires
            date.valid(),
        ensures
            r is Some <==> (crate::date::civil_year(date.millis()) as u16) * 12
                + crate::date::civil_month(date.millis()) <= 0xffff,
            r matches Some(s) ==> s.ordinal() == month_ordinal(
                (crate::date::civil_year(date.millis()) as u16) as int,
                crate::date::civil_month(date.millis()),
            ),
    {
        let y = date.year();
        let m = date.month();
        let y16: u16 = y as u16;
        if (y16 as u32) * 12 + m <= 0xffff {
            Some(Shard::from_date_time(date))
        } else {
            None
        }
    }

    /// The text form `YYYY-MM`, zero-padded.
    pub fn to_string(&self) -> (r: String)
        ensures
            r@ == shard_text(self.ordinal()),
    {
        let mut v: Vec<char> = Vec::new();
        push_dec(&mut v, (self.0 / 12) as u64, 4);
        v.push('-');
        push_dec(&mut v, (self.0 % 12 + 1) as u64, 2);
        assert(v@ =~= shard_text(self.ordinal()));
        string_of(v.as_slice())
    }

    /// Parses `YEAR-MONTH`, with the year read as `u16` and the month as `u8`.
    #[verifier::rlimit(40)]
    pub fn from_string(s: &str) -> (r: Option<Shard>)
        requires
            !shard_text_out_of_range(s@),
        ensures
            r matches Some(sh) ==> shard_of_text(s@) == Some(sh.ordinal()),
            r is None ==> shard_of_text(s@) is None,
    {
        let v = chars_of(s);
        let dash: Vec<char> = vec!['-'];
        assert(dash@ == seq!['-']);
        match find(v.as_slice(), dash.as_slice()) {
            None => None,
            Some(i) => {
                assert(crate::text::occurs_at(v@, dash@, i as int));
                let n = v.len();
                assert(i + 1 <= n);
                let ghost a_txt = v@.take(i as int);
                let ghost b_txt = v@.skip(i + 1);
                assert(split_dash(s@) == Some((a_txt, b_txt)));
                assert(v@.subrange(0, i as int) == a_txt);
                assert(v@.subrange(i + 1, v@.len() as int) == b_txt);
                let a = parse_uint(v.as_slice(), 0, i, 10, 0xffff);
                let b = parse_uint(v.as_slice(), i + 1, n, 10, 0xff);
                match a {
                    Some(y) => match b {
                        Some(m) => {
                            assert(year_month_of(s@) == Some((y as nat, m as nat)));
                            proof {
                                lemma_out_of_range(s@, y as nat, m as nat);
                            }
                            assert(m > 0 && y * 12 + m <= 0xffff);
                            assert(y as u16 == y && m as u8 == m);
                            Some(Self::from_year_month(y as u16, m as u8))
                        },
                        None => None,
                    },
                    None => None,
                }
            },
        }
    }

    /// The shard `months` months later (earlier, when negative).
    /// The month count.
    pub fn months(&self) -> (r: u16)
        ensures
            r == self.ordinal(),
    {
        self.0
    }

    /// Shards of the same month count are the same shard.
    pub proof fn lemma_ordinal_identifies(a: Shard, b: Shard)
        ensures
            a.ordinal() == b.ordinal() <==> a == b,
    {
    }

    /// Whether `plus_months` can move the shard by `months`.
    pub fn can_shift(&self, months: i8) -> (r: bool)
        ensures
            r == shift_in_range(self.ordinal(), months as int),
    {
        let x: u16 = self.0;
        let s: i32 = if x < 0x8000 { x as i32 } else { x as i32 - 0x10000 };
        -0x8000 <= s + months as i32 && s + months as i32 <= 0x7fff
    }

    pub fn plus_months(&self, months: i8) -> (r: Shard)
        requires
            shift_in_range(self.ordinal(), months as int),
        ensures
            r.ordinal() == shifted(self.ordinal(), months as int),
    {
        let x: u16 = self.0;
        proof {
            assert(x < 0x8000 ==> (x as i16) == x) by (bit_vector);
            assert(x >= 0x8000 ==> (x as i16) == x - 0x10000) by (bit_vector);
        }
        let ordinal: i16 = x as i16 + months as i16;
        proof {
            assert(ordinal >= 0 ==> (ordinal as u16) == ordinal) by (bit_vector);
            assert(ordinal < 0 ==> (ordinal as u16) == ordinal + 0x10000) by (bit_vector);
        }
        Shard(ordinal as u16)
    }

    /// The shard `months` months earlier (later, when negative).
    pub fn sub_months(&self, months: i8) -> (r: Shard)
        requires
            months != -128,
            shift_in_range(self.ordinal(), -months),
        ensures
            r.ordinal() == shifted(self.ordinal(), -months),
    {
        self.plus_months(-months)
    }
}

impl Default for Shard {
    fn default() -> (r: Shard)
        ensures
            r.ordinal() == month_ordinal(2000, 1),
    {
        Shard::from_year_month(2000, 1)
    }
}

/// Months order as their shards do: by year, then by month; equal shards are the same month; and
/// a shard's text is its year in four digits and its month in two, joined by `-`.
pub proof fn lemma_month_order_and_text(y1: int, m1: int, y2: int, m2: int)
    requires
        0 <= y1,
        1 <= m1 <= 12,
        0 <= y2,
        1 <= m2 <= 12,
    ensures
        (month_ordinal(y1, m1) < month_ordinal(y2, m2)) == (y1 < y2 || (y1 == y2 && m1 < m2)),
        (month_ordinal(y1, m1) == month_ordinal(y2, m2)) == (y1 == y2 && m1 == m2),
        shard_text(month_ordinal(y1, m1) as nat) == dec_padded((y1 as nat), 4) + seq!['-'] + dec_padded(
            (m1 as nat),
            2,
        ),
{
    let n = month_ordinal(y1, m1);
    assert(n == y1 * 12 + (m1 - 1));
    assert(n / 12 == y1 && n % 12 == m1 - 1) by (nonlinear_arith)
        requires
            n == y1 * 12 + (m1 - 1),
            0 <= m1 - 1 < 12,
            0 <= y1,
    ;
    if y1 < y2 {
        assert(y1 * 12 + 12 <= y2 * 12) by (nonlinear_arith)
            requires
                y1 < y2,
        ;
    } else if y2 < y1 {
        assert(y2 * 12 + 12 <= y1 * 12) by (nonlinear_arith)
            requires
                y2 < y1,
        ;
    }
}

/// Parsing the text form of a shard gives the shard back (for every shard but the last one, whose
/// month count plus one does not fit in `u16`).
pub proof fn lemma_shard_text_round_trip(n: u16)
    requires
        n < 0xffff,
    ensures
        !shard_text_out_of_range(shard_text(n as nat)),
        shard_of_text(shard_text(n as nat)) == Some(n as nat),
{
    let y = (n / 12) as nat;
    let m = (n % 12 + 1) as nat;
    let a = dec_padded(y, 4);
    let b = dec_padded(m, 2);
    let s = shard_text(n as nat);
    lemma_parse_dec_padded(y, 4, 0xffff);
    lemma_parse_dec_padded(m, 2, 0xff);
    let dash = seq!['-'];
    assert(s.subrange(a.len() as int, a.len() + 1int) =~= dash);
    assert forall|j: int| 0 <= j < a.len() implies !crate::text::occurs_at(s, dash, j) by {
        assert(s[j] == a[j]);
        assert(is_ascii_digit(a[j]));
        assert(s.subrange(j, j + 1)[0] == s[j]);
    }
    assert(crate::text::occurs_at(s, dash, a.len() as int));
    let w = choose|i: int| crate::text::occurs_at(s, dash, i) && forall|j: int| 0 <= j < i ==> !crate::text::occurs_at(s, dash, j);
    assert(crate::text::occurs_at(s, dash, w) && forall|j: int| 0 <= j < w ==> !crate::text::occurs_at(s, dash, j));
    if w < a.len() {
    } else if w > a.len() {
        assert(!crate::text::occurs_at(s, dash, a.len() as int));
    }
    reveal(first_occurrence);
    assert(first_occurrence(s, dash) == Some(a.len() as int));
    assert(s.take(a.len() as int) =~= a);
    assert(s.skip(a.len() + 1int) =~= b);
    assert(month_ordinal(y as int, m as int) == n);
}

/// Moving a shard forward by some months and back by the same number gives it back.
pub proof fn lemma_plus_then_sub(n: nat, months: i8)
    requires
        n <= 0xffff,
        months != -128,
        shift_in_range(n, months as int),
        shift_in_range(shifted(n, months as int), -months),
    ensures
        shifted(shifted(n, months as int), -months) == n,
{
    let a = shifted(n, months as int);
    assert(signed16(a) == signed16(n) + months);
}

/// Two moves add up.
pub proof fn lemma_plus_plus(n: nat, a: int, b: int)
    requires
        n <= 0xffff,
        shift_in_range(n, a),
        shift_in_range(shifted(n, a), b),
    ensures
        shift_in_range(n, a + b),
        shifted(shifted(n, a), b) == shifted(n, a + b),
{
    assert(signed16(shifted(n, a)) == signed16(n) + a);
}

/// The order in which to walk a range of shards.
#[derive(Clone, Copy, PartialEq, Eq, Structural, Debug)]
pub enum ShardOrder {
    OldestFirst,
    NewestFirst,
}

/// An inclusive range of shards, or no shard at all.
#[derive(Clone, Copy, PartialEq, Eq, Debug, Default)]
pub struct ShardRange {
    range: Option<(Shard, Shard)>,
}

/// The shard ordinals that `iterate` walks through, oldest first.
pub open spec fn ordinals_between(lo: nat, hi: nat) -> Seq<nat> {
    if lo <= hi {
        Seq::new((hi - lo + 1) as nat, |i: int| (lo + i) as nat)
    } else {
        Seq::empty()
    }
}

impl ShardRange {
    /// The bounds of the range, if it holds any shard.
    pub closed spec fn bounds(self) -> Option<(nat, nat)> {
        match self.range {
            Some((a, b)) => Some((a.ordinal(), b.ordinal())),
            None => None,
        }
    }

    /// The ordinals that the range walks through, oldest first: from its first shard to its last,
    /// one month at a time; none for an empty range.
    pub open spec fn oldest_first(self) -> Seq<nat> {
        match self.bounds() {
            Some((lo, hi)) => ordinals_between(lo, hi),
            None => Seq::empty(),
        }
    }

    /// Walking the range cannot step past the largest shard: its last shard is below the largest.
    pub open spec fn walkable(self) -> bool {
        match self.bounds() {
            Some((_, hi)) => hi < 0xffff,
            None => true,
        }
    }

    /// An empty range.
    pub fn new() -> (r: ShardRange)
        ensures
            r.bounds() is None,
    {
        ShardRange { range: None }
    }

    /// The range from the start to the end of `range`, both included.
    pub fn new_from(range: RangeInclusive<Shard>) -> (r: ShardRange)
        ensures
            r.bounds() == Some((range@.start.ordinal(), range@.end.ordinal())),
    {
        ShardRange { range: Some((*range.start(), *range.end())) }
    }

    /// The shards of the range, in the given order.
    pub fn iterate(&self, order: ShardOrder) -> (r: Vec<Shard>)
        requires
            self.walkable(),
        ensures
            order == ShardOrder::OldestFirst ==> r@.map_values(|s: Shard| s.ordinal()) == self.oldest_first(),
            order == ShardOrder::NewestFirst ==> r@.map_values(|s: Shard| s.ordinal()) == self.oldest_first().reverse(),
    {
        let mut out: Vec<Shard> = Vec::new();
        let (start, end) = match self.range {
            Some((a, b)) => (a.0, b.0),
            None => (0xffffu16, 0u16),
        };
        if start > end {
            assert(out@.map_values(|s: Shard| s.ordinal()) =~= self.oldest_first());
            assert(self.oldest_first().reverse() =~= Seq::<nat>::empty());
            return out;
        }
        let ghost seq = ordinals_between(start as nat, end as nat);
        let mut cur: u16 = start;
        while cur <= end
            invariant
                start <= cur <= end + 1,
                end < 0xffff,
                seq == ordinals_between(start as nat, end as nat),
                order == ShardOrder::OldestFirst ==> out@.map_values(|s: Shard| s.ordinal()) == seq.take(cur - start),
                order == ShardOrder::NewestFirst ==> out@.map_values(|s: Shard| s.ordinal()) == seq.reverse().take(cur - start),
            decreases end + 1 - cur,
        {
            let next = if order == ShardOrder::OldestFirst {
                Shard(cur)
            } else {
                Shard((end - cur) + start)
            };
            out.push(next);
            cur = cur + 1;
            assert(out@.map_values(|s: Shard| s.ordinal()) =~= if order == ShardOrder::OldestFirst {
                seq.take(cur - start)
            } else {
                seq.reverse().take(cur - start)
            });
        }
        assert(seq.take(cur - start) =~= seq);
        assert(seq.reverse().take(cur - start) =~= seq.reverse());
        out
    }

    /// Widens the range so that it includes `shard`.
    pub fn include_shard(&mut self, shard: Shard)
        ensures
            final(self).bounds() == match old(self).bounds() {
                Some((lo, hi)) => Some((
                    if shard.ordinal() < lo { shard.ordinal() } else { lo },
                    if shard.ordinal() > hi { shard.ordinal() } else { hi },
                )),
                None => Some((shard.ordinal(), shard.ordinal())),
            },
    {
        match self.range {
            Some((lo, hi)) => {
                let a = if shard.0 < lo.0 { shard } else { lo };
                let b = if shard.0 > hi.0 { shard } else { hi };
                self.range = Some((a, b));
            },
            None => {
                self.range = Some((shard, shard));
            },
        }
    }
}

/// After widening a range to a shard, the oldest-first walk of the range passes through it.
pub proof fn lemma_widen_covers(old_range: ShardRange, new_range: ShardRange, shard: Shard)
    requires
        new_range.bounds() == match old_range.bounds() {
            Some((lo, hi)) => Some((
                if shard.ordinal() < lo { shard.ordinal() } else { lo },
                if shard.ordinal() > hi { shard.ordinal() } else { hi },
            )),
            None => Some((shard.ordinal(), shard.ordinal())),
        },
    ensures
        new_range.oldest_first().contains(shard.ordinal()),
        forall|n: nat| old_range.oldest_first().contains(n) ==> new_range.oldest_first().contains(n),
{
    let s = new_range.oldest_first();
    let (lo, hi) = new_range.bounds()->0;
    assert(s[shard.ordinal() - lo] == shard.ordinal());
    assert forall|n: nat| old_range.oldest_first().contains(n) implies new_range.oldest_first().contains(n) by {
        let o = old_range.oldest_first();
        let k = choose|k: int| 0 <= k < o.len() && o[k] == n;
        assert(s[n - lo] == n);
    }
}

} // verus!
