//! Gathering scrapes into stories before they are indexed: the scrapes of one normalized URL whose
//! months lie close together form one collection, dated by its earliest scrape.
use vstd::prelude::*;

use crate::date::{civil_month, civil_year, StoryDate};
use crate::scrapers::{merged_scrape, reversed, scrape_millis, scrape_url, scrape_views, TypedScrape, TypedScrapeView};
use crate::shard::{month_ordinal, shift_in_range, shifted, Shard};
use crate::shard::shard_text;
use crate::source::{scrape_id_text, ScrapeId, ScrapeSource};
use crate::tagger::strs_view;
use crate::tagger::{key_index, lemma_key_index, lemma_key_index_at};
use crate::text::str_eq;
use crate::url::{default_hash_of, StoryUrl};

verus! {

/// The scrape identifier of a story: its source, its subsource (a Reddit story's subreddit) and
/// its id on the source.
pub open spec fn scrape_id_of(v: TypedScrapeView) -> (ScrapeSource, Option<Seq<char>>, Seq<char>) {
    match v {
        TypedScrapeView::HackerNews(s) => (ScrapeSource::HackerNews, None, s.id),
        TypedScrapeView::Slashdot(s) => (ScrapeSource::Slashdot, None, s.id),
        TypedScrapeView::Lobsters(s) => (ScrapeSource::Lobsters, None, s.id),
        TypedScrapeView::Reddit(s) => (ScrapeSource::Reddit, Some(s.subreddit), s.id),
        TypedScrapeView::Feed(s) => (ScrapeSource::Feed, None, s.id),
    }
}

/// Whether two scrapes have the same scrape identifier.
fn same_id(a: &TypedScrape, b: &TypedScrape) -> (r: bool)
    ensures
        r == (scrape_id_of(a.view()) == scrape_id_of(b.view())),
{
    match (a, b) {
        (TypedScrape::HackerNews(x), TypedScrape::HackerNews(y)) => str_eq(x.id.as_str(), y.id.as_str()),
        (TypedScrape::Slashdot(x), TypedScrape::Slashdot(y)) => str_eq(x.id.as_str(), y.id.as_str()),
        (TypedScrape::Lobsters(x), TypedScrape::Lobsters(y)) => str_eq(x.id.as_str(), y.id.as_str()),
        (TypedScrape::Reddit(x), TypedScrape::Reddit(y)) => str_eq(x.subreddit.as_str(), y.subreddit.as_str())
            && str_eq(x.id.as_str(), y.id.as_str()),
        (TypedScrape::Feed(x), TypedScrape::Feed(y)) => str_eq(x.id.as_str(), y.id.as_str()),
        _ => false,
    }
}

/// Scrapes of one story, by scrape identifier (one scrape each), with the earliest date among
/// all the scrapes merged into it.
pub struct ScrapeCollection {
    pub earliest: StoryDate,
    pub scrapes: Vec<TypedScrape>,
}

/// A collection as plain values: the earliest date in milliseconds and the scrapes in the order
/// they came.
pub struct CollectionView {
    pub earliest: int,
    pub scrapes: Seq<TypedScrapeView>,
}

pub open spec fn opt_usize(o: Option<usize>) -> Option<int> {
    match o {
        Some(i) => Some(i as int),
        None => None,
    }
}

/// The position of the first scrape of the list with the identifier, if any.
pub open spec fn id_pos(s: Seq<TypedScrapeView>, id: (ScrapeSource, Option<Seq<char>>, Seq<char>)) -> Option<int> {
    key_index(s.map_values(|v: TypedScrapeView| scrape_id_of(v)), id)
}

/// The collection of one scrape.
pub open spec fn fresh_collection(s: TypedScrapeView) -> CollectionView {
    CollectionView { earliest: scrape_millis(s), scrapes: seq![s] }
}

/// A collection after a scrape merges into it: the earlier of the two dates, and the scrape
/// merged into the scrape of its identifier where there is one, else added.
pub open spec fn merged(c: CollectionView, s: TypedScrapeView) -> CollectionView {
    CollectionView {
        earliest: if scrape_millis(s) < c.earliest { scrape_millis(s) } else { c.earliest },
        scrapes: match id_pos(c.scrapes, scrape_id_of(s)) {
            Some(i) => c.scrapes.update(i, merged_scrape(c.scrapes[i], s)),
            None => c.scrapes.push(s),
        },
    }
}

/// A collection after the scrapes of a list merge into it in turn.
pub open spec fn merged_all(c: CollectionView, ss: Seq<TypedScrapeView>) -> CollectionView
    decreases ss.len(),
{
    if ss.len() == 0 {
        c
    } else {
        merged(merged_all(c, ss.drop_last()), ss.last())
    }
}

impl ScrapeCollection {
    pub open spec fn view(&self) -> CollectionView {
        CollectionView { earliest: self.earliest.millis(), scrapes: scrape_views(self.scrapes@) }
    }

    /// The collection of one scrape.
    pub fn new_from_one(scrape: TypedScrape) -> (r: ScrapeCollection)
        ensures
            r.view() == fresh_collection(scrape.view()),
    {
        let earliest = scrape.date();
        let mut scrapes: Vec<TypedScrape> = Vec::new();
        let ghost v = scrape.view();
        scrapes.push(scrape);
        assert(scrape_views(scrapes@) =~= seq![v]);
        ScrapeCollection { earliest, scrapes }
    }

    /// The position of the scrape of the identifier of `scrape` in the collection, if any.
    fn position_of_id(&self, scrape: &TypedScrape) -> (r: Option<usize>)
        ensures
            opt_usize(r) == id_pos(self.view().scrapes, scrape_id_of(scrape.view())),
    {
        let ghost sv = scrape_views(self.scrapes@);
        let ghost keys = sv.map_values(|v: TypedScrapeView| scrape_id_of(v));
        let ghost id = scrape_id_of(scrape.view());
        proof {
            lemma_key_index(keys, id);
        }
        let mut i: usize = 0;
        while i < self.scrapes.len()
            invariant
                i <= self.scrapes@.len(),
                sv == scrape_views(self.scrapes@),
                keys == sv.map_values(|v: TypedScrapeView| scrape_id_of(v)),
                id == scrape_id_of(scrape.view()),
                forall|j: int| 0 <= j < i ==> #[trigger] keys[j] != id,
            decreases self.scrapes@.len() - i,
        {
            assert(sv[i as int] == self.scrapes@[i as int].view());
            assert(keys[i as int] == scrape_id_of(sv[i as int]));
            if same_id(&self.scrapes[i], scrape) {
                proof {
                    lemma_key_index_at(keys, id, i as int);
                }
                return Some(i);
            }
            i = i + 1;
        }
        None
    }

    /// Merges a scrape in: the earlier date is kept, and the scrape is merged into the scrape of
    /// its identifier, or added where there is none.
    pub fn merge(&mut self, scrape: TypedScrape)
        ensures
            final(self).view() == merged(old(self).view(), scrape.view()),
    {
        let d = scrape.date();
        let pos = self.position_of_id(&scrape);
        self.earliest = self.earliest.earliest(d);
        let ghost before = scrape_views(self.scrapes@);
        let ghost v = scrape.view();
        proof {
            lemma_key_index(before.map_values(|t: TypedScrapeView| scrape_id_of(t)), scrape_id_of(v));
        }
        match pos {
            Some(i) => {
                assert(before.len() == self.scrapes@.len());
                assert(before[i as int] == self.scrapes@[i as int].view());
                let mut x = self.scrapes.remove(i);
                assert(x.view() == before[i as int]);
                x.merge(scrape);
                self.scrapes.insert(i, x);
                assert(scrape_views(self.scrapes@) =~= before.update(i as int, merged_scrape(before[i as int], v)));
            },
            None => {
                self.scrapes.push(scrape);
                assert(scrape_views(self.scrapes@) =~= before.push(v));
            },
        }
    }
}

impl ScrapeCollection {
    /// Merges in every scrape of another collection, in its order.
    pub fn merge_all(&mut self, other: ScrapeCollection)
        ensures
            final(self).view() == merged_all(old(self).view(), other.view().scrapes),
    {
        let ghost ov = other.view().scrapes;
        let ghost start = self.view();
        let mut rest = other.scrapes;
        let ghost mut k: int = 0;
        while rest.len() > 0
            invariant
                0 <= k <= ov.len(),
                scrape_views(rest@) == ov.skip(k),
                self.view() == merged_all(start, ov.take(k)),
            decreases rest@.len(),
        {
            let ghost before = rest@;
            proof {
                assert(scrape_views(before).len() == before.len());
                assert(k < ov.len());
                assert(scrape_views(before)[0] == before[0].view());
                assert(ov.skip(k)[0] == ov[k]);
            }
            let s = rest.remove(0);
            proof {
                assert(rest@ =~= before.skip(1));
                assert(s.view() == ov[k]);
                assert forall|j: int| 0 <= j < rest@.len() implies #[trigger] scrape_views(rest@)[j]
                    == ov.skip(k + 1)[j] by {
                    assert(scrape_views(before)[j + 1] == before[j + 1].view());
                    assert(ov.skip(k)[j + 1] == ov[k + 1 + j]);
                }
                assert(scrape_views(rest@) =~= ov.skip(k + 1));
                assert(ov.take(k + 1).drop_last() =~= ov.take(k));
            }
            self.merge(s);
            proof {
                k = k + 1;
            }
        }
        assert(ov.take(k) =~= ov);
    }
}

impl ScrapeCollection {
    /// The URL of the collection: that of its first scrape.
    pub fn url(&self) -> (r: &StoryUrl)
        requires
            self.scrapes@.len() > 0,
        ensures
            r@ == scrape_url(self.view().scrapes[0]),
    {
        self.scrapes[0].url()
    }
}

/// What the index looks a collection up by: the hash of its normalized URL and its date in
/// seconds.
#[derive(Clone, Copy, Debug, PartialEq, Eq, Structural)]
pub struct StoryLookupId {
    pub url_norm_hash: i64,
    pub date: i64,
}

/// The lookup of a collection: the hash of the normalized URL of its first scrape, and its
/// earliest date in whole seconds.
pub fn lookup_id(c: &ScrapeCollection) -> (r: StoryLookupId)
    requires
        c.scrapes@.len() > 0,
    ensures
        r.url_norm_hash == default_hash_of(scrape_url(c.view().scrapes[0]).norm) as i64,
        r.date * 1000 <= c.view().earliest < r.date * 1000 + 1000,
{
    let url = c.url();
    StoryLookupId { url_norm_hash: url.normalization().hash(), date: c.earliest.timestamp() }
}

/// The month count of the month an instant falls in.
pub open spec fn month_of_millis(m: int) -> int {
    month_ordinal((civil_year(m) as u16) as int, civil_month(m))
}

/// Whether a scrape of this date can be gathered: its month is a shard, and the shards two months
/// before and after it can be looked at.
pub open spec fn groupable(m: int) -> bool {
    &&& (civil_year(m) as u16) * 12 + civil_month(m) <= 0xffff
    &&& shift_in_range(month_of_millis(m) as nat, -2)
    &&& shift_in_range(month_of_millis(m) as nat, 2)
}

/// An entry of the index: the shard, the normalized URL, and the collection.
pub type EntryView = (nat, Seq<char>, CollectionView);

pub open spec fn entry_keys(es: Seq<EntryView>) -> Seq<(nat, Seq<char>)> {
    es.map_values(|e: EntryView| (e.0, e.1))
}

/// The position of the entry of a shard and a normalized URL.
pub open spec fn entry_pos(es: Seq<EntryView>, shard: nat, norm: Seq<char>) -> Option<int> {
    key_index(entry_keys(es), (shard, norm))
}

/// The entry of the normalized URL in the shards from two months before `shard` to two months
/// after, looked at in that order.
pub open spec fn find_near(es: Seq<EntryView>, shard: nat, norm: Seq<char>) -> Option<int> {
    match entry_pos(es, shifted(shard, -2), norm) {
        Some(i) => Some(i),
        None => match entry_pos(es, shifted(shard, -1), norm) {
            Some(i) => Some(i),
            None => match entry_pos(es, shifted(shard, 0), norm) {
                Some(i) => Some(i),
                None => match entry_pos(es, shifted(shard, 1), norm) {
                    Some(i) => Some(i),
                    None => entry_pos(es, shifted(shard, 2), norm),
                },
            },
        },
    }
}

/// The entries with `e` stored under its shard and normalized URL, in place of the entry there.
pub open spec fn put(es: Seq<EntryView>, e: EntryView) -> Seq<EntryView> {
    match entry_pos(es, e.0, e.1) {
        Some(i) => es.update(i, e),
        None => es.push(e),
    }
}

/// The entries after a scrape is added: it joins the collection of its normalized URL in a shard
/// near its month, which moves to the shard of its earliest date; else it starts a collection
/// in the shard of its month.
pub open spec fn add_scrape(es: Seq<EntryView>, s: TypedScrapeView) -> Seq<EntryView> {
    let shard = month_of_millis(scrape_millis(s)) as nat;
    let norm = scrape_url(s).norm;
    match find_near(es, shard, norm) {
        Some(i) => {
            let c = merged(es[i].2, s);
            put(es.remove(i), (month_of_millis(c.earliest) as nat, norm, c))
        },
        None => put(es, (shard, norm, fresh_collection(s))),
    }
}

/// The entries after the scrapes are added to `es` in turn.
pub open spec fn add_all(es: Seq<EntryView>, ss: Seq<TypedScrapeView>) -> Seq<EntryView>
    decreases ss.len(),
{
    if ss.len() == 0 {
        es
    } else {
        add_scrape(add_all(es, ss.drop_last()), ss.last())
    }
}

/// The entries that the scrapes make, added in turn.
pub open spec fn grouped(ss: Seq<TypedScrapeView>) -> Seq<EntryView> {
    add_all(Seq::empty(), ss)
}

/// `e` placed after every entry of a shard no later than its own.
pub open spec fn insert_by_shard(sorted: Seq<EntryView>, e: EntryView) -> Seq<EntryView>
    decreases sorted.len(),
{
    if sorted.len() == 0 {
        seq![e]
    } else if sorted.last().0 <= e.0 {
        sorted.push(e)
    } else {
        insert_by_shard(sorted.drop_last(), e).push(sorted.last())
    }
}

/// The entries ordered by shard, entries of one shard keeping their order.
pub open spec fn by_shard(es: Seq<EntryView>) -> Seq<EntryView>
    decreases es.len(),
{
    if es.len() == 0 {
        Seq::empty()
    } else {
        insert_by_shard(by_shard(es.drop_last()), es.last())
    }
}

/// The collections of the entries, oldest shard first.
pub open spec fn collections_of(es: Seq<EntryView>) -> Seq<CollectionView> {
    by_shard(es).map_values(|e: EntryView| e.2)
}

pub open spec fn collections_view(v: Seq<ScrapeCollection>) -> Seq<CollectionView> {
    v.map_values(|c: ScrapeCollection| c.view())
}

/// Whether every scrape can be gathered.
pub open spec fn all_groupable(ss: Seq<TypedScrapeView>) -> bool {
    forall|i: int| 0 <= i < ss.len() ==> groupable(scrape_millis(#[trigger] ss[i]))
}

/// Scrapes gathered by shard and normalized URL.
pub struct MemIndex {
    entries: Vec<(Shard, String, ScrapeCollection)>,
}

pub open spec fn entry_view(e: (Shard, String, ScrapeCollection)) -> EntryView {
    (e.0.ordinal(), e.1@, e.2.view())
}

impl MemIndex {
    /// The entries, in the order they were made.
    pub closed spec fn entries(&self) -> Seq<EntryView> {
        self.entries@.map_values(|e: (Shard, String, ScrapeCollection)| entry_view(e))
    }

    /// Every collection is dated by a date that can be gathered.
    pub closed spec fn wf(&self) -> bool {
        forall|i: int| 0 <= i < self.entries@.len() ==> groupable(#[trigger] self.entries@[i].2.earliest.millis())
    }

    pub fn new() -> (r: MemIndex)
        ensures
            r.wf(),
            r.entries() == Seq::<EntryView>::empty(),
    {
        let r = MemIndex { entries: Vec::new() };
        assert(r.entries() =~= Seq::<EntryView>::empty());
        r
    }

    /// The position of the entry of a shard and a normalized URL.
    fn position(&self, shard: Shard, norm: &str) -> (r: Option<usize>)
        ensures
            match r {
                Some(i) => entry_pos(self.entries(), shard.ordinal(), norm@) == Some(i as int) && i
                    < self.entries@.len(),
                None => entry_pos(self.entries(), shard.ordinal(), norm@) is None,
            },
    {
        let ghost keys = entry_keys(self.entries());
        let mut i: usize = 0;
        while i < self.entries.len()
            invariant
                i <= self.entries@.len(),
                keys == entry_keys(self.entries()),
                keys.len() == self.entries@.len(),
                forall|j: int| 0 <= j < i ==> keys[j] != (shard.ordinal(), norm@),
            decreases self.entries@.len() - i,
        {
            assert(keys[i as int] == (self.entries@[i as int].0.ordinal(), self.entries@[i as int].1@));
            proof {
                Shard::lemma_ordinal_identifies(self.entries@[i as int].0, shard);
            }
            if self.entries[i].0 == shard && str_eq(self.entries[i].1.as_str(), norm) {
                proof {
                    lemma_key_index_at(keys, (shard.ordinal(), norm@), i as int);
                }
                return Some(i);
            }
            i = i + 1;
        }
        proof {
            lemma_key_index(keys, (shard.ordinal(), norm@));
        }
        None
    }

    /// The entry of the normalized URL near a shard, as `find_near` looks for it.
    fn near(&self, shard: Shard, norm: &str) -> (r: Option<usize>)
        requires
            shift_in_range(shard.ordinal(), -2),
            shift_in_range(shard.ordinal(), 2),
        ensures
            match r {
                Some(i) => find_near(self.entries(), shard.ordinal(), norm@) == Some(i as int) && i
                    < self.entries@.len(),
                None => find_near(self.entries(), shard.ordinal(), norm@) is None,
            },
    {
        proof {
            lemma_near_from(self.entries(), shard.ordinal(), norm@);
        }
        let mut k: i8 = -2;
        while k <= 2
            invariant
                -2 <= k <= 3,
                shift_in_range(shard.ordinal(), -2),
                shift_in_range(shard.ordinal(), 2),
                find_near(self.entries(), shard.ordinal(), norm@) == near_from(
                    self.entries(),
                    shard.ordinal(),
                    norm@,
                    k as int,
                ),
            decreases 3 - k,
        {
            let s = shard.plus_months(k);
            assert(s.ordinal() == shifted(shard.ordinal(), k as int));
            match self.position(s, norm) {
                Some(i) => {
                    return Some(i);
                },
                None => {
                    assert(near_from(self.entries(), shard.ordinal(), norm@, k as int) == near_from(
                        self.entries(),
                        shard.ordinal(),
                        norm@,
                        k + 1,
                    ));
                },
            }
            k = k + 1;
        }
        None
    }

    /// Stores an entry under its shard and normalized URL.
    fn put_entry(&mut self, shard: Shard, norm: String, c: ScrapeCollection)
        requires
            old(self).wf(),
            groupable(c.earliest.millis()),
        ensures
            final(self).wf(),
            final(self).entries() == put(old(self).entries(), (shard.ordinal(), norm@, c.view())),
    {
        let ghost e = (shard.ordinal(), norm@, c.view());
        let ghost before = self.entries();
        match self.position(shard, norm.as_str()) {
            Some(i) => {
                self.entries.set(i, (shard, norm, c));
                assert(self.entries() =~= before.update(i as int, e));
            },
            None => {
                self.entries.push((shard, norm, c));
                assert(self.entries() =~= before.push(e));
            },
        }
    }

    /// Adds the scrapes in turn, where every one of them can be gathered; otherwise leaves the
    /// index as it is and says so.
    pub fn insert_scrapes(&mut self, scrapes: Vec<TypedScrape>) -> (r: bool)
        requires
            old(self).wf(),
        ensures
            final(self).wf(),
            r == all_groupable(scrape_views(scrapes@)),
            r ==> final(self).entries() == add_all(old(self).entries(), scrape_views(scrapes@)),
            !r ==> final(self).entries() == old(self).entries(),
    {
        let ghost all = scrape_views(scrapes@);
        let mut i: usize = 0;
        while i < scrapes.len()
            invariant
                i <= scrapes@.len(),
                all == scrape_views(scrapes@),
                all.len() == scrapes@.len(),
                forall|j: int| 0 <= j < i ==> groupable(scrape_millis(#[trigger] all[j])),
                self.wf(),
                self.entries() == old(self).entries(),
            decreases scrapes@.len() - i,
        {
            assert(all[i as int] == scrapes@[i as int].view());
            let date = scrapes[i].date();
            proof {
                use_type_invariant(&date);
            }
            match Shard::try_from_date_time(date) {
                None => {
                    assert(!groupable(scrape_millis(all[i as int])));
                    return false;
                },
                Some(s) => {
                    if !s.can_shift(-2) || !s.can_shift(2) {
                        assert(!groupable(scrape_millis(all[i as int])));
                        return false;
                    }
                },
            }
            i = i + 1;
        }
        assert(all_groupable(all));
        let ghost start = self.entries();
        let mut rest = reversed(scrapes);
        let ghost mut k: int = 0;
        assert(all.take(0) =~= Seq::<TypedScrapeView>::empty());
        assert(all.skip(0) =~= all);
        while rest.len() > 0
            invariant
                0 <= k <= all.len(),
                all_groupable(all),
                scrape_views(rest@) == all.skip(k).reverse(),
                self.wf(),
                self.entries() == add_all(start, all.take(k)),
            decreases rest@.len(),
        {
            let ghost before = rest@;
            assert(scrape_views(before).len() == before.len());
            let x = rest.pop().unwrap();
            assert(x.view() == all[k]) by {
                assert(scrape_views(before)[before.len() - 1] == before[before.len() - 1].view());
            }
            assert(scrape_views(rest@) =~= all.skip(k + 1).reverse()) by {
                assert(scrape_views(rest@) =~= scrape_views(before).drop_last());
                assert(all.skip(k).reverse().drop_last() =~= all.skip(k + 1).reverse());
            }
            assert(groupable(scrape_millis(all[k])));
            self.insert_scrape(x);
            assert(all.take(k + 1).drop_last() =~= all.take(k));
            assert(all.take(k + 1).last() == all[k]);
            proof {
                k = k + 1;
            }
        }
        assert(all.skip(k).len() == 0);
        assert(all.take(k) =~= all);
        true
    }

    /// The collections, those of earlier shards first.
    pub fn get_all_stories(self) -> (r: Vec<ScrapeCollection>)
        ensures
            collections_view(r@) == collections_of(self.entries()),
    {
        let ghost all = self.entries();
        let mut rest = reversed(self.entries);
        let mut out: Vec<(Shard, String, ScrapeCollection)> = Vec::new();
        let ghost mut k: int = 0;
        assert(all.skip(0) =~= all);
        assert(all.take(0) =~= Seq::<EntryView>::empty());
        assert(out@.map_values(|e: (Shard, String, ScrapeCollection)| entry_view(e)) =~= Seq::<EntryView>::empty());
        while rest.len() > 0
            invariant
                0 <= k <= all.len(),
                rest@.map_values(|e: (Shard, String, ScrapeCollection)| entry_view(e)) == all.skip(k).reverse(),
                out@.map_values(|e: (Shard, String, ScrapeCollection)| entry_view(e)) == by_shard(all.take(k)),
            decreases rest@.len(),
        {
            let ghost before = rest@;
            let ghost bv = before.map_values(|e: (Shard, String, ScrapeCollection)| entry_view(e));
            assert(bv.len() == before.len());
            let x = rest.pop().unwrap();
            assert(entry_view(x) == all[k]) by {
                assert(bv[before.len() - 1] == entry_view(before[before.len() - 1]));
            }
            assert(rest@.map_values(|e: (Shard, String, ScrapeCollection)| entry_view(e)) =~= all.skip(k + 1).reverse()) by {
                assert(rest@.map_values(|e: (Shard, String, ScrapeCollection)| entry_view(e)) =~= bv.drop_last());
                assert(all.skip(k).reverse().drop_last() =~= all.skip(k + 1).reverse());
            }
            assert(all.take(k + 1).drop_last() =~= all.take(k));
            assert(all.take(k + 1).last() == all[k]);
            let ghost ov = out@.map_values(|e: (Shard, String, ScrapeCollection)| entry_view(e));
            let xm = x.0.months();
            let mut j = out.len();
            while j > 0 && out[j - 1].0.months() > xm
                invariant
                    j <= out@.len(),
                    ov == out@.map_values(|e: (Shard, String, ScrapeCollection)| entry_view(e)),
                    xm == entry_view(x).0,
                    forall|m: int| j <= m < out@.len() ==> #[trigger] ov[m].0 > entry_view(x).0,
                decreases j,
            {
                assert(ov[j - 1] == entry_view(out@[j - 1]));
                j = j - 1;
            }
            proof {
                if j > 0 {
                    assert(ov[j - 1] == entry_view(out@[j - 1]));
                }
                lemma_insert_at(ov, entry_view(x), j as int);
            }
            let ghost xv = entry_view(x);
            out.insert(j, x);
            assert(out@.map_values(|e: (Shard, String, ScrapeCollection)| entry_view(e)) =~= ov.insert(j as int, xv));
            proof {
                k = k + 1;
            }
        }
        assert(all.skip(k).len() == 0);
        assert(all.take(k) =~= all);
        let ghost sorted = out@.map_values(|e: (Shard, String, ScrapeCollection)| entry_view(e));
        let mut rest2 = reversed(out);
        let mut r: Vec<ScrapeCollection> = Vec::new();
        assert(sorted.skip(0) =~= sorted);
        while rest2.len() > 0
            invariant
                r@.len() + rest2@.len() == sorted.len(),
                rest2@.map_values(|e: (Shard, String, ScrapeCollection)| entry_view(e)) == sorted.skip(r@.len() as int).reverse(),
                collections_view(r@) == sorted.take(r@.len() as int).map_values(|e: EntryView| e.2),
            decreases rest2@.len(),
        {
            let ghost n = r@.len() as int;
            let ghost before = rest2@;
            let ghost bv = before.map_values(|e: (Shard, String, ScrapeCollection)| entry_view(e));
            assert(bv.len() == before.len());
            let (_, _, c) = rest2.pop().unwrap();
            assert(c.view() == sorted[n].2) by {
                assert(bv[before.len() - 1] == entry_view(before[before.len() - 1]));
            }
            let ghost cv = c.view();
            let ghost rv = collections_view(r@);
            r.push(c);
            assert(collections_view(r@) =~= rv.push(cv));
            assert(sorted.take(n + 1).map_values(|e: EntryView| e.2) =~= sorted.take(n).map_values(|e: EntryView| e.2).push(cv));
            assert(rest2@.map_values(|e: (Shard, String, ScrapeCollection)| entry_view(e)) =~= sorted.skip(n + 1).reverse()) by {
                assert(rest2@.map_values(|e: (Shard, String, ScrapeCollection)| entry_view(e)) =~= bv.drop_last());
                assert(sorted.skip(n).reverse().drop_last() =~= sorted.skip(n + 1).reverse());
            }
        }
        assert(sorted.take(sorted.len() as int) =~= sorted);
        r
    }

    /// Adds a scrape of a date that can be gathered.
    fn insert_scrape(&mut self, scrape: TypedScrape)
        requires
            old(self).wf(),
            groupable(scrape_millis(scrape.view())),
        ensures
            final(self).wf(),
            final(self).entries() == add_scrape(old(self).entries(), scrape.view()),
    {
        let ghost sv = scrape.view();
        let ghost es = self.entries();
        let date = scrape.date();
        proof {
            use_type_invariant(&date);
        }
        let shard = Shard::from_date_time(date);
        let norm = scrape.url().normalization().string().to_string();
        assert(norm@ == scrape_url(sv).norm);
        match self.near(shard, norm.as_str()) {
            Some(i) => {
                let (_, key, mut c) = self.entries.remove(i);
                let ghost removed = self.entries();
                assert(removed =~= es.remove(i as int));
                proof {
                    lemma_key_index(entry_keys(es), (es[i as int].0, norm@));
                    assert(entry_keys(es)[i as int] == (es[i as int].0, es[i as int].1));
                }
                proof {
                    lemma_near_found(es, shard.ordinal(), norm@);
                }
                assert(key@ == norm@);
                let ghost cv = c.view();
                assert(cv == es[i as int].2);
                let ghost m0 = c.earliest.millis();
                c.merge(scrape);
                assert(groupable(c.earliest.millis())) by {
                    assert(groupable(m0));
                }
                proof {
                    use_type_invariant(&c.earliest);
                }
                let target = Shard::from_date_time(c.earliest);
                self.put_entry(target, key, c);
            },
            None => {
                let c = ScrapeCollection::new_from_one(scrape);
                self.put_entry(shard, norm, c);
            },
        }
    }
}

proof fn lemma_near_found(es: Seq<EntryView>, shard: nat, norm: Seq<char>)
    ensures
        find_near(es, shard, norm) matches Some(i) ==> 0 <= i < es.len() && es[i].1 == norm,
{
    let keys = entry_keys(es);
    lemma_key_index(keys, (shifted(shard, -2), norm));
    lemma_key_index(keys, (shifted(shard, -1), norm));
    lemma_key_index(keys, (shifted(shard, 0), norm));
    lemma_key_index(keys, (shifted(shard, 1), norm));
    lemma_key_index(keys, (shifted(shard, 2), norm));
    if let Some(i) = find_near(es, shard, norm) {
        assert(keys[i] == (es[i].0, es[i].1));
    }
}

proof fn lemma_near_from(es: Seq<EntryView>, shard: nat, norm: Seq<char>)
    ensures
        find_near(es, shard, norm) == near_from(es, shard, norm, -2),
{
    reveal_with_fuel(near_from, 6);
}

proof fn lemma_insert_at(s: Seq<EntryView>, x: EntryView, j: int)
    requires
        0 <= j <= s.len(),
        forall|k: int| j <= k < s.len() ==> #[trigger] s[k].0 > x.0,
        j == 0 || s[j - 1].0 <= x.0,
    ensures
        insert_by_shard(s, x) == s.insert(j, x),
    decreases s.len(),
{
    if s.len() == 0 {
        assert(s.insert(j, x) =~= seq![x]);
    } else if s.last().0 <= x.0 {
        assert(j == s.len());
        assert(s.insert(j, x) =~= s.push(x));
    } else {
        assert(j < s.len());
        lemma_insert_at(s.drop_last(), x, j);
        assert(s.drop_last().insert(j, x).push(s.last()) =~= s.insert(j, x));
    }
}

/// The entry looked for from `k` on, as `find_near` continues.
pub open spec fn near_from(es: Seq<EntryView>, shard: nat, norm: Seq<char>, k: int) -> Option<int>
    decreases 3 - k,
{
    if k > 2 {
        None
    } else {
        match entry_pos(es, shifted(shard, k), norm) {
            Some(i) => Some(i),
            None => near_from(es, shard, norm, k + 1),
        }
    }
}

/// Gathers scrapes into stories: each scrape joins the collection of its normalized URL in a
/// shard up to two months from its own, else starts one; the collections come out oldest shard
/// first. `None` where the month of some scrape lies too near the ends of the shards to look
/// around it.
pub fn group_scrapes(scrapes: Vec<TypedScrape>) -> (r: Option<Vec<ScrapeCollection>>)
    ensures
        r is Some <==> all_groupable(scrape_views(scrapes@)),
        r matches Some(v) ==> collections_view(v@) == collections_of(grouped(scrape_views(scrapes@))),
{
    let mut index = MemIndex::new();
    if index.insert_scrapes(scrapes) {
        Some(index.get_all_stories())
    } else {
        None
    }
}

/// Whether a collection holds a scrape and is dated no later than any of its scrapes.
pub open spec fn well_dated(c: CollectionView) -> bool {
    &&& c.scrapes.len() > 0
    &&& forall|j: int| 0 <= j < c.scrapes.len() ==> c.earliest <= scrape_millis(#[trigger] c.scrapes[j])
}

/// Whether every entry's collection is well dated.
pub open spec fn all_well_dated(es: Seq<EntryView>) -> bool {
    forall|i: int| 0 <= i < es.len() ==> well_dated(#[trigger] es[i].2)
}

proof fn lemma_merged_well_dated(c: CollectionView, s: TypedScrapeView)
    requires
        well_dated(c),
    ensures
        well_dated(merged(c, s)),
{
    let m = merged(c, s);
    let keys = c.scrapes.map_values(|v: TypedScrapeView| scrape_id_of(v));
    lemma_key_index(keys, scrape_id_of(s));
    assert forall|j: int| 0 <= j < m.scrapes.len() implies m.earliest <= scrape_millis(#[trigger] m.scrapes[j]) by {
        match id_pos(c.scrapes, scrape_id_of(s)) {
            Some(i) => {
                if j == i {
                    lemma_merged_scrape_millis(c.scrapes[i], s);
                } else {
                    assert(m.scrapes[j] == c.scrapes[j]);
                }
            },
            None => {
                if j < c.scrapes.len() {
                    assert(m.scrapes[j] == c.scrapes[j]);
                }
            },
        }
    }
}

proof fn lemma_merged_scrape_millis(a: TypedScrapeView, b: TypedScrapeView)
    ensures
        scrape_millis(merged_scrape(a, b)) == scrape_millis(a) || scrape_millis(merged_scrape(a, b))
            == scrape_millis(b),
        scrape_millis(merged_scrape(a, b)) <= scrape_millis(a),
{
}

proof fn lemma_put_well_dated(es: Seq<EntryView>, e: EntryView)
    requires
        all_well_dated(es),
        well_dated(e.2),
    ensures
        all_well_dated(put(es, e)),
{
    let r = put(es, e);
    lemma_key_index(entry_keys(es), (e.0, e.1));
    assert forall|i: int| 0 <= i < r.len() implies well_dated(#[trigger] r[i].2) by {
        match entry_pos(es, e.0, e.1) {
            Some(k) => {
                if i != k {
                    assert(r[i] == es[i]);
                }
            },
            None => {
                if i < es.len() {
                    assert(r[i] == es[i]);
                }
            },
        }
    }
}

proof fn lemma_add_scrape_well_dated(es: Seq<EntryView>, s: TypedScrapeView)
    requires
        all_well_dated(es),
    ensures
        all_well_dated(add_scrape(es, s)),
{
    let shard = month_of_millis(scrape_millis(s)) as nat;
    let norm = scrape_url(s).norm;
    match find_near(es, shard, norm) {
        Some(i) => {
            lemma_near_found(es, shard, norm);
            let c = merged(es[i].2, s);
            lemma_merged_well_dated(es[i].2, s);
            let rest = es.remove(i);
            assert forall|k: int| 0 <= k < rest.len() implies well_dated(#[trigger] rest[k].2) by {
                if k < i {
                    assert(rest[k] == es[k]);
                } else {
                    assert(rest[k] == es[k + 1]);
                }
            }
            lemma_put_well_dated(rest, (month_of_millis(c.earliest) as nat, norm, c));
        },
        None => {
            let f = fresh_collection(s);
            assert(f.scrapes[0] == s);
            lemma_put_well_dated(es, (shard, norm, f));
        },
    }
}

proof fn lemma_add_all_well_dated(es: Seq<EntryView>, ss: Seq<TypedScrapeView>)
    requires
        all_well_dated(es),
    ensures
        all_well_dated(add_all(es, ss)),
    decreases ss.len(),
{
    if ss.len() > 0 {
        lemma_add_all_well_dated(es, ss.drop_last());
        lemma_add_scrape_well_dated(add_all(es, ss.drop_last()), ss.last());
    }
}

proof fn lemma_insert_by_shard_elements(sorted: Seq<EntryView>, e: EntryView)
    ensures
        forall|i: int| 0 <= i < insert_by_shard(sorted, e).len() ==> #[trigger] insert_by_shard(sorted, e)[i]
            == e || sorted.contains(insert_by_shard(sorted, e)[i]),
    decreases sorted.len(),
{
    if sorted.len() > 0 && !(sorted.last().0 <= e.0) {
        let inner = insert_by_shard(sorted.drop_last(), e);
        lemma_insert_by_shard_elements(sorted.drop_last(), e);
        let r = insert_by_shard(sorted, e);
        assert forall|i: int| 0 <= i < r.len() implies #[trigger] r[i] == e || sorted.contains(r[i]) by {
            if i < inner.len() {
                assert(r[i] == inner[i]);
                if inner[i] != e {
                    let k = choose|k: int| 0 <= k < sorted.drop_last().len() && sorted.drop_last()[k] == inner[i];
                    assert(sorted[k] == inner[i]);
                }
            } else {
                assert(r[i] == sorted[sorted.len() - 1]);
            }
        }
    } else if sorted.len() > 0 {
        let r = insert_by_shard(sorted, e);
        assert forall|i: int| 0 <= i < r.len() implies #[trigger] r[i] == e || sorted.contains(r[i]) by {
            if i < sorted.len() {
                assert(r[i] == sorted[i]);
            }
        }
    }
}

proof fn lemma_by_shard_elements(es: Seq<EntryView>)
    ensures
        forall|i: int| 0 <= i < by_shard(es).len() ==> es.contains(#[trigger] by_shard(es)[i]),
    decreases es.len(),
{
    if es.len() > 0 {
        let inner = by_shard(es.drop_last());
        lemma_by_shard_elements(es.drop_last());
        lemma_insert_by_shard_elements(inner, es.last());
        let r = by_shard(es);
        assert forall|i: int| 0 <= i < r.len() implies es.contains(#[trigger] r[i]) by {
            if r[i] == es.last() {
                assert(es[es.len() - 1] == r[i]);
            } else {
                assert(inner.contains(r[i]));
                let k = choose|k: int| 0 <= k < inner.len() && inner[k] == r[i];
                assert(es.drop_last().contains(inner[k]));
                let m = choose|m: int| 0 <= m < es.drop_last().len() && es.drop_last()[m] == inner[k];
                assert(es[m] == r[i]);
            }
        }
    }
}

/// Every collection that grouping makes holds a scrape, and its date is no later than that of
/// any scrape in it.
pub proof fn lemma_grouped_collections_well_dated(ss: Seq<TypedScrapeView>)
    ensures
        forall|i: int| 0 <= i < collections_of(grouped(ss)).len() ==> well_dated(
            #[trigger] collections_of(grouped(ss))[i],
        ),
{
    let es = grouped(ss);
    lemma_add_all_well_dated(Seq::empty(), ss);
    lemma_by_shard_elements(es);
    let cs = collections_of(es);
    assert forall|i: int| 0 <= i < cs.len() implies well_dated(#[trigger] cs[i]) by {
        let b = by_shard(es);
        assert(cs[i] == b[i].2);
        assert(es.contains(b[i]));
        let k = choose|k: int| 0 <= k < es.len() && es[k] == b[i];
        assert(well_dated(es[k].2));
    }
}

/// The scrape identifier of a scrape.
fn id_of_scrape(s: &TypedScrape) -> (r: ScrapeId)
    ensures
        r@ == scrape_id_of(s.view()),
{
    match s {
        TypedScrape::HackerNews(x) => ScrapeId::new(ScrapeSource::HackerNews, None, x.id.clone()),
        TypedScrape::Slashdot(x) => ScrapeId::new(ScrapeSource::Slashdot, None, x.id.clone()),
        TypedScrape::Lobsters(x) => ScrapeId::new(ScrapeSource::Lobsters, None, x.id.clone()),
        TypedScrape::Reddit(x) => ScrapeId::new(ScrapeSource::Reddit, Some(x.subreddit.clone()), x.id.clone()),
        TypedScrape::Feed(x) => ScrapeId::new(ScrapeSource::Feed, None, x.id.clone()),
    }
}

/// Where an indexed story document is found.
#[derive(Clone, Copy, PartialEq, Eq, Debug)]
pub struct StoryDocRef {
    pub segment: u32,
    pub doc: u32,
}

/// What indexing a collection comes to: adding the identifiers of its scrapes to the story found
/// for it, or inserting it as a new story.
pub enum InsertAction {
    AddScrapeIds(StoryDocRef, Vec<String>),
    InsertStory,
}

/// The identifier under which the index keeps a scrape: the shard of its date, a colon, and its
/// scrape identifier.
pub open spec fn indexed_scrape_id(s: TypedScrapeView) -> Seq<char> {
    shard_text(month_of_millis(scrape_millis(s)) as nat) + seq![':'] + scrape_id_text(scrape_id_of(s))
}

/// Whether the month of every scrape of the list is a shard.
pub open spec fn all_sharded(ss: Seq<TypedScrapeView>) -> bool {
    forall|i: int|
        0 <= i < ss.len() ==> (civil_year(scrape_millis(#[trigger] ss[i])) as u16) * 12 + civil_month(
            scrape_millis(ss[i]),
        ) <= 0xffff
}

/// What to do with a collection, given the story of its normalized URL found in the index near its
/// date, if one was: add the identifiers of its scrapes to that story, in the collection's order,
/// or insert it as a new story. `None` where the month of some scrape is not a shard.
pub fn insert_action(found: Option<StoryDocRef>, c: &ScrapeCollection) -> (r: Option<InsertAction>)
    ensures
        r is Some <==> (found is None || all_sharded(c.view().scrapes)),
        r matches Some(a) ==> (found is Some <==> a is AddScrapeIds),
        r matches Some(InsertAction::AddScrapeIds(d, ids)) ==> Some(d) == found && strs_view(ids@)
            == c.view().scrapes.map_values(|s: TypedScrapeView| indexed_scrape_id(s)),
{
    let doc = match found {
        None => {
            return Some(InsertAction::InsertStory);
        },
        Some(d) => d,
    };
    let ghost sv = c.view().scrapes;
    let mut ids: Vec<String> = Vec::new();
    let mut i: usize = 0;
    while i < c.scrapes.len()
        invariant
            i <= c.scrapes@.len(),
            sv == scrape_views(c.scrapes@),
            sv == c.view().scrapes,
            found == Some(doc),
            sv.len() == c.scrapes@.len(),
            strs_view(ids@) == sv.take(i as int).map_values(|s: TypedScrapeView| indexed_scrape_id(s)),
            forall|j: int| 0 <= j < i ==> (civil_year(scrape_millis(#[trigger] sv[j])) as u16) * 12
                + civil_month(scrape_millis(sv[j])) <= 0xffff,
        decreases c.scrapes@.len() - i,
    {
        assert(sv[i as int] == c.scrapes@[i as int].view());
        let date = c.scrapes[i].date();
        proof {
            use_type_invariant(&date);
        }
        let shard = match Shard::try_from_date_time(date) {
            Some(s) => s,
            None => {
                assert(!all_sharded(sv)) by {
                    assert(!((civil_year(scrape_millis(sv[i as int])) as u16) * 12 + civil_month(
                        scrape_millis(sv[i as int]),
                    ) <= 0xffff));
                }
                return None;
            },
        };
        let mut text = shard.to_string();
        crate::text::push_char(&mut text, ':');
        let id = id_of_scrape(&c.scrapes[i]);
        let id_text = id.to_string();
        crate::text::push_str(&mut text, id_text.as_str());
        let ghost before = strs_view(ids@);
        assert(text@ =~= indexed_scrape_id(sv[i as int]));
        ids.push(text);
        assert(strs_view(ids@) =~= before.push(indexed_scrape_id(sv[i as int])));
        assert(sv.take(i + 1).map_values(|s: TypedScrapeView| indexed_scrape_id(s)) =~= sv.take(i as int).map_values(
            |s: TypedScrapeView| indexed_scrape_id(s),
        ).push(indexed_scrape_id(sv[i as int])));
        i = i + 1;
    }
    assert(sv.take(sv.len() as int) =~= sv);
    Some(InsertAction::AddScrapeIds(doc, ids))
}

/// Seconds in the thirty days around a story's date in which an indexed story of the same
/// normalized URL counts as the same story.
pub const LOOKUP_WINDOW_SECS: i64 = 2_592_000;

/// The dates, in seconds, of the indexed stories that count as the story of a date: from thirty
/// days before it (included) to thirty days after it (excluded).
pub fn lookup_window(date_secs: i64) -> (r: (i64, i64))
    requires
        i64::MIN + LOOKUP_WINDOW_SECS <= date_secs <= i64::MAX - LOOKUP_WINDOW_SECS,
    ensures
        r.0 == date_secs - LOOKUP_WINDOW_SECS,
        r.1 == date_secs + LOOKUP_WINDOW_SECS,
{
    (date_secs - LOOKUP_WINDOW_SECS, date_secs + LOOKUP_WINDOW_SECS)
}

/// Whether an indexed story's date, in seconds, lies in the window of a story's date.
pub fn in_lookup_window(date_secs: i64, doc_secs: i64) -> (r: bool)
    requires
        i64::MIN <= doc_secs - date_secs <= i64::MAX,
    ensures
        r == (-LOOKUP_WINDOW_SECS <= doc_secs - date_secs < LOOKUP_WINDOW_SECS),
{
    let d = doc_secs - date_secs;
    -LOOKUP_WINDOW_SECS <= d && d < LOOKUP_WINDOW_SECS
}

/// The collections indexed before the scrapes gathered so far are stored and a chunk ends.
pub const STORY_INDEXING_CHUNK_SIZE: usize = 10000;

/// The most scrapes held back before they are stored.
pub const SCRAPE_PROCESSING_CHUNK_SIZE: usize = 1000;

/// Where indexing a run of collections stands: how many collections the current chunk has
/// indexed, and how many of their scrapes wait to be stored.
#[derive(Clone, Copy, Debug, PartialEq, Eq, Structural)]
pub struct BatchState {
    pub in_chunk: usize,
    pub pending: usize,
}

/// What follows indexing one collection's story: whether the waiting scrapes, now over the limit,
/// are stored, and whether the chunk is complete, which stores the scrapes that wait then (none,
/// possibly) and starts a new chunk.
#[derive(Clone, Copy, Debug, PartialEq, Eq, Structural)]
pub struct IndexAction {
    pub store_over_limit: bool,
    pub end_chunk: bool,
}

/// A state that indexing reaches: the chunk is not full and no more scrapes wait than the limit.
pub open spec fn batch_state_ok(s: BatchState) -> bool {
    s.in_chunk < STORY_INDEXING_CHUNK_SIZE && s.pending <= SCRAPE_PROCESSING_CHUNK_SIZE
}

/// The step for a collection of `scrapes` scrapes: they join the waiting scrapes, which are
/// stored once there are more than the limit; the collection is counted, and the chunk ends at
/// its size, storing what waits.
pub open spec fn index_step_of(s: BatchState, scrapes: nat) -> (BatchState, IndexAction) {
    let waiting = s.pending + scrapes;
    let over = waiting > SCRAPE_PROCESSING_CHUNK_SIZE;
    let count = s.in_chunk + 1;
    let end = count == STORY_INDEXING_CHUNK_SIZE;
    (
        BatchState {
            in_chunk: if end { 0 } else { count as usize },
            pending: if end || over { 0 } else { waiting as usize },
        },
        IndexAction { store_over_limit: over, end_chunk: end },
    )
}

impl BatchState {
    /// Nothing indexed, nothing waiting.
    pub fn new() -> (r: BatchState)
        ensures
            r == (BatchState { in_chunk: 0, pending: 0 }),
    {
        BatchState { in_chunk: 0, pending: 0 }
    }
}

/// The step of indexing a collection, from the state before it. Every state it reaches is one
/// indexing can reach.
pub fn index_step(s: BatchState, c: &ScrapeCollection) -> (r: (BatchState, IndexAction))
    requires
        batch_state_ok(s),
    ensures
        r == index_step_of(s, c.scrapes@.len()),
        batch_state_ok(r.0),
{
    let n = c.scrapes.len();
    let over = n > SCRAPE_PROCESSING_CHUNK_SIZE - s.pending;
    let count = s.in_chunk + 1;
    let end = count == STORY_INDEXING_CHUNK_SIZE;
    let in_chunk = if end { 0 } else { count };
    let pending = if end || over { 0 } else { s.pending + n };
    (BatchState { in_chunk, pending }, IndexAction { store_over_limit: over, end_chunk: end })
}

/// Whether, once the collections run out, the scrapes of an unfinished chunk are still to be
/// stored: exactly when the chunk has indexed a collection.
pub fn index_finish(s: BatchState) -> (r: bool)
    ensures
        r == (s.in_chunk > 0),
{
    s.in_chunk > 0
}

} // verus!
