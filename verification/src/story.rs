//! What a story takes from the scrapes it gathers: the title it shows and the date it carries.
use vstd::prelude::*;

use crate::date::StoryDate;
use crate::scrapers::{scrape_millis, scrape_origin, scrape_title, scrape_views, TypedScrape, TypedScrapeView};
use crate::source::ScrapeSource;
use crate::text::{char_width, chars_of, lemma_utf8_len_bound, utf8_len};

verus! {

/// How far a source's titles are trusted, best first: Hacker News is moderated, and Reddit's
/// titles are as their submitters wrote them.
pub open spec fn title_score(s: ScrapeSource) -> int {
    match s {
        ScrapeSource::HackerNews => 0,
        ScrapeSource::Lobsters => 1,
        ScrapeSource::Slashdot => 2,
        ScrapeSource::Reddit => 3,
        _ => 99,
    }
}

fn title_score_of(s: ScrapeSource) -> (r: u32)
    ensures
        r == title_score(s),
{
    match s {
        ScrapeSource::HackerNews => 0,
        ScrapeSource::Lobsters => 1,
        ScrapeSource::Slashdot => 2,
        ScrapeSource::Reddit => 3,
        _ => 99,
    }
}

/// The title a story shows, with the score and source it comes from: taken over the scrapes in
/// order, a scrape's title replaces the one chosen so far where its source is trusted more, or as
/// much and the title is shorter in bytes. Without scrapes, the title is `Unknown title`.
pub open spec fn title_choice_of(s: Seq<TypedScrapeView>) -> (int, ScrapeSource, Seq<char>)
    decreases s.len(),
{
    if s.len() == 0 {
        (99, ScrapeSource::Other, "Unknown title"@)
    } else {
        let best = title_choice_of(s.drop_last());
        let source = scrape_origin(s.last());
        let title = scrape_title(s.last());
        let score = title_score(source);
        if score < best.0 || (score == best.0 && utf8_len(title) < utf8_len(best.2)) {
            (score, source, title)
        } else {
            best
        }
    }
}

proof fn lemma_title_choice_inv(s: Seq<TypedScrapeView>)
    ensures
        title_choice_of(s).0 == title_score(title_choice_of(s).1),
        title_choice_of(s).0 < 99 ==> exists|i: int|
            0 <= i < s.len() && scrape_origin(#[trigger] s[i]) == title_choice_of(s).1 && scrape_title(s[i])
                == title_choice_of(s).2,
        forall|i: int| 0 <= i < s.len() ==> title_choice_of(s).0 <= title_score(scrape_origin(#[trigger] s[i])),
    decreases s.len(),
{
    if s.len() > 0 {
        let d = s.drop_last();
        lemma_title_choice_inv(d);
        let last = s.len() - 1;
        assert(s[last] == s.last());
        assert forall|i: int| 0 <= i < s.len() implies title_choice_of(s).0 <= title_score(
            scrape_origin(#[trigger] s[i]),
        ) by {
            if i < last {
                assert(s[i] == d[i]);
            }
        }
        if title_choice_of(s) == title_choice_of(d) && title_choice_of(d).0 < 99 {
            let j = choose|j: int|
                0 <= j < d.len() && scrape_origin(#[trigger] d[j]) == title_choice_of(d).1 && scrape_title(d[j])
                    == title_choice_of(d).2;
            assert(s[j] == d[j]);
        } else if d.len() == 0 {
            assert(title_choice_of(d).0 == 99);
        }
    }
}

/// The title a story shows, where a scrape of it comes from a source whose titles are ranked
/// (not a feed), is the title of one of them, from a source trusted at least as much as that of
/// any other.
pub proof fn lemma_title_from_most_trusted(s: Seq<TypedScrapeView>)
    requires
        exists|i: int| 0 <= i < s.len() && title_score(scrape_origin(#[trigger] s[i])) < 99,
    ensures
        exists|i: int|
            0 <= i < s.len() && scrape_origin(#[trigger] s[i]) == title_choice_of(s).1 && scrape_title(s[i])
                == title_choice_of(s).2,
        forall|i: int|
            0 <= i < s.len() ==> title_score(title_choice_of(s).1) <= title_score(scrape_origin(#[trigger] s[i])),
{
    lemma_title_choice_inv(s);
}

/// The length of the text in UTF-8 bytes.
pub(crate) fn byte_len(s: &str) -> (r: u128)
    ensures
        r == utf8_len(s@),
{
    let chars = chars_of(s);
    let mut n: u128 = 0;
    let mut i: usize = 0;
    assert(chars@.take(0) =~= Seq::<char>::empty());
    while i < chars.len()
        invariant
            i <= chars@.len(),
            n == utf8_len(chars@.take(i as int)),
            n <= 4 * i,
        decreases chars@.len() - i,
    {
        proof {
            lemma_utf8_len_bound(chars@.take(i + 1));
            assert(chars@.take(i + 1).drop_last() =~= chars@.take(i as int));
        }
        n = n + char_width(chars[i]) as u128;
        i = i + 1;
    }
    assert(chars@.take(chars@.len() as int) =~= chars@);
    n
}

/// The title a story shows and the source it comes from.
pub fn title_choice(scrapes: &[TypedScrape]) -> (r: (ScrapeSource, String))
    ensures
        r.0 == title_choice_of(scrape_views(scrapes@)).1,
        r.1@ == title_choice_of(scrape_views(scrapes@)).2,
{
    let ghost views = scrape_views(scrapes@);
    let mut best_score: u32 = 99;
    let mut best_source = ScrapeSource::Other;
    let mut best_title = "Unknown title".to_string();
    let mut best_len = byte_len(best_title.as_str());
    let mut i: usize = 0;
    assert(views.take(0) =~= Seq::<TypedScrapeView>::empty());
    while i < scrapes.len()
        invariant
            i <= scrapes@.len(),
            views == scrape_views(scrapes@),
            views.len() == scrapes@.len(),
            title_choice_of(views.take(i as int)) == (best_score as int, best_source, best_title@),
            best_len == utf8_len(best_title@),
        decreases scrapes@.len() - i,
    {
        let scrape = &scrapes[i];
        assert(views[i as int] == scrape.view());
        assert(views.take(i + 1).drop_last() =~= views.take(i as int));
        assert(views.take(i + 1).last() == views[i as int]);
        let score = title_score_of(scrape.source());
        let title = scrape.title();
        let len = byte_len(title);
        if score < best_score || (score == best_score && len < best_len) {
            best_score = score;
            best_source = scrape.source();
            best_title = title.to_string();
            best_len = len;
        }
        i = i + 1;
    }
    assert(views.take(scrapes@.len() as int) =~= views);
    (best_source, best_title)
}

/// The earliest date of the scrapes, if there are any.
pub open spec fn earliest_millis(s: Seq<TypedScrapeView>) -> Option<int>
    decreases s.len(),
{
    if s.len() == 0 {
        None
    } else {
        match earliest_millis(s.drop_last()) {
            Some(m) => Some(if scrape_millis(s.last()) < m {
                scrape_millis(s.last())
            } else {
                m
            }),
            None => Some(scrape_millis(s.last())),
        }
    }
}

/// The date of a story: the earliest date of its scrapes; `None` without scrapes.
pub fn story_date(scrapes: &[TypedScrape]) -> (r: Option<StoryDate>)
    ensures
        match (r, earliest_millis(scrape_views(scrapes@))) {
            (Some(d), Some(m)) => d.millis() == m,
            (None, None) => true,
            _ => false,
        },
{
    let ghost views = scrape_views(scrapes@);
    let mut best: Option<StoryDate> = None;
    let mut i: usize = 0;
    assert(views.take(0) =~= Seq::<TypedScrapeView>::empty());
    while i < scrapes.len()
        invariant
            i <= scrapes@.len(),
            views == scrape_views(scrapes@),
            views.len() == scrapes@.len(),
            match (best, earliest_millis(views.take(i as int))) {
                (Some(d), Some(m)) => d.millis() == m,
                (None, None) => true,
                _ => false,
            },
        decreases scrapes@.len() - i,
    {
        assert(views[i as int] == scrapes@[i as int].view());
        assert(views.take(i + 1).drop_last() =~= views.take(i as int));
        assert(views.take(i + 1).last() == views[i as int]);
        let d = scrapes[i].date();
        best = match best {
            Some(b) => Some(b.earliest(d)),
            None => Some(d),
        };
        i = i + 1;
    }
    assert(views.take(scrapes@.len() as int) =~= views);
    best
}

/// The date of a story with scrapes is the date of one of them, and no scrape is earlier.
pub proof fn lemma_story_date_is_earliest(s: Seq<TypedScrapeView>)
    requires
        s.len() > 0,
    ensures
        earliest_millis(s) is Some,
        exists|i: int| 0 <= i < s.len() && scrape_millis(#[trigger] s[i]) == earliest_millis(s)->0,
        forall|i: int| 0 <= i < s.len() ==> earliest_millis(s)->0 <= scrape_millis(#[trigger] s[i]),
    decreases s.len(),
{
    let d = s.drop_last();
    let last = s.len() - 1;
    assert(s[last] == s.last());
    if d.len() > 0 {
        lemma_story_date_is_earliest(d);
        let j = choose|j: int| 0 <= j < d.len() && scrape_millis(#[trigger] d[j]) == earliest_millis(d)->0;
        assert(s[j] == d[j]);
        assert forall|i: int| 0 <= i < s.len() implies earliest_millis(s)->0 <= scrape_millis(#[trigger] s[i]) by {
            if i < last {
                assert(s[i] == d[i]);
            }
        }
    }
}

} // verus!
