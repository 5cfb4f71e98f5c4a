//! The parts of a story's score that the fields of a scrape decide. Where a term applies, it
//! carries a whole-number weight; the weighted rank and the upvote ratio, which take floating
//! point, are scored by the caller.
use vstd::prelude::*;

use crate::scrapers::{scrape_origin, scrape_url, TypedScrape, TypedScrapeView};
use crate::source::ScrapeSource;
use crate::story::byte_len;
use crate::text::{chars_of, contains, contains_seq, utf8_len};

verus! {

/// What a term of a score is for.
#[derive(Clone, Copy, Debug, PartialEq, Eq, Structural)]
pub enum ScoreTerm {
    /// The link is to an image host.
    ImageLink,
    /// A Reddit story that links to Reddit itself.
    SelfLink,
    /// A Reddit story with a long title.
    LongRedditTitle,
    /// A Reddit story's upvotes.
    UpvoteCount,
    /// A story's comments.
    CommentCount,
}

/// Whether the host is one of images: it contains `gfycat`, `imgur` or `i.reddit.com`.
pub open spec fn image_host(host: Seq<char>) -> bool {
    contains_seq(host, "gfycat"@) || contains_seq(host, "imgur"@) || contains_seq(host, "i.reddit.com"@)
}

/// The image-link term: for an image host, -5 where the scrape is from Hacker News, else -10.
pub open spec fn image_terms(v: TypedScrapeView) -> Seq<(ScoreTerm, i32)> {
    if image_host(scrape_url(v).host) {
        seq![(ScoreTerm::ImageLink, if scrape_origin(v) is HackerNews { -5i32 } else { -10i32 })]
    } else {
        Seq::empty()
    }
}

/// The terms a scrape's own fields give: more than 100 comments earn 5 on Hacker News, Lobsters
/// and Slashdot; a Reddit story loses 20 for a link to Reddit itself and 5 for a title over 130
/// bytes, loses 20 under 10 upvotes and gains 10 over 10, and loses 5 under 10 comments and gains
/// 5 over 10.
pub open spec fn source_terms(v: TypedScrapeView) -> Seq<(ScoreTerm, i32)> {
    match v {
        TypedScrapeView::HackerNews(s) => if s.comments > 100 {
            seq![(ScoreTerm::CommentCount, 5i32)]
        } else {
            Seq::empty()
        },
        TypedScrapeView::Lobsters(s) => if s.num_comments > 100 {
            seq![(ScoreTerm::CommentCount, 5i32)]
        } else {
            Seq::empty()
        },
        TypedScrapeView::Slashdot(s) => if s.num_comments > 100 {
            seq![(ScoreTerm::CommentCount, 5i32)]
        } else {
            Seq::empty()
        },
        TypedScrapeView::Reddit(s) => {
            let self_link: Seq<(ScoreTerm, i32)> = if contains_seq(s.url.host, "reddit.com"@) {
                seq![(ScoreTerm::SelfLink, -20i32)]
            } else {
                Seq::empty()
            };
            let long_title: Seq<(ScoreTerm, i32)> = if utf8_len(s.title) > 130 {
                seq![(ScoreTerm::LongRedditTitle, -5i32)]
            } else {
                Seq::empty()
            };
            let upvotes: Seq<(ScoreTerm, i32)> = if s.upvotes < 10 {
                seq![(ScoreTerm::UpvoteCount, -20i32)]
            } else if s.upvotes > 10 {
                seq![(ScoreTerm::UpvoteCount, 10i32)]
            } else {
                Seq::empty()
            };
            let comments: Seq<(ScoreTerm, i32)> = if s.num_comments < 10 {
                seq![(ScoreTerm::CommentCount, -5i32)]
            } else if s.num_comments > 10 {
                seq![(ScoreTerm::CommentCount, 5i32)]
            } else {
                Seq::empty()
            };
            self_link + long_title + upvotes + comments
        },
        TypedScrapeView::Feed(_) => Seq::empty(),
    }
}

/// All the terms of a scrape, the image-link term first.
pub open spec fn score_terms_of(v: TypedScrapeView) -> Seq<(ScoreTerm, i32)> {
    image_terms(v) + source_terms(v)
}

fn host_contains(host: &Vec<char>, pat: &str) -> (r: bool)
    ensures
        r == contains_seq(host@, pat@),
{
    let p = chars_of(pat);
    contains(host.as_slice(), p.as_slice())
}

/// The terms of a scrape's score that its fields decide, in order, each with its weight.
pub fn score_terms(scrape: &TypedScrape) -> (r: Vec<(ScoreTerm, i32)>)
    ensures
        r@ == score_terms_of(scrape.view()),
{
    let ghost v = scrape.view();
    let host = chars_of(scrape.url().host());
    let mut r: Vec<(ScoreTerm, i32)> = Vec::new();
    if host_contains(&host, "gfycat") || host_contains(&host, "imgur") || host_contains(&host, "i.reddit.com") {
        if scrape.source() == ScrapeSource::HackerNews {
            r.push((ScoreTerm::ImageLink, -5));
        } else {
            r.push((ScoreTerm::ImageLink, -10));
        }
    }
    assert(r@ =~= image_terms(v));
    let ghost before = r@;
    match scrape {
        TypedScrape::HackerNews(s) => {
            if s.comments > 100 {
                r.push((ScoreTerm::CommentCount, 5));
            }
        },
        TypedScrape::Lobsters(s) => {
            if s.num_comments > 100 {
                r.push((ScoreTerm::CommentCount, 5));
            }
        },
        TypedScrape::Slashdot(s) => {
            if s.num_comments > 100 {
                r.push((ScoreTerm::CommentCount, 5));
            }
        },
        TypedScrape::Reddit(s) => {
            if host_contains(&host, "reddit.com") {
                r.push((ScoreTerm::SelfLink, -20));
            }
            if byte_len(s.title.as_str()) > 130 {
                r.push((ScoreTerm::LongRedditTitle, -5));
            }
            if s.upvotes < 10 {
                r.push((ScoreTerm::UpvoteCount, -20));
            } else if s.upvotes > 10 {
                r.push((ScoreTerm::UpvoteCount, 10));
            }
            if s.num_comments < 10 {
                r.push((ScoreTerm::CommentCount, -5));
            } else if s.num_comments > 10 {
                r.push((ScoreTerm::CommentCount, 5));
            }
        },
        TypedScrape::Feed(_) => {},
    }
    assert(r@ =~= before + source_terms(v));
    r
}

/// The comment count a scrape reports.
pub open spec fn comment_count(v: TypedScrapeView) -> int {
    match v {
        TypedScrapeView::HackerNews(s) => s.comments as int,
        TypedScrapeView::Lobsters(s) => s.num_comments as int,
        TypedScrapeView::Slashdot(s) => s.num_comments as int,
        TypedScrapeView::Reddit(s) => s.num_comments as int,
        TypedScrapeView::Feed(_) => 0,
    }
}

proof fn lemma_contains_add(a: Seq<(ScoreTerm, i32)>, b: Seq<(ScoreTerm, i32)>, x: (ScoreTerm, i32))
    ensures
        (a + b).contains(x) <==> (a.contains(x) || b.contains(x)),
{
    let t = a + b;
    if a.contains(x) {
        let k = choose|k: int| 0 <= k < a.len() && a[k] == x;
        assert(t[k] == x);
    }
    if b.contains(x) {
        let k = choose|k: int| 0 <= k < b.len() && b[k] == x;
        assert(t[a.len() + k] == x);
    }
    if t.contains(x) {
        let k = choose|k: int| 0 <= k < t.len() && t[k] == x;
        if k < a.len() {
            assert(a[k] == x);
        } else {
            assert(b[k - a.len()] == x);
        }
    }
}

proof fn lemma_image_terms_are_image_links(v: TypedScrapeView, x: (ScoreTerm, i32))
    ensures
        image_terms(v).contains(x) ==> x.0 == ScoreTerm::ImageLink,
{
    if image_terms(v).contains(x) {
        let k = choose|k: int| 0 <= k < image_terms(v).len() && image_terms(v)[k] == x;
    }
}

proof fn lemma_one(e: (ScoreTerm, i32), x: (ScoreTerm, i32))
    ensures
        seq![e].contains(x) <==> e == x,
        !Seq::<(ScoreTerm, i32)>::empty().contains(x),
{
    if e == x {
        assert(seq![e][0] == x);
    }
}

/// A story from Hacker News, Lobsters or Slashdot earns 5 for its comments exactly when it has more
/// than 100 of them, and gets no other comment term.
pub proof fn lemma_comment_term(v: TypedScrapeView, w: i32)
    requires
        v is HackerNews || v is Lobsters || v is Slashdot,
    ensures
        score_terms_of(v).contains((ScoreTerm::CommentCount, 5i32)) <==> comment_count(v) > 100,
        w != 5 ==> !score_terms_of(v).contains((ScoreTerm::CommentCount, w)),
{
    let x = (ScoreTerm::CommentCount, 5i32);
    let y = (ScoreTerm::CommentCount, w);
    lemma_contains_add(image_terms(v), source_terms(v), x);
    lemma_contains_add(image_terms(v), source_terms(v), y);
    lemma_image_terms_are_image_links(v, x);
    lemma_image_terms_are_image_links(v, y);
    lemma_one(x, x);
    lemma_one(x, y);
}

/// A link to a host containing `gfycat`, `imgur` or `i.reddit.com` loses 5 on Hacker News and 10
/// elsewhere; any other link gets no image-link term.
pub proof fn lemma_image_term(v: TypedScrapeView, w: i32)
    ensures
        score_terms_of(v).contains((ScoreTerm::ImageLink, w)) <==> ((contains_seq(scrape_url(v).host, "gfycat"@)
            || contains_seq(scrape_url(v).host, "imgur"@) || contains_seq(scrape_url(v).host, "i.reddit.com"@))
            && w == (if v is HackerNews { -5i32 } else { -10i32 })),
{
    let x = (ScoreTerm::ImageLink, w);
    lemma_contains_add(image_terms(v), source_terms(v), x);
    let a = (ScoreTerm::ImageLink, if v is HackerNews { -5i32 } else { -10i32 });
    lemma_one(a, x);
    let b = source_terms(v);
    if b.contains(x) {
        let k = choose|k: int| 0 <= k < b.len() && b[k] == x;
        match v {
            TypedScrapeView::Reddit(s) => {
                let p1: Seq<(ScoreTerm, i32)> = if contains_seq(s.url.host, "reddit.com"@) {
                    seq![(ScoreTerm::SelfLink, -20i32)]
                } else {
                    Seq::empty()
                };
                let p2: Seq<(ScoreTerm, i32)> = if utf8_len(s.title) > 130 {
                    seq![(ScoreTerm::LongRedditTitle, -5i32)]
                } else {
                    Seq::empty()
                };
                let p3: Seq<(ScoreTerm, i32)> = if s.upvotes < 10 {
                    seq![(ScoreTerm::UpvoteCount, -20i32)]
                } else if s.upvotes > 10 {
                    seq![(ScoreTerm::UpvoteCount, 10i32)]
                } else {
                    Seq::empty()
                };
                let p4: Seq<(ScoreTerm, i32)> = if s.num_comments < 10 {
                    seq![(ScoreTerm::CommentCount, -5i32)]
                } else if s.num_comments > 10 {
                    seq![(ScoreTerm::CommentCount, 5i32)]
                } else {
                    Seq::empty()
                };
                assert(b == p1 + p2 + p3 + p4);
                lemma_contains_add(p1 + p2 + p3, p4, x);
                lemma_contains_add(p1 + p2, p3, x);
                lemma_contains_add(p1, p2, x);
                lemma_one((ScoreTerm::SelfLink, -20i32), x);
                lemma_one((ScoreTerm::LongRedditTitle, -5i32), x);
                lemma_one((ScoreTerm::UpvoteCount, -20i32), x);
                lemma_one((ScoreTerm::UpvoteCount, 10i32), x);
                lemma_one((ScoreTerm::CommentCount, -5i32), x);
                lemma_one((ScoreTerm::CommentCount, 5i32), x);
            },
            _ => {},
        }
    }
}

proof fn lemma_reddit_term(v: TypedScrapeView, x: (ScoreTerm, i32))
    requires
        v is Reddit,
    ensures
        score_terms_of(v).contains(x) <==> ({
            let s = v->Reddit_0;
            ||| (x == (ScoreTerm::SelfLink, -20i32) && contains_seq(s.url.host, "reddit.com"@))
            ||| (x == (ScoreTerm::LongRedditTitle, -5i32) && utf8_len(s.title) > 130)
            ||| (x == (ScoreTerm::UpvoteCount, -20i32) && s.upvotes < 10)
            ||| (x == (ScoreTerm::UpvoteCount, 10i32) && s.upvotes > 10)
            ||| (x == (ScoreTerm::CommentCount, -5i32) && s.num_comments < 10)
            ||| (x == (ScoreTerm::CommentCount, 5i32) && s.num_comments > 10)
            ||| (x.0 == ScoreTerm::ImageLink && image_terms(v).contains(x))
        }),
{
    let s = v->Reddit_0;
    let p1: Seq<(ScoreTerm, i32)> = if contains_seq(s.url.host, "reddit.com"@) {
        seq![(ScoreTerm::SelfLink, -20i32)]
    } else {
        Seq::empty()
    };
    let p2: Seq<(ScoreTerm, i32)> = if utf8_len(s.title) > 130 {
        seq![(ScoreTerm::LongRedditTitle, -5i32)]
    } else {
        Seq::empty()
    };
    let p3: Seq<(ScoreTerm, i32)> = if s.upvotes < 10 {
        seq![(ScoreTerm::UpvoteCount, -20i32)]
    } else if s.upvotes > 10 {
        seq![(ScoreTerm::UpvoteCount, 10i32)]
    } else {
        Seq::empty()
    };
    let p4: Seq<(ScoreTerm, i32)> = if s.num_comments < 10 {
        seq![(ScoreTerm::CommentCount, -5i32)]
    } else if s.num_comments > 10 {
        seq![(ScoreTerm::CommentCount, 5i32)]
    } else {
        Seq::empty()
    };
    assert(source_terms(v) == p1 + p2 + p3 + p4);
    lemma_contains_add(image_terms(v), source_terms(v), x);
    lemma_image_terms_are_image_links(v, x);
    lemma_contains_add(p1 + p2 + p3, p4, x);
    lemma_contains_add(p1 + p2, p3, x);
    lemma_contains_add(p1, p2, x);
    lemma_one((ScoreTerm::SelfLink, -20i32), x);
    lemma_one((ScoreTerm::LongRedditTitle, -5i32), x);
    lemma_one((ScoreTerm::UpvoteCount, -20i32), x);
    lemma_one((ScoreTerm::UpvoteCount, 10i32), x);
    lemma_one((ScoreTerm::CommentCount, -5i32), x);
    lemma_one((ScoreTerm::CommentCount, 5i32), x);
}

/// The terms of a Reddit story: -20 for a link to a host containing `reddit.com`, -5 for a title
/// over 130 bytes, -20 for fewer than 10 upvotes and +10 for more than 10, -5 for fewer than 10
/// comments and +5 for more than 10; each exactly when its condition holds.
pub proof fn lemma_reddit_terms(v: TypedScrapeView)
    requires
        v is Reddit,
    ensures
        score_terms_of(v).contains((ScoreTerm::SelfLink, -20i32)) <==> contains_seq(v->Reddit_0.url.host, "reddit.com"@),
        score_terms_of(v).contains((ScoreTerm::LongRedditTitle, -5i32)) <==> utf8_len(v->Reddit_0.title) > 130,
        score_terms_of(v).contains((ScoreTerm::UpvoteCount, -20i32)) <==> v->Reddit_0.upvotes < 10,
        score_terms_of(v).contains((ScoreTerm::UpvoteCount, 10i32)) <==> v->Reddit_0.upvotes > 10,
        score_terms_of(v).contains((ScoreTerm::CommentCount, -5i32)) <==> v->Reddit_0.num_comments < 10,
        score_terms_of(v).contains((ScoreTerm::CommentCount, 5i32)) <==> v->Reddit_0.num_comments > 10,
{
    lemma_reddit_term(v, (ScoreTerm::SelfLink, -20i32));
    lemma_reddit_term(v, (ScoreTerm::LongRedditTitle, -5i32));
    lemma_reddit_term(v, (ScoreTerm::UpvoteCount, -20i32));
    lemma_reddit_term(v, (ScoreTerm::UpvoteCount, 10i32));
    lemma_reddit_term(v, (ScoreTerm::CommentCount, -5i32));
    lemma_reddit_term(v, (ScoreTerm::CommentCount, 5i32));
}

} // verus!
