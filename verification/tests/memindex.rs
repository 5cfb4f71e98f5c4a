use progscrape::date::StoryDate;
use progscrape::hacker_news::HackerNewsStory;
use progscrape::lobsters::LobstersStory;
use progscrape::memindex::{
    group_scrapes, in_lookup_window, index_finish, index_step, BatchState, IndexAction, insert_action, lookup_id, lookup_window, InsertAction, MemIndex,
    ScrapeCollection, StoryDocRef, LOOKUP_WINDOW_SECS,
};
use progscrape::scrapers::TypedScrape;
use progscrape::url::StoryUrl;

const JAN_15_2024: i64 = 1_705_276_800_000;
const FEB_20_2024: i64 = 1_708_387_200_000;
const JUN_01_2024: i64 = 1_717_200_000_000;

fn hn(id: &str, url: &str, millis: i64) -> TypedScrape {
    TypedScrape::HackerNews(HackerNewsStory {
        title: "A story".to_owned(),
        url: StoryUrl::parse(url).unwrap(),
        id: id.to_owned(),
        points: 0,
        comments: 0,
        position: 0,
        date: StoryDate::from_millis(millis).unwrap(),
    })
}

fn lobsters(id: &str, url: &str, millis: i64) -> TypedScrape {
    TypedScrape::Lobsters(LobstersStory {
        id: id.to_owned(),
        title: "A story".to_owned(),
        url: StoryUrl::parse(url).unwrap(),
        num_comments: 0,
        position: 1,
        score: 0,
        date: StoryDate::from_millis(millis).unwrap(),
        tags: vec![],
    })
}

fn ids(c: &ScrapeCollection) -> Vec<String> {
    c.scrapes
        .iter()
        .map(|s| match s {
            TypedScrape::HackerNews(x) => x.id.clone(),
            TypedScrape::Lobsters(x) => x.id.clone(),
            TypedScrape::Slashdot(x) => x.id.clone(),
            TypedScrape::Reddit(x) => x.id.clone(),
            TypedScrape::Feed(x) => x.id.clone(),
        })
        .collect()
}

#[test]
fn scrapes_of_one_url_close_in_time_form_one_collection() {
    let groups = group_scrapes(vec![
        lobsters("abc", "https://example.com/a", FEB_20_2024),
        hn("1", "https://example.com/a", JAN_15_2024),
    ])
    .unwrap();
    assert_eq!(groups.len(), 1);
    assert_eq!(groups[0].scrapes.len(), 2);
    assert_eq!(groups[0].earliest.timestamp(), JAN_15_2024 / 1000);
}

#[test]
fn scrapes_of_different_urls_stay_apart() {
    let groups = group_scrapes(vec![
        hn("1", "https://example.com/a", JAN_15_2024),
        hn("2", "https://example.com/b", JAN_15_2024),
    ])
    .unwrap();
    assert_eq!(groups.len(), 2);
}

#[test]
fn scrapes_of_one_url_months_apart_stay_apart() {
    let groups = group_scrapes(vec![
        hn("1", "https://example.com/a", JAN_15_2024),
        hn("2", "https://example.com/a", JUN_01_2024),
    ])
    .unwrap();
    assert_eq!(groups.len(), 2);
    assert_eq!(groups[0].earliest.timestamp(), JAN_15_2024 / 1000);
    assert_eq!(groups[1].earliest.timestamp(), JUN_01_2024 / 1000);
}

#[test]
fn collections_come_out_oldest_shard_first() {
    let groups = group_scrapes(vec![
        hn("2", "https://example.com/b", JUN_01_2024),
        hn("1", "https://example.com/a", JAN_15_2024),
    ])
    .unwrap();
    assert_eq!(groups.len(), 2);
    assert_eq!(groups[0].earliest.timestamp(), JAN_15_2024 / 1000);
    assert_eq!(groups[1].earliest.timestamp(), JUN_01_2024 / 1000);
}

#[test]
fn a_scrape_id_seen_twice_is_kept_once_with_the_earlier_date() {
    let groups = group_scrapes(vec![
        hn("1", "https://example.com/a", FEB_20_2024),
        hn("1", "https://example.com/a", JAN_15_2024),
    ])
    .unwrap();
    assert_eq!(groups.len(), 1);
    assert_eq!(groups[0].scrapes.len(), 1);
    assert_eq!(groups[0].earliest.timestamp(), JAN_15_2024 / 1000);
}

#[test]
fn nothing_to_group_gives_no_collections() {
    assert_eq!(group_scrapes(vec![]).unwrap().len(), 0);
}

#[test]
fn the_index_collects_over_several_batches() {
    let mut index = MemIndex::new();
    assert!(index.insert_scrapes(vec![hn("1", "https://example.com/a", JAN_15_2024)]));
    assert!(index.insert_scrapes(vec![lobsters("abc", "https://example.com/a", FEB_20_2024)]));
    let stories = index.get_all_stories();
    assert_eq!(stories.len(), 1);
    assert_eq!(ids(&stories[0]), vec!["1".to_owned(), "abc".to_owned()]);
}

#[test]
fn merging_keeps_the_earliest_date_and_one_scrape_per_id() {
    let mut c = ScrapeCollection::new_from_one(hn("1", "https://example.com/a", FEB_20_2024));
    c.merge(lobsters("abc", "https://example.com/a", JAN_15_2024));
    c.merge(hn("1", "https://example.com/a", JUN_01_2024));
    assert_eq!(c.scrapes.len(), 2);
    assert_eq!(c.earliest.timestamp(), JAN_15_2024 / 1000);
}

#[test]
fn merging_a_whole_collection_merges_each_scrape() {
    let mut c = ScrapeCollection::new_from_one(hn("1", "https://example.com/a", FEB_20_2024));
    let mut other = ScrapeCollection::new_from_one(hn("1", "https://example.com/a", JUN_01_2024));
    other.merge(lobsters("abc", "https://example.com/a", JAN_15_2024));
    c.merge_all(other);
    assert_eq!(ids(&c), vec!["1".to_owned(), "abc".to_owned()]);
    assert_eq!(c.earliest.timestamp(), JAN_15_2024 / 1000);
}

#[test]
fn a_found_story_gets_the_scrape_ids() {
    let mut c = ScrapeCollection::new_from_one(hn("1", "https://example.com/a", JAN_15_2024));
    c.merge(lobsters("abc", "https://example.com/a", FEB_20_2024));
    let found = StoryDocRef { segment: 3, doc: 7 };
    match insert_action(Some(found), &c).unwrap() {
        InsertAction::AddScrapeIds(d, ids) => {
            assert_eq!(d, found);
            assert_eq!(ids, vec!["2024-01:hacker_news-1".to_owned(), "2024-02:lobsters-abc".to_owned()]);
        }
        InsertAction::InsertStory => panic!("expected the scrape ids to be added"),
    }
}

#[test]
fn an_unfound_story_is_inserted() {
    let c = ScrapeCollection::new_from_one(hn("1", "https://example.com/a", JAN_15_2024));
    assert!(matches!(insert_action(None, &c), Some(InsertAction::InsertStory)));
}

#[test]
fn the_lookup_window_is_thirty_days_each_way() {
    assert_eq!(LOOKUP_WINDOW_SECS, 30 * 24 * 60 * 60);
    assert_eq!(lookup_window(1_705_276_800), (1_702_684_800, 1_707_868_800));
    assert!(in_lookup_window(1_705_276_800, 1_702_684_800));
    assert!(!in_lookup_window(1_705_276_800, 1_707_868_800));
    assert!(in_lookup_window(1_705_276_800, 1_707_868_799));
    assert!(!in_lookup_window(1_705_276_800, 1_702_684_799));
}

#[test]
fn a_collection_is_looked_up_by_url_hash_and_earliest_second() {
    let mut c = ScrapeCollection::new_from_one(hn("1", "https://example.com/a", FEB_20_2024 + 999));
    c.merge(lobsters("abc", "https://example.com/a", JAN_15_2024 + 1_500));
    let expected_hash = StoryUrl::parse("https://example.com/a").unwrap().normalization().hash();
    let id = lookup_id(&c);
    assert_eq!(id.url_norm_hash, expected_hash);
    assert_eq!(id.date, JAN_15_2024 / 1000 + 1);
    assert_eq!(c.url().raw(), "https://example.com/a");
}

#[test]
fn a_scrape_seen_again_merges_into_the_one_kept() {
    let mut c = ScrapeCollection::new_from_one(hn("1", "https://example.com/a", FEB_20_2024));
    let mut again = hn("1", "https://example.com/a", JAN_15_2024);
    if let TypedScrape::HackerNews(s) = &mut again {
        s.points = 120;
        s.comments = 30;
    }
    c.merge(again);
    assert_eq!(c.scrapes.len(), 1);
    match &c.scrapes[0] {
        TypedScrape::HackerNews(s) => {
            assert_eq!(s.points, 120);
            assert_eq!(s.comments, 30);
            assert_eq!(s.date.timestamp(), JAN_15_2024 / 1000);
        }
        _ => panic!("expected a Hacker News scrape"),
    }
}

#[test]
fn indexing_stores_scrapes_over_the_limit_and_at_chunk_ends() {
    let mut c = ScrapeCollection::new_from_one(hn("1", "https://example.com/a", JAN_15_2024));
    c.merge(lobsters("abc", "https://example.com/a", FEB_20_2024));
    let (s, a) = index_step(BatchState::new(), &c);
    assert_eq!(s, BatchState { in_chunk: 1, pending: 2 });
    assert_eq!(a, IndexAction { store_over_limit: false, end_chunk: false });
    let (s, a) = index_step(BatchState { in_chunk: 5, pending: 999 }, &c);
    assert_eq!(s, BatchState { in_chunk: 6, pending: 0 });
    assert_eq!(a, IndexAction { store_over_limit: true, end_chunk: false });
    let (s, a) = index_step(BatchState { in_chunk: 5, pending: 998 }, &c);
    assert_eq!(s, BatchState { in_chunk: 6, pending: 1000 });
    assert!(!a.store_over_limit);
    let (s, a) = index_step(BatchState { in_chunk: 9999, pending: 10 }, &c);
    assert_eq!(s, BatchState { in_chunk: 0, pending: 0 });
    assert_eq!(a, IndexAction { store_over_limit: false, end_chunk: true });
    assert!(!index_finish(s));
    assert!(index_finish(BatchState { in_chunk: 3, pending: 0 }));
}
