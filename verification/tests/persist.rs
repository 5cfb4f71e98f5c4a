use progscrape::persist::{
    BackerUpper, BackupResult, PersistLocation, ScrapePersistResult, ScrapePersistResultSummarizer,
    ScrapePersistResultSummary, ShardSummary,
};

#[test]
fn summaries_count_each_outcome() {
    let results = vec![
        ScrapePersistResult::NewStory,
        ScrapePersistResult::NewStory,
        ScrapePersistResult::MergedWithExistingStory,
        ScrapePersistResult::NotFound,
    ];
    let s = results.summary();
    assert_eq!(s, ScrapePersistResultSummary { merged: 1, existing: 0, new: 2, not_found: 1 });
    let mut total = ScrapePersistResultSummary::default();
    total.add_assign(s);
    total.add_assign(vec![ScrapePersistResult::AlreadyPartOfExistingStory].summary());
    assert_eq!(total, ScrapePersistResultSummary { merged: 1, existing: 1, new: 2, not_found: 1 });
    assert_eq!(ShardSummary::default(), ShardSummary { story_count: 0, scrape_count: 0 });
}

#[test]
fn locations_join_paths() {
    match PersistLocation::Memory.join("index") {
        PersistLocation::Memory => {}
        _ => panic!("memory stays memory"),
    }
    match PersistLocation::Path("/tmp/data".to_owned()).join("index") {
        PersistLocation::Path(p) => assert_eq!(p, "/tmp/data/index"),
        _ => panic!("a path stays a path"),
    }
    assert_eq!(BackerUpper::new("/tmp/backup").path, "/tmp/backup");
    assert_ne!(BackupResult::Success(1), BackupResult::Empty);
}

#[test]
fn joining_onto_a_trailing_slash_adds_no_separator() {
    match PersistLocation::Path("/tmp/data/".to_owned()).join("index") {
        PersistLocation::Path(p) => assert_eq!(p, "/tmp/data/index"),
        _ => panic!("a path stays a path"),
    }
    match PersistLocation::Path(String::new()).join("index") {
        PersistLocation::Path(p) => assert_eq!(p, "index"),
        _ => panic!("a path stays a path"),
    }
}
