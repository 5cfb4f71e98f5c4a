use progscrape::backup::{backup_plan, stats_of, BackupPlan, ScrapeStoreStats};
use progscrape::date::StoryDate;

fn date(millis: i64) -> StoryDate {
    StoryDate::from_millis(millis).unwrap()
}

fn stats(count: usize) -> ScrapeStoreStats {
    ScrapeStoreStats { version: 0, earliest: date(1_000), latest: date(5_000), count }
}

#[test]
fn an_empty_shard_needs_no_backup() {
    assert_eq!(backup_plan(&stats(0), None), BackupPlan::Empty);
    assert_eq!(backup_plan(&stats(0), Some(stats(3))), BackupPlan::Empty);
}

#[test]
fn an_unchanged_shard_needs_no_new_backup() {
    assert_eq!(backup_plan(&stats(3), Some(stats(3))), BackupPlan::NoChange);
}

#[test]
fn a_changed_or_unbacked_shard_is_written() {
    assert_eq!(backup_plan(&stats(3), Some(stats(2))), BackupPlan::Write);
    assert_eq!(backup_plan(&stats(3), None), BackupPlan::Write);
}

#[test]
fn stats_count_and_bound_the_dates() {
    let s = stats_of(&vec![date(3_000), date(1_000), date(5_000), date(2_000)]);
    assert_eq!(s, stats(4));
}

#[test]
fn stats_of_nothing_are_the_extreme_dates() {
    let s = stats_of(&vec![]);
    assert_eq!(s.count, 0);
    assert_eq!(s.earliest, StoryDate::latest_possible());
    assert_eq!(s.latest, StoryDate::earliest_possible());
    assert!(s.earliest.is_after(&s.latest));
}
