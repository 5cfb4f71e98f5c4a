//! Backups of the scrape store, a shard at a time: the summary kept beside each backup, and
//! whether a shard needs writing again.
use vstd::prelude::*;

use crate::date::StoryDate;

verus! {

/// What a backed-up shard held: how many scrapes, and the dates of the earliest and the latest.
#[derive(Clone, Copy, Debug, PartialEq, Eq, Structural)]
pub struct ScrapeStoreStats {
    /// The backup format's version.
    pub version: usize,
    pub earliest: StoryDate,
    pub latest: StoryDate,
    pub count: usize,
}

/// What backing up a shard calls for.
#[derive(Clone, Copy, Debug, PartialEq, Eq, Structural)]
pub enum BackupPlan {
    /// The shard holds no scrape.
    Empty,
    /// The summary beside the last backup equals the shard's.
    NoChange,
    /// The scrapes are to be written out.
    Write,
}

/// The plan for a shard, given its summary and the summary kept beside its last backup, if one
/// could be read: nothing for an empty shard, nothing new where the summaries are equal, else a
/// fresh backup.
pub fn backup_plan(stats: &ScrapeStoreStats, stored: Option<ScrapeStoreStats>) -> (r: BackupPlan)
    ensures
        r == (if stats.count == 0 {
            BackupPlan::Empty
        } else if stored == Some(*stats) {
            BackupPlan::NoChange
        } else {
            BackupPlan::Write
        }),
{
    if stats.count == 0 {
        return BackupPlan::Empty;
    }
    match stored {
        Some(s) => {
            if s == *stats {
                BackupPlan::NoChange
            } else {
                BackupPlan::Write
            }
        },
        None => BackupPlan::Write,
    }
}

/// The summary of the scrapes of the given dates: their number, the earliest and the latest of
/// them. With no dates, the earliest is the latest date there is and the latest the earliest.
pub fn stats_of(dates: &Vec<StoryDate>) -> (r: ScrapeStoreStats)
    ensures
        r.version == 0,
        r.count == dates@.len(),
        forall|i: int| 0 <= i < dates@.len() ==> r.earliest.millis() <= (#[trigger] dates@[i]).millis(),
        forall|i: int| 0 <= i < dates@.len() ==> (#[trigger] dates@[i]).millis() <= r.latest.millis(),
        dates@.len() > 0 ==> exists|i: int| 0 <= i < dates@.len() && r.earliest == #[trigger] dates@[i],
        dates@.len() > 0 ==> exists|i: int| 0 <= i < dates@.len() && r.latest == #[trigger] dates@[i],
        dates@.len() == 0 ==> forall|d: StoryDate| d.valid() ==> d.millis() <= r.earliest.millis(),
        dates@.len() == 0 ==> forall|d: StoryDate| d.valid() ==> r.latest.millis() <= d.millis(),
{
    let mut earliest = StoryDate::latest_possible();
    let mut latest = StoryDate::earliest_possible();
    let mut i: usize = 0;
    while i < dates.len()
        invariant
            i <= dates@.len(),
            forall|j: int| 0 <= j < i ==> earliest.millis() <= (#[trigger] dates@[j]).millis(),
            forall|j: int| 0 <= j < i ==> (#[trigger] dates@[j]).millis() <= latest.millis(),
            i > 0 ==> exists|j: int| 0 <= j < i && earliest == #[trigger] dates@[j],
            i > 0 ==> exists|j: int| 0 <= j < i && latest == #[trigger] dates@[j],
            i == 0 ==> forall|d: StoryDate| d.valid() ==> d.millis() <= earliest.millis(),
            i == 0 ==> forall|d: StoryDate| d.valid() ==> latest.millis() <= d.millis(),
        decreases dates@.len() - i,
    {
        let d = dates[i];
        proof {
            use_type_invariant(&d);
        }
        if i == 0 || earliest.is_after(&d) {
            earliest = d;
        }
        if i == 0 || d.is_after(&latest) {
            latest = d;
        }
        i = i + 1;
    }
    ScrapeStoreStats { version: 0, earliest, latest, count: dates.len() }
}

} // verus!
