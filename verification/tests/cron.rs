use progscrape::cron::{Cron, CronConfig, CronInterval, CronJob};
use progscrape::date::StoryDate;

fn config() -> CronConfig {
    CronConfig {
        jobs: vec![
            ("scrape".to_owned(), CronJob { url: "/admin/cron/scrape".to_owned(), interval: (10, CronInterval::Minute) }),
            ("backup".to_owned(), CronJob { url: "/admin/cron/backup".to_owned(), interval: (1, CronInterval::Day) }),
        ],
    }
}

#[test]
fn cron_intervals_as_durations() {
    assert_eq!(2 * 86_400_000, CronInterval::Day.as_duration(2).num_milliseconds());
    assert_eq!(604_800_000, CronInterval::Week.as_duration(1).num_milliseconds());
    assert_eq!(3_600_000, CronInterval::Hour.as_duration(1).num_milliseconds());
    assert_eq!(120_000, CronInterval::Minute.as_duration(2).num_milliseconds());
    assert_eq!(5_000, CronInterval::Second.as_duration(5).num_milliseconds());
}

#[test]
fn cron_initialize_schedules_each_job_with_jitter() {
    let before = StoryDate::now();
    let cron = Cron::initialize(&config());
    let after = StoryDate::now();
    let tasks = cron.inspect();
    assert_eq!(2, tasks.len());
    assert_eq!("scrape", tasks[0].name);
    assert_eq!("/admin/cron/scrape", tasks[0].url);
    let ten_minutes = 600_000;
    let earliest = (tasks[0].next - before).num_milliseconds();
    let latest = (tasks[0].next - after).num_milliseconds();
    assert!(earliest >= ten_minutes, "{earliest}");
    assert!(latest < ten_minutes + ten_minutes / 5, "{latest}");
    assert_eq!("backup", tasks[1].name);
    let day = 86_400_000;
    assert!((tasks[1].next - before).num_milliseconds() >= day);
    assert!((tasks[1].next - after).num_milliseconds() < day + day / 5);
}

#[test]
fn cron_hands_out_tasks_scheduled_after_now_and_reschedules_them() {
    let config = config();
    let mut cron = Cron::initialize(&config);
    // Both tasks are scheduled after the present moment, so a tick hands both out.
    let ready = cron.tick(&config);
    assert_eq!(vec!["/admin/cron/scrape".to_owned(), "/admin/cron/backup".to_owned()], ready);
    assert_eq!(2, cron.inspect().len());
}

#[test]
fn cron_keeps_tasks_not_after_now() {
    let config = config();
    let mut cron = Cron::initialize(&config);
    let far = StoryDate::year_month_day(3000, 1, 1).expect("valid");
    let (ready, due) = cron.take_due(&config, far);
    assert!(ready.is_empty());
    assert!(due.is_empty());
    assert_eq!(2, cron.inspect().len());
    let past = StoryDate::year_month_day(2000, 1, 1).expect("valid");
    let (ready, due) = cron.take_due(&config, past);
    assert_eq!(2, ready.len());
    assert_eq!(2, due.len());
    assert!(cron.inspect().is_empty());
}

#[test]
fn cron_later_job_of_a_name_wins() {
    let config = CronConfig {
        jobs: vec![
            ("a".to_owned(), CronJob { url: "/one".to_owned(), interval: (1, CronInterval::Hour) }),
            ("a".to_owned(), CronJob { url: "/two".to_owned(), interval: (1, CronInterval::Hour) }),
        ],
    };
    let cron = Cron::initialize(&config);
    let tasks = cron.inspect();
    assert_eq!(1, tasks.len());
    assert_eq!("/two", tasks[0].url);
}
