use progscrape::date::{StoryDate, StoryDuration};
use progscrape::slashdot::SlashdotScraper;
use progscrape::story_id::StoryIdentifier;
use progscrape::url::StoryUrl;

#[test]
fn id_test_story_identifier() {
    let url = StoryUrl::parse("https://google.com/?q=foo").expect("Failed to parse URL");
    let id = StoryIdentifier::new(StoryDate::now(), url.normalization());
    let base64 = id.to_base64();
    assert_eq!(id, StoryIdentifier::from_base64(&base64).expect("Failed to decode ID"));
}

#[test]
fn mod_test_story_identifier() {
    let url = StoryUrl::parse("https://google.com/?q=foo").expect("Failed to parse URL");
    let id = StoryIdentifier::new(StoryDate::now(), url.normalization());
    let base64 = id.to_base64();
    assert_eq!(id, StoryIdentifier::from_base64(&base64).expect("Failed to decode ID"));
}

#[test]
fn test_parse_from_rfc3339_loose() {
    let actual_date = StoryDate::parse_from_rfc3339("2024-10-26T14:38:11Z").unwrap();
    for variations in ["2024-10-26T14:38:11", "2024-10-26T14:38:11ZZ", "2024-10-26 14:38:11"] {
        assert_eq!(
            StoryDate::parse_from_rfc3339_loose(variations),
            Some(actual_date),
            "{variations}"
        );
    }
}

#[test]
fn loose_parse_falls_back_to_midnight() {
    let midnight = StoryDate::year_month_day(2024, 10, 26).unwrap();
    assert_eq!(StoryDate::parse_from_rfc3339_loose("2024-10-26"), Some(midnight));
    assert_eq!(StoryDate::parse_from_rfc3339_loose("2024-10-26 junk"), Some(midnight));
    assert_eq!(StoryDate::parse_from_rfc3339_loose("not a date"), None);
}

#[test]
fn dates_have_calendar_parts() {
    let d = StoryDate::year_month_day(2000, 1, 2).expect("Date is valid");
    assert_eq!((d.year(), d.month(), d.day()), (2000, 1, 2));
    assert_eq!(d.timestamp(), 946771200);
    assert_eq!(StoryDate::from_seconds(946771200), Some(d));
    assert_eq!(StoryDate::year_month_day(2000, 2, 30), None);
    let before_epoch = StoryDate::from_millis(-1500).unwrap();
    assert_eq!(before_epoch.timestamp(), -2);
}

#[test]
fn identifiers_read_their_own_text() {
    let d = StoryDate::year_month_day(2023, 7, 4).unwrap();
    let url = StoryUrl::parse("https://example.com/a/b").unwrap();
    let id = StoryIdentifier::new(d, url.normalization());
    assert_eq!(id.to_string(), "2023:7:4:example.com:a:b:");
    assert!(id.matches_date(d));
    assert_eq!(id.shard().to_string(), "2023-07");
    assert_eq!(StoryIdentifier::from_base64("!!!"), None);
    let mut moved = id.clone();
    moved.update_date(StoryDate::year_month_day(2024, 1, 1).unwrap());
    assert_eq!(moved.to_string(), "2024:1:1:example.com:a:b:");
}

#[test]
fn test_date_parse() {
    for s in [
        "on Monday January 09, 2023 @08:25PM",
        "on Wednesday January 1, 2020 @11:00AM",
        "on Wednesday January 1, 2020 @12:00AM",
        "on Wednesday January 1, 2020 @12:30PM",
        "on January 1, 2020 @12:30PM",
    ] {
        SlashdotScraper::parse_time(s).expect("Expected this to parse");
    }
}

#[test]
fn slashdot_dates_read_as_utc() {
    let d = SlashdotScraper::parse_time("on Monday January 09, 2023 @08:25PM").unwrap();
    assert_eq!(d, StoryDate::parse_from_rfc3339("2023-01-09T20:25:00Z").unwrap());
    match SlashdotScraper::parse_time("on someday") {
        Err(e) => assert_eq!(e, "Failed to parse date: someday"),
        Ok(_) => panic!("not a date"),
    }
}

#[test]
fn dates_as_text() {
    let d = StoryDate::year_month_day(2000, 1, 1).expect("valid");
    assert_eq!("2000-01-01T00:00:00+00:00", d.to_rfc3339());
    assert_eq!("Sat, 1 Jan 2000 00:00:00 +0000", d.to_rfc2822());
    assert_eq!(Some("Sat, 1 Jan 2000 00:00:00 +0000".to_owned()), d.try_to_rfc2822());
    let far = StoryDate::year_month_day(12000, 1, 1).expect("valid");
    assert_eq!(None, far.try_to_rfc2822());
    assert_eq!(0, d.month0());
    assert_eq!(0, d.day0());
}

#[test]
fn date_arithmetic() {
    let d = StoryDate::year_month_day(2023, 3, 31).expect("valid");
    assert_eq!(StoryDate::year_month_day(2023, 2, 28), d.checked_sub_months(1));
    assert_eq!(StoryDate::year_month_day(2023, 4, 30), d.checked_add_months(1));
    assert_eq!(StoryDate::year_month_day(2023, 4, 2), d.checked_add_days(2));
    assert_eq!(StoryDate::year_month_day(2023, 3, 1), d.checked_sub_days(30));
    assert_eq!(None, d.checked_add_days(u64::MAX));
    let later = d.checked_add_days(3).expect("valid");
    let span = later - d;
    assert_eq!(3, span.num_days());
    assert_eq!(72, span.num_hours());
    assert_eq!(3 * 24 * 60, span.num_minutes());
    assert_eq!(3 * 86_400, span.num_seconds());
    assert_eq!(3 * 86_400_000, span.num_milliseconds());
    let back = d - later;
    assert_eq!(-3, back.num_days());
}

#[test]
fn durations_round_toward_zero() {
    assert_eq!(1, StoryDuration::milliseconds(1999).num_seconds());
    assert_eq!(-1, StoryDuration::milliseconds(-1999).num_seconds());
    assert_eq!(0, StoryDuration::hours(23).num_days());
    assert_eq!(14, StoryDuration::weeks(2).num_days());
    assert_eq!(90, StoryDuration::minutes(90).num_minutes());
    assert_eq!(86_400_000, StoryDuration::days(1).num_milliseconds());
    assert_eq!(5_000, StoryDuration::seconds(5).num_milliseconds());
}

#[test]
fn dates_move_by_durations() {
    let d = StoryDate::year_month_day(2023, 1, 9).expect("valid");
    let later = d.checked_add(StoryDuration::hours(36)).expect("valid");
    assert_eq!(StoryDate::year_month_day(2023, 1, 10).expect("valid").checked_add(StoryDuration::hours(12)), Some(later));
    assert_eq!(36, (later - d).num_hours());
    assert!(later.is_after(&d));
    assert!(!d.is_after(&later));
    assert_eq!(d, d.earliest(later));
    assert_eq!(d, later.earliest(d));
    assert_eq!(None, d.checked_add(StoryDuration::milliseconds(i64::MAX)));
}

#[test]
fn a_leap_second_past_the_last_date_is_no_date() {
    assert!(StoryDate::parse_from_rfc2822("Fri, 31 Dec 262142 23:59:60 +0000").is_none());
    assert!(StoryDate::from_string("262142-12-31 23:59:60", "%Y-%m-%d %H:%M:%S").is_none());
    let d = StoryDate::parse_from_rfc2822("Sat, 31 Dec 2016 23:59:60 +0000").unwrap();
    assert_eq!(d.timestamp(), 1_483_228_800);
}
