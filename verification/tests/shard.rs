use progscrape::shard::{Shard, ShardOrder, ShardRange, YearMonth};

#[test]
fn memindex_test_year_month() {
    let date = YearMonth::from_year_month(2000, 12);
    assert_eq!(YearMonth::from_year_month(2001, 1), date.plus_months(1));
    assert_eq!(YearMonth::from_year_month(2001, 12), date.plus_months(12));
    assert_eq!(YearMonth::from_year_month(1999, 12), date.sub_months(12));
    assert_eq!(YearMonth::from_year_month(2000, 1), date.sub_months(11));

    assert_eq!(
        date,
        YearMonth::from_string(&date.to_string()).expect("Failed to parse")
    );
}

#[test]
fn shard_test_year_month() {
    let date = Shard::from_year_month(2000, 12);
    assert_eq!(Shard::from_year_month(2001, 1), date.plus_months(1));
    assert_eq!(Shard::from_year_month(2001, 12), date.plus_months(12));
    assert_eq!(Shard::from_year_month(1999, 12), date.sub_months(12));
    assert_eq!(Shard::from_year_month(2000, 1), date.sub_months(11));

    assert_eq!(
        date,
        Shard::from_string(&date.to_string()).expect("Failed to parse")
    );
}

#[test]
fn test_shard_iterator() {
    let range = ShardRange::new_from(
        Shard::from_year_month(2000, 1)..=Shard::from_year_month(2000, 12),
    );
    assert_eq!(range.iterate(ShardOrder::OldestFirst).len(), 12);
    assert_eq!(range.iterate(ShardOrder::NewestFirst).len(), 12);

    let in_order = range.iterate(ShardOrder::OldestFirst);
    let mut rev_order = range.iterate(ShardOrder::NewestFirst);
    rev_order.reverse();

    assert_eq!(in_order, rev_order);
}

#[test]
fn shard_text_is_zero_padded_year_dash_month() {
    assert_eq!(Shard::from_year_month(2000, 1).to_string(), "2000-01");
    assert_eq!(Shard::from_year_month(2023, 11).to_string(), "2023-11");
    assert_eq!(Shard::from_year_month(5, 3).to_string(), "0005-03");
}

#[test]
fn shard_from_string_rejects_malformed_text() {
    assert_eq!(Shard::from_string("2000"), None);
    assert_eq!(Shard::from_string("2000-xx"), None);
    assert_eq!(Shard::from_string("abcd-01"), None);
    assert_eq!(Shard::from_string("2000-03"), Some(Shard::from_year_month(2000, 3)));
}

#[test]
fn shard_months_carry_across_years() {
    let s = Shard::from_year_month(2019, 11);
    assert_eq!(s.plus_months(3), Shard::from_year_month(2020, 2));
    assert_eq!(s.plus_months(3).sub_months(3), s);
    assert_eq!(s.plus_months(1).plus_months(2), s.plus_months(3));
    assert_eq!(Shard::default(), Shard::from_year_month(2000, 1));
}

#[test]
fn shard_range_widens_to_cover_included_shards() {
    let mut range = ShardRange::new();
    assert_eq!(range.iterate(ShardOrder::OldestFirst).len(), 0);
    range.include_shard(Shard::from_year_month(2001, 5));
    range.include_shard(Shard::from_year_month(2001, 2));
    let shards = range.iterate(ShardOrder::OldestFirst);
    assert_eq!(
        shards,
        vec![
            Shard::from_year_month(2001, 2),
            Shard::from_year_month(2001, 3),
            Shard::from_year_month(2001, 4),
            Shard::from_year_month(2001, 5),
        ]
    );
    assert_eq!(
        range.iterate(ShardOrder::NewestFirst)[0],
        Shard::from_year_month(2001, 5)
    );
}

#[test]
fn shard_of_a_date() {
    let date = progscrape::date::StoryDate::year_month_day(2023, 5, 10).expect("valid date");
    assert_eq!(Some(Shard::from_year_month(2023, 5)), Shard::try_from_date_time(date));
    assert_eq!(Shard::from_year_month(2023, 5), Shard::from_date_time(date));
    assert_eq!("2023-05", Shard::from_date_time(date).to_string());
}
