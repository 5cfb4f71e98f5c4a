use progscrape::filters::CommaFilter;
use progscrape::json::{Json, JsonNumber};

fn number(n: i64) -> Json {
    Json::Number(JsonNumber {
        as_u64: u64::try_from(n).ok(),
        as_i64: Some(n),
        as_f64_truncated: Some(n),
        text: n.to_string(),
        raw: serde_json::Number::from(n),
    })
}

#[test]
fn comma_filter_groups_thousands() {
    let f = CommaFilter::default();
    assert_eq!("1,234,567", f.filter(&number(1234567)));
    assert_eq!("999", f.filter(&number(999)));
    assert_eq!("1,000", f.filter(&number(1000)));
    assert_eq!("0", f.filter(&number(0)));
    assert_eq!("-1,234", f.filter(&number(-1234)));
    assert_eq!("-9,223,372,036,854,775,808", f.filter(&number(i64::MIN)));
}

#[test]
fn comma_filter_reads_other_values_as_zero() {
    let f = CommaFilter::default();
    assert_eq!("0", f.filter(&Json::Str("12".to_owned())));
    assert_eq!("0", f.filter(&Json::Null));
}
