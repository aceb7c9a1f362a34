use news_ingest::dates::parse_time;
use news_ingest::dates::update_seconds;

#[test]
fn parses_midnight_utc_epoch_seconds() {
    assert_eq!(parse_time("2020-03-15"), Some(1584230400));
    assert_eq!(parse_time("1970-01-01"), Some(0));
    assert_eq!(parse_time("1970-01-02"), Some(86400));
    assert_eq!(parse_time("2000-01-01"), Some(946684800));
    assert_eq!(parse_time("2023-06-01"), Some(1685577600));
}

#[test]
fn dates_before_the_epoch_are_negative() {
    assert_eq!(parse_time("1969-12-31"), Some(-86400));
    assert_eq!(parse_time("1900-01-01"), Some(-2208988800));
}

#[test]
fn leap_years_are_respected() {
    assert_eq!(parse_time("2020-02-29"), Some(1582934400));
    assert_eq!(parse_time("2021-02-29"), None);
    assert_eq!(parse_time("2000-02-29"), Some(951782400));
    assert_eq!(parse_time("1900-02-29"), None);
}

#[test]
fn malformed_strings_are_rejected() {
    assert_eq!(parse_time("not-a-date"), None);
    assert_eq!(parse_time(""), None);
    assert_eq!(parse_time("2020-3-15"), None);
    assert_eq!(parse_time("2020/03/15"), None);
    assert_eq!(parse_time("2020-03-15 "), None);
    assert_eq!(parse_time("2020-13-01"), None);
    assert_eq!(parse_time("2020-00-10"), None);
    assert_eq!(parse_time("2020-04-31"), None);
    assert_eq!(parse_time("2020-04-00"), None);
}

#[test]
fn update_time_defaults_to_epoch_zero() {
    assert_eq!(update_seconds(&Some("2020-03-15".to_string())), 1584230400);
    assert_eq!(update_seconds(&Some("not-a-date".to_string())), 0);
    assert_eq!(update_seconds(&None), 0);
}
