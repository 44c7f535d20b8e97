use chrono::{DateTime, UTC};
use wmts_service::clock::{read_time_labels, time_labels, TimeError, UtcFields};
use wmts_service::query::{parse_lowercased, QueryError, QueryParams};

fn fields(year: i32, month: u32, day: u32, hour: u32, minute: u32, second: u32, nanosecond: u32) -> UtcFields {
    UtcFields { year, month, day, hour, minute, second, nanosecond }
}

#[test]
fn time_labels_of_a_plain_instant() {
    let l = read_time_labels("2022-03-14T10:40:00Z").unwrap();
    assert_eq!(l.query_time, "2022-03-14T10:40:00");
    assert_eq!(l.directory, "20220314T104000");
}

#[test]
fn time_labels_are_in_utc() {
    let l = read_time_labels("2022-03-14T10:40:05+02:00").unwrap();
    assert_eq!(l.query_time, "2022-03-14T08:40:05");
    assert_eq!(l.directory, "20220314T084005");
}

#[test]
fn lowercased_time_separator_is_refused() {
    assert!(matches!(read_time_labels("2022-03-14t10:40:00z"), Err(TimeError::Unreadable)));
    assert!(read_time_labels("2022-03-14T10:40:00z").is_ok());
}

#[test]
fn unreadable_time_is_refused() {
    assert!(matches!(read_time_labels("yesterday"), Err(TimeError::Unreadable)));
    assert!(matches!(read_time_labels(""), Err(TimeError::Unreadable)));
}

#[test]
fn time_labels_pad_small_fields() {
    let l = time_labels(&fields(5, 1, 2, 3, 4, 5, 0));
    assert_eq!(l.query_time, "0005-01-02T03:04:05");
    assert_eq!(l.directory, "00050102T030405");
}

#[test]
fn time_labels_sign_years_outside_four_digits() {
    assert_eq!(time_labels(&fields(-1, 12, 31, 23, 59, 59, 0)).query_time, "-0001-12-31T23:59:59");
    assert_eq!(time_labels(&fields(10000, 1, 1, 0, 0, 0, 0)).directory, "+100000101T000000");
}

#[test]
fn time_labels_show_leap_second_as_sixty() {
    let l = time_labels(&fields(2016, 12, 31, 23, 59, 59, 1_500_000_000));
    assert_eq!(l.query_time, "2016-12-31T23:59:60");
}

#[test]
fn time_labels_match_chrono_formatting() {
    let dt: DateTime<UTC> = "0999-07-08T09:10:11Z".parse().unwrap();
    let l = read_time_labels("0999-07-08T09:10:11Z").unwrap();
    assert_eq!(l.query_time, dt.format("%Y-%m-%dT%H:%M:%S").to_string());
    assert_eq!(l.directory, dt.format("%Y%m%dT%H%M%S").to_string());
}

#[test]
fn query_params_look_up_names() {
    let q = QueryParams::parse("a=1&b=two").ok().unwrap();
    assert_eq!(q.get("a"), Some("1".to_string()));
    assert_eq!(q.get("b"), Some("two".to_string()));
    assert_eq!(q.get("c"), None);
}

#[test]
fn query_params_take_the_last_of_repeated_names() {
    let q = QueryParams::parse("a=1&a=2").ok().unwrap();
    assert_eq!(q.get("a"), Some("2".to_string()));
}

#[test]
fn query_params_decode_percent_escapes() {
    let q = QueryParams::parse("time=2022-03-14T10%3A40%3A00Z").ok().unwrap();
    assert_eq!(q.get("time"), Some("2022-03-14T10:40:00Z".to_string()));
}

#[test]
fn lowercased_query_reads_lowercase_names_and_values() {
    let q = parse_lowercased("Request=GetTile&LAYER=Snow").ok().unwrap();
    assert_eq!(q.get("request"), Some("gettile".to_string()));
    assert_eq!(q.get("layer"), Some("snow".to_string()));
    assert_eq!(q.get("Request"), None);
}

#[test]
fn unreadable_query_is_refused() {
    assert!(matches!(QueryParams::parse("a[b]=1"), Err(QueryError::Unreadable)));
}

#[test]
fn times_carried_past_chrono_ends_are_refused_before_converting() {
    assert!(matches!(read_time_labels("+262143-12-31T23:59:59-23:59"), Err(TimeError::BeyondRange)));
    assert!(matches!(read_time_labels("-262144-01-01T00:00:00+23:59"), Err(TimeError::BeyondRange)));
    assert!(matches!(read_time_labels("  +262143-12-31T23:00:00-01:00"), Err(TimeError::BeyondRange)));
    assert!(matches!(read_time_labels("+000262143-12-31T23:59:59-23:59"), Err(TimeError::BeyondRange)));
}

#[test]
fn times_on_chrono_end_years_are_read_when_they_stay_in_range() {
    let a = read_time_labels("-262144-06-01T00:00:00z").ok().unwrap();
    assert_eq!(a.directory, "-2621440601T000000");
    let b = read_time_labels("-262143-06-01T00:00:00Z").ok().unwrap();
    assert_eq!(b.query_time, "-262143-06-01T00:00:00");
    let c = read_time_labels("+262143-12-31T23:59:59+01:00").ok().unwrap();
    assert_eq!(c.query_time, "+262143-12-31T22:59:59");
    let d = read_time_labels("+262143-12-31T00:00:00-23:59").ok().unwrap();
    assert_eq!(d.query_time, "+262143-12-31T23:59:00");
    let e = read_time_labels("-262144-01-01T00:00:00-01:00").ok().unwrap();
    assert_eq!(e.query_time, "-262144-01-01T01:00:00");
}

#[test]
fn signed_years_inside_the_limits_are_read() {
    let l = read_time_labels("+262142-12-31T23:59:59-23:59").ok().unwrap();
    assert_eq!(l.query_time, "+262143-01-01T23:58:59");
    let m = read_time_labels("+10000-01-01T00:00:00Z").ok().unwrap();
    assert_eq!(m.directory, "+100000101T000000");
}
