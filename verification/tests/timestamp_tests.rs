use chrono::{SecondsFormat, TimeZone, Utc};
use sfn_paw::timestamp::{parse_utc_date_time, Timestamp};

#[test]
fn parse_empty_text_means_no_bound() {
    assert_eq!(parse_utc_date_time("").unwrap(), None);
}

#[test]
fn parse_exact_epoch_values() {
    let t = parse_utc_date_time("1989-09-30 22:10:32 -03:00").unwrap().unwrap();
    assert_eq!(t.secs, 623207432);
    assert_eq!(t.nanos, 0);
    let epoch = parse_utc_date_time("1970-01-01 00:00:00 +00:00").unwrap().unwrap();
    assert_eq!(epoch.secs, 0);
    let shifted = parse_utc_date_time("1970-01-01 00:00:00 -03:00").unwrap().unwrap();
    assert_eq!(shifted.secs, 10800);
    let leap_day = parse_utc_date_time("2020-02-29 12:00:00 +00:00").unwrap().unwrap();
    assert_eq!(leap_day.secs, 1582977600);
}

#[test]
fn parse_matches_chrono() {
    let text = "1989-09-30 22:10:32 -03:00";
    let ours = parse_utc_date_time(text).unwrap().unwrap();
    let theirs = chrono::DateTime::parse_from_str(text, "%Y-%m-%d %H:%M:%S %z").unwrap();
    assert_eq!(ours.secs, theirs.timestamp());
}

#[test]
fn parse_rejects_malformed_text() {
    assert!(parse_utc_date_time("yesterday").is_err());
    assert!(parse_utc_date_time("1989-09-30").is_err());
    assert!(parse_utc_date_time("1989-09-30T22:10:32 -03:00").is_err());
    assert!(parse_utc_date_time("1989-13-30 22:10:32 -03:00").is_err());
    assert!(parse_utc_date_time("1989-09-31 22:10:32 -03:00").is_err());
    assert!(parse_utc_date_time("2019-02-29 00:00:00 +00:00").is_err());
    assert!(parse_utc_date_time("1989-09-30 24:00:00 -03:00").is_err());
    assert!(parse_utc_date_time("1989-09-30 22:10:32 *03:00").is_err());
    assert!(parse_utc_date_time("1989-09-30 22:10:32 -03:00 ").is_err());
}

#[test]
fn render_exact_text() {
    let t = Timestamp::from_secs(623207432);
    assert_eq!(t.to_rfc3339_utc().unwrap(), "1989-10-01T01:10:32Z");
    let epoch = Timestamp::from_secs(0);
    assert_eq!(epoch.to_rfc3339_utc().unwrap(), "1970-01-01T00:00:00Z");
    let before = Timestamp::from_secs(-1);
    assert_eq!(before.to_rfc3339_utc().unwrap(), "1969-12-31T23:59:59Z");
}

#[test]
fn render_matches_chrono() {
    for secs in [623207432i64, 0, -1, 1582977600, 86399, -719162 * 86400] {
        let ours = Timestamp::from_secs(secs).to_rfc3339_utc().unwrap();
        let theirs = Utc
            .timestamp_opt(secs, 0)
            .unwrap()
            .to_rfc3339_opts(SecondsFormat::Secs, true);
        assert_eq!(ours, theirs, "secs {}", secs);
    }
}

#[test]
fn render_refuses_years_outside_four_digits() {
    assert_eq!(Timestamp::from_secs(i64::MAX).to_rfc3339_utc(), None);
    assert_eq!(Timestamp::from_secs(i64::MIN).to_rfc3339_utc(), None);
}

#[test]
fn render_truncates_subseconds() {
    let t = Timestamp::new(623207432, 999_999_999).unwrap();
    assert_eq!(t.to_rfc3339_utc().unwrap(), "1989-10-01T01:10:32Z");
}

#[test]
fn parse_then_render_round_trip() {
    let t = parse_utc_date_time("1989-09-30 22:10:32 -03:00").unwrap().unwrap();
    let rendered = t.to_rfc3339_utc().unwrap();
    let back = parse_utc_date_time(&rendered.replace('T', " ").replace('Z', "+00:00"));
    // `1989-10-01T01:10:32Z` becomes `1989-10-01 01:10:32+00:00`: not the
    // window grammar (no blank before the offset), so rebuild it properly.
    assert!(back.is_err());
    let window_form = format!("{} {} +00:00", &rendered[0..10], &rendered[11..19]);
    let again = parse_utc_date_time(&window_form).unwrap().unwrap();
    assert_eq!(again.secs, t.secs);
}

#[test]
fn timestamp_rejects_overfull_nanos() {
    assert_eq!(Timestamp::new(0, 1_000_000_000), None);
    assert!(Timestamp::new(0, 999_999_999).is_some());
}
