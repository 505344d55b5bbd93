use gutenberg::datetime::{format_rfc3339, from_unknown_datetime, parse_yaml_datetime, DateTime};

fn dt(
    year: u32,
    month: u8,
    day: u8,
    hour: u8,
    minute: u8,
    second: u8,
    nanosecond: u32,
    offset_minutes: i32,
) -> DateTime {
    DateTime { year, month, day, hour, minute, second, nanosecond, offset_minutes }
}

#[test]
fn yaml_spec_examples_pass() {
    let canonical = "2001-12-15T02:59:43.1Z";
    let valid_iso8601 = "2001-12-14t21:59:43.10-05:00";
    let space_separated = "2001-12-14 21:59:43.10 -5";
    let no_time_zone = "2001-12-15 2:59:43.10";
    let date = "2002-12-14";
    assert_eq!(
        parse_yaml_datetime(canonical).unwrap(),
        dt(2001, 12, 15, 2, 59, 43, 100000000, 0)
    );
    assert_eq!(
        parse_yaml_datetime(valid_iso8601).unwrap(),
        dt(2001, 12, 14, 21, 59, 43, 100000000, -300)
    );
    assert_eq!(
        parse_yaml_datetime(space_separated).unwrap(),
        dt(2001, 12, 14, 21, 59, 43, 100000000, -300)
    );
    assert_eq!(
        parse_yaml_datetime(no_time_zone).unwrap(),
        dt(2001, 12, 15, 2, 59, 43, 100000000, 0)
    );
    assert_eq!(parse_yaml_datetime(date).unwrap(), dt(2002, 12, 14, 0, 0, 0, 0, 0));
}

#[test]
fn yaml_spec_invalid_dates_fail() {
    let invalid_month = "2001-13-15";
    assert!(parse_yaml_datetime(invalid_month).is_err());

    let invalid_month = "2001-13-15T02:59:43.1Z";
    assert!(parse_yaml_datetime(invalid_month).is_err());

    let no_digits_in_year = "xxxx-12-15";
    assert!(parse_yaml_datetime(no_digits_in_year).is_err());

    let no_digits_in_year = "xxxx-12-15T02:59:43.1Z";
    assert!(parse_yaml_datetime(no_digits_in_year).is_err());

    let no_digits_in_month = "2001-xx-15";
    assert!(parse_yaml_datetime(no_digits_in_month).is_err());

    let no_digits_in_month = "2001-xx-15T02:59:43.1Z";
    assert!(parse_yaml_datetime(no_digits_in_month).is_err());

    let no_digits_in_day = "2001-12-xx";
    assert!(parse_yaml_datetime(no_digits_in_day).is_err());

    let no_digits_in_day = "2001-12-xx:59:43.1Z";
    assert!(parse_yaml_datetime(no_digits_in_day).is_err());

    let unparseable_time = "2001-12-15:69:43.1Z";
    assert!(parse_yaml_datetime(unparseable_time).is_err());

    let unparseable_time = "2001-12-15:59:4x.1Z";
    assert!(parse_yaml_datetime(unparseable_time).is_err());
}

#[test]
fn leap_years_bound_the_days() {
    assert!(parse_yaml_datetime("2000-02-29").is_ok());
    assert!(parse_yaml_datetime("2001-02-29").is_err());
    assert!(parse_yaml_datetime("1900-02-29").is_err());
    assert!(parse_yaml_datetime("2001-04-31").is_err());
}

#[test]
fn normalizes_to_rfc3339() {
    assert_eq!(
        from_unknown_datetime("2001-12-14 21:59:43.10 -5").unwrap(),
        "2001-12-14T21:59:43.100000000-05:00"
    );
    assert_eq!(from_unknown_datetime("2002-12-14").unwrap(), "2002-12-14T00:00:00Z");
    assert!(from_unknown_datetime("not a date").is_err());
}

#[test]
fn epoch_seconds_orders_instants() {
    let a = parse_yaml_datetime("1970-01-01").unwrap();
    assert_eq!(a.epoch_seconds(), 0);
    let b = parse_yaml_datetime("1970-01-02").unwrap();
    assert_eq!(b.epoch_seconds(), 86400);
    let c = parse_yaml_datetime("1970-01-01T01:00:00+01:00").unwrap();
    assert_eq!(c.epoch_seconds(), 0);
    assert!(a.before(&b));
    assert!(!b.before(&a));
    assert!(!a.before(&c));
    let rfc = format_rfc3339(&c);
    assert_eq!(rfc, "1970-01-01T01:00:00+01:00");
}
