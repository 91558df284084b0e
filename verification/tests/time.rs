use catos_install::time::{from_timestamp, from_timestamp_utc, now, offset, parse_i32};

#[test]
fn plain_numbers_parse() {
    assert_eq!(parse_i32("0"), Some(0));
    assert_eq!(parse_i32("7200"), Some(7200));
    assert_eq!(parse_i32("-3600"), Some(-3600));
    assert_eq!(parse_i32("+5"), Some(5));
}

#[test]
fn range_limits_hold_exactly() {
    assert_eq!(parse_i32("2147483647"), Some(i32::MAX));
    assert_eq!(parse_i32("2147483648"), None);
    assert_eq!(parse_i32("-2147483648"), Some(i32::MIN));
    assert_eq!(parse_i32("-2147483649"), None);
    assert_eq!(parse_i32("99999999999999999999"), None);
}

#[test]
fn malformed_numbers_are_rejected() {
    assert_eq!(parse_i32(""), None);
    assert_eq!(parse_i32("+"), None);
    assert_eq!(parse_i32("-"), None);
    assert_eq!(parse_i32("--5"), None);
    assert_eq!(parse_i32(" 5"), None);
    assert_eq!(parse_i32("5 "), None);
    assert_eq!(parse_i32("12a"), None);
}

#[test]
fn offset_reads_the_zone_setting() {
    assert_eq!(offset(Some(&"3600".to_string())), 3600);
    assert_eq!(offset(Some(&"-7200".to_string())), -7200);
    assert_eq!(offset(Some(&"UTC".to_string())), 0);
    assert_eq!(offset(None), 0);
}

#[test]
fn timestamps_carry_the_selected_offset() {
    let d = from_timestamp_utc(1700000000);
    assert_eq!(d.unix_seconds, 1700000000);
    assert_eq!(d.offset_seconds, 0);

    let tz = "3600".to_string();
    let d = from_timestamp(1700000000, Some(&tz));
    assert_eq!(d.unix_seconds, 1700000000);
    assert_eq!(d.offset_seconds, 3600);

    let d = now(42, Some(&tz));
    assert_eq!(d.unix_seconds, 42);
    assert_eq!(d.offset_seconds, 3600);

    let d = now(42, None);
    assert_eq!(d.offset_seconds, 0);
}
