use execmon::datetime::{parse_timestamp, DateTime};
use execmon::digits::{fmt_u32, parse_u32};

#[test]
fn numbers_render_in_decimal() {
    assert_eq!(fmt_u32(0), "0");
    assert_eq!(fmt_u32(7), "7");
    assert_eq!(fmt_u32(12345), "12345");
    assert_eq!(fmt_u32(u32::MAX), "4294967295");
}

#[test]
fn numbers_parse_exactly_the_in_range_digit_strings() {
    assert_eq!(parse_u32("0"), Some(0));
    assert_eq!(parse_u32("3925"), Some(3925));
    assert_eq!(parse_u32("4294967295"), Some(u32::MAX));
    assert_eq!(parse_u32("4294967296"), None);
    assert_eq!(parse_u32("99999999999"), None);
    assert_eq!(parse_u32(""), None);
    assert_eq!(parse_u32("12a"), None);
    assert_eq!(parse_u32("-1"), None);
    assert_eq!(parse_u32(" 1"), None);
}

#[test]
fn rendering_a_parsed_number_gives_the_digits_back() {
    for n in [0u32, 1, 9, 10, 99, 100, 65535, u32::MAX] {
        assert_eq!(parse_u32(&fmt_u32(n)), Some(n));
    }
}

#[test]
fn timestamps_parse_from_the_line_format() {
    assert_eq!(
        parse_timestamp("2025 Mar 16 13:42:53"),
        Some(DateTime { year: 2025, month: 3, day: 16, hour: 13, minute: 42, second: 53 })
    );
    assert_eq!(
        parse_timestamp("0001 Jan 01 00:00:00"),
        Some(DateTime { year: 1, month: 1, day: 1, hour: 0, minute: 0, second: 0 })
    );
    assert_eq!(
        parse_timestamp("9999 Dec 31 23:59:59"),
        Some(DateTime { year: 9999, month: 12, day: 31, hour: 23, minute: 59, second: 59 })
    );
}

#[test]
fn timestamps_reject_bad_shapes_and_ranges() {
    assert_eq!(parse_timestamp(""), None);
    assert_eq!(parse_timestamp("2025 Mar 16 13:42"), None);
    assert_eq!(parse_timestamp("2025-Mar-16 13:42:53"), None);
    assert_eq!(parse_timestamp("2025 Xyz 16 13:42:53"), None);
    assert_eq!(parse_timestamp("2025 Mar 00 13:42:53"), None);
    assert_eq!(parse_timestamp("2025 Mar 32 13:42:53"), None);
    assert_eq!(parse_timestamp("2025 Apr 31 13:42:53"), None);
    assert_eq!(parse_timestamp("2025 Mar 16 24:42:53"), None);
    assert_eq!(parse_timestamp("2025 Mar 16 13:60:53"), None);
    assert_eq!(parse_timestamp("2025 Mar 16 13:42:60"), None);
}

#[test]
fn leap_years_follow_the_gregorian_rule() {
    assert!(parse_timestamp("2024 Feb 29 00:00:00").is_some());
    assert!(parse_timestamp("2025 Feb 29 00:00:00").is_none());
    assert!(parse_timestamp("1900 Feb 29 00:00:00").is_none());
    assert!(parse_timestamp("2000 Feb 29 00:00:00").is_some());
}

#[test]
fn timestamps_render_zero_padded() {
    let d = DateTime { year: 33, month: 1, day: 2, hour: 3, minute: 4, second: 5 };
    assert_eq!(d.to_text(), "0033-01-02 03:04:05");
}

#[test]
fn timestamps_render_in_the_line_format() {
    let d = DateTime { year: 2025, month: 3, day: 16, hour: 13, minute: 42, second: 53 };
    assert_eq!(d.to_line_text(), "2025 Mar 16 13:42:53");
    let d = DateTime { year: 33, month: 12, day: 1, hour: 0, minute: 4, second: 5 };
    assert_eq!(d.to_line_text(), "0033 Dec 01 00:04:05");
}
