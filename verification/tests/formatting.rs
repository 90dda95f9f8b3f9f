//! Decimal numerals and relative-time wording.

use cursor_clip::decimal::u64_to_string;
use cursor_clip::timefmt::format_age;

#[test]
fn decimal_exact_values() {
    assert_eq!(u64_to_string(0), "0");
    assert_eq!(u64_to_string(7), "7");
    assert_eq!(u64_to_string(10), "10");
    assert_eq!(u64_to_string(205), "205");
    assert_eq!(u64_to_string(u64::MAX), "18446744073709551615");
}

#[test]
fn age_wording_exact_values() {
    assert_eq!(format_age(0), "Just now");
    assert_eq!(format_age(29), "Just now");
    assert_eq!(format_age(30), "0 minutes ago");
    assert_eq!(format_age(60), "1 minute ago");
    assert_eq!(format_age(61), "1 minute ago");
    assert_eq!(format_age(120), "2 minutes ago");
    assert_eq!(format_age(3599), "59 minutes ago");
    assert_eq!(format_age(3600), "1 hour ago");
    assert_eq!(format_age(7200), "2 hours ago");
    assert_eq!(format_age(86399), "23 hours ago");
    assert_eq!(format_age(86400), "1 day ago");
    assert_eq!(format_age(200 * 86400), "200 days ago");
}
