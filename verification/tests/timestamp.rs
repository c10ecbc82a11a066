use mscfb::in_bytes::InBytes;
use mscfb::timestamp::{days_to_date, is_leap_year, Timestamp};

#[test]
fn from_filetime() {
    let bytes = [0x00, 0x9C, 0xD5, 0xC2, 0x03, 0xE4, 0xA5, 0x01];
    assert_eq!(
        Timestamp::from_filetime(&bytes),
        Timestamp {
            year: 1977,
            month: 4,
            day: 24,
            hour: 1,
            minute: 30,
            second: 0
        }
    );
}

#[test]
fn timestamp_to_string() {
    assert_eq!(
        "2026-08-30T17:02:34Z",
        Timestamp {
            year: 2026,
            month: 08,
            day: 30,
            hour: 17,
            minute: 02,
            second: 34,
        }
        .to_debug_string(),
    );
}

#[test]
fn zero_filetime_is_no_time() {
    let t = Timestamp::from_filetime(&[0; 8]);
    assert_eq!(t, Timestamp::default());
    assert!(t.is_zero());
    assert_eq!(t.to_debug_string(), "(zero)");
    assert_eq!(t.to_display_string(), "0000-??? ?? 00:00");
}

#[test]
fn first_interval_is_the_epoch() {
    let t = Timestamp::from_filetime(&[1, 0, 0, 0, 0, 0, 0, 0]);
    assert_eq!(
        t,
        Timestamp { year: 1601, month: 1, day: 1, hour: 0, minute: 0, second: 0 }
    );
    assert_eq!(t.to_debug_string(), "1601-01-01T00:00:00Z");
}

#[test]
fn largest_filetime() {
    let t = Timestamp::from_filetime(&[0xFF; 8]);
    assert_eq!(t.to_debug_string(), "60056-05-28T05:36:10Z");
}

#[test]
fn display_text() {
    let t = Timestamp { year: 977, month: 4, day: 4, hour: 1, minute: 5, second: 9 };
    assert_eq!(t.to_display_string(), " 977-Apr  4 01:05");
    let t = Timestamp { year: 2024, month: 13, day: 31, hour: 23, minute: 59, second: 0 };
    assert_eq!(t.to_display_string(), "2024-??? 31 23:59");
}

#[test]
fn leap_years() {
    assert!(is_leap_year(2000));
    assert!(is_leap_year(2024));
    assert!(!is_leap_year(1900));
    assert!(!is_leap_year(2023));
}

#[test]
fn days_to_dates() {
    assert_eq!(days_to_date(0), (1601, 1, 1));
    assert_eq!(days_to_date(364), (1601, 12, 31));
    assert_eq!(days_to_date(365), (1602, 1, 1));
    // 1604 is a leap year: 3 * 365 days to 1604-01-01, then 31 + 28 to 02-29.
    assert_eq!(days_to_date(3 * 365 + 59), (1604, 2, 29));
    assert_eq!(days_to_date(3 * 365 + 60), (1604, 3, 1));
    assert_eq!(days_to_date(3_000_000), (9814, 9, 22));
}

#[test]
fn in_bytes_text() {
    assert_eq!(InBytes(42).to_debug_string(), "42 bytes");
    assert_eq!(InBytes::from(0).to_debug_string(), "0 bytes");
}
