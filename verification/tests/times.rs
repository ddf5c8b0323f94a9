use portalkeeper::clock::{civil_from_days, human_duration, utc_timestamp};
use portalkeeper::logging::{init, log_line, rotation_due, rotation_start, stamp_from, timestamp};
use portalkeeper::number::{decimal_text, padded_text, parse_number};

#[test]
fn dates() {
    assert_eq!(civil_from_days(0), (1970, 1, 1));
    assert_eq!(civil_from_days(-1), (1969, 12, 31));
    assert_eq!(civil_from_days(11016), (2000, 2, 29));
    assert_eq!(civil_from_days(11017), (2000, 3, 1));
    assert_eq!(civil_from_days(19782), (2024, 2, 29));
    assert_eq!(civil_from_days(-719468), (0, 3, 1));
}

#[test]
fn stamps() {
    assert_eq!(utc_timestamp(0), "1970-01-01 00:00:00");
    assert_eq!(utc_timestamp(1_704_164_645), "2024-01-02 03:04:05");
    assert_eq!(utc_timestamp(253_402_300_800), "10000-01-01 00:00:00");
}

#[test]
fn local_time_comes_first() {
    assert_eq!(timestamp(Some(b" 2024-05-06 07:08:09\n"), 0), "2024-05-06 07:08:09");
    assert_eq!(timestamp(Some(b"a\xff"), 0), "a\u{fffd}");
    assert_eq!(timestamp(Some(b" \n"), 0), "1970-01-01 00:00:00");
    assert_eq!(timestamp(None, 60), "1970-01-01 00:01:00");
    assert_eq!(stamp_from("", 1), "1970-01-01 00:00:01");
}

#[test]
fn durations() {
    assert_eq!(human_duration(0), "0s");
    assert_eq!(human_duration(59), "59s");
    assert_eq!(human_duration(3600), "1h");
    assert_eq!(human_duration(86_400 + 60), "1d 1m");
    assert_eq!(human_duration(2 * 86_400 + 3 * 3600 + 4 * 60 + 5), "2d 3h 4m 5s");
}

#[test]
fn log_lines() {
    assert_eq!(log_line("t", "消息"), "[t] 消息");
}

#[test]
fn rotation() {
    let log = init("/tmp/x.log", 10);
    assert_eq!((log.path.as_str(), log.max_bytes), ("/tmp/x.log", 10));
    assert!(!rotation_due(&log, 9));
    assert!(rotation_due(&log, 10));
    assert_eq!(rotation_start(b"aaaa\nbbb\ncc\n"), 9);
    assert_eq!(rotation_start(b"abcdef"), 3);
    assert_eq!(rotation_start(b""), 0);
    assert_eq!(rotation_start(b"ab\n"), 3);
}

#[test]
fn numbers() {
    assert_eq!(decimal_text(0), "0");
    assert_eq!(decimal_text(u64::MAX), "18446744073709551615");
    assert_eq!(padded_text(7, 2), "07");
    assert_eq!(padded_text(123, 2), "123");
    assert_eq!(parse_number("18446744073709551615", 10, u64::MAX), Some(u64::MAX));
    assert_eq!(parse_number("18446744073709551616", 10, u64::MAX), None);
    assert_eq!(parse_number("+12", 10, 100), Some(12));
    assert_eq!(parse_number("+", 10, 100), None);
    assert_eq!(parse_number("-1", 10, 100), None);
    assert_eq!(parse_number("fF", 16, 255), Some(255));
    assert_eq!(parse_number("101", 10, 100), None);
}
