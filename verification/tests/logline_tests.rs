use chrono::NaiveDate;
use hash256_miner::logline::{log_line, timestamp, LogTime};

fn chrono_text(y: i32, mo: u32, d: u32, h: u32, mi: u32, s: u32) -> String {
    NaiveDate::from_ymd_opt(y, mo, d)
        .unwrap()
        .and_hms_opt(h, mi, s)
        .unwrap()
        .format("%Y-%m-%d %H:%M:%S")
        .to_string()
}

#[test]
fn log_line_shape() {
    let t = LogTime { year: 2024, month: 3, day: 7, hour: 9, minute: 5, second: 0 };
    assert_eq!(log_line(&t, "Starting Hash256 GPU Miner..."), "[2024-03-07 09:05:00] Starting Hash256 GPU Miner...\n");
    assert_eq!(log_line(&t, ""), "[2024-03-07 09:05:00] \n");
    assert_eq!(log_line(&t, "✅ FOUND nonce: 42"), "[2024-03-07 09:05:00] ✅ FOUND nonce: 42\n");
}

#[test]
fn timestamp_like_chrono() {
    let cases = [
        (2024, 12, 31, 23, 59, 59),
        (1999, 1, 1, 0, 0, 0),
        (7, 6, 5, 4, 3, 2),
        (0, 1, 1, 0, 0, 0),
        (99, 10, 10, 10, 10, 10),
        (999, 2, 28, 12, 30, 45),
        (9999, 12, 31, 23, 59, 59),
        (10000, 1, 1, 0, 0, 0),
        (123456, 7, 8, 9, 10, 11),
        (-1, 1, 1, 0, 0, 0),
        (-44, 3, 15, 12, 0, 0),
        (-12345, 5, 5, 5, 5, 5),
    ];
    for (y, mo, d, h, mi, s) in cases {
        let t = LogTime { year: y, month: mo, day: d, hour: h, minute: mi, second: s };
        assert_eq!(timestamp(&t), chrono_text(y, mo, d, h, mi, s), "year {}", y);
    }
}

#[test]
fn timestamp_leap_second() {
    let t = LogTime { year: 2016, month: 12, day: 31, hour: 23, minute: 59, second: 60 };
    assert_eq!(timestamp(&t), "2016-12-31 23:59:60");
    let leap = NaiveDate::from_ymd_opt(2016, 12, 31)
        .unwrap()
        .and_hms_milli_opt(23, 59, 59, 1_500)
        .unwrap()
        .format("%Y-%m-%d %H:%M:%S")
        .to_string();
    assert_eq!(timestamp(&t), leap);
}
