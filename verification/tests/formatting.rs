use su::sizefmt::fmt_size;
use su::timefmt::received_time_text;
use su::num::{parse_unsigned_exec, decimal_exec};

fn float_size(bytes: u64) -> String {
    if bytes < 1024 {
        format!("{} B", bytes)
    } else if bytes < 1_048_576 {
        format!("{:.1} KB", bytes as f64 / 1024.0)
    } else if bytes < 1_073_741_824 {
        format!("{:.1} MB", bytes as f64 / 1_048_576.0)
    } else {
        format!("{:.2} GB", bytes as f64 / 1_073_741_824.0)
    }
}

#[test]
fn fmt_size_exact_values() {
    assert_eq!(fmt_size(0), "0 B");
    assert_eq!(fmt_size(1023), "1023 B");
    assert_eq!(fmt_size(1024), "1.0 KB");
    assert_eq!(fmt_size(1536), "1.5 KB");
    assert_eq!(fmt_size(1_048_575), "1024.0 KB");
    assert_eq!(fmt_size(1_048_576), "1.0 MB");
    assert_eq!(fmt_size(1_073_741_824), "1.00 GB");
    assert_eq!(fmt_size(1_610_612_736), "1.50 GB");
}

#[test]
fn fmt_size_ties_round_to_even() {
    // 1280 bytes = 1.25 KB exactly.
    assert_eq!(fmt_size(1280), float_size(1280));
    assert_eq!(fmt_size(1280 + 1024), float_size(1280 + 1024));
}

#[test]
fn fmt_size_agrees_with_float_formatting() {
    let mut b: u64 = 1;
    while b < u64::MAX / 3 {
        for d in [0u64, 1, 7, 511, 512, 513, 1023] {
            let v = b.saturating_add(d);
            assert_eq!(fmt_size(v), float_size(v), "bytes {}", v);
        }
        b = b * 3 + 1;
    }
    for v in [u64::MAX, u64::MAX - 1, (1u64 << 53) + 1, (1u64 << 53) - 1, (1u64 << 60) + 12345] {
        assert_eq!(fmt_size(v), float_size(v), "bytes {}", v);
    }
    for k in 0..5000u64 {
        let v = k * 257 + 1000;
        assert_eq!(fmt_size(v), float_size(v), "bytes {}", v);
    }
}

#[test]
fn received_time_at_epoch_and_leap_day() {
    // 1970-01-01 00:00 UTC is 08:00 in UTC+8.
    assert_eq!(received_time_text(0), "1970-01-01 08:00");
    // 2024-02-29 12:34:56 UTC.
    assert_eq!(received_time_text(1_709_210_096), "2024-02-29 20:34");
    // 2023-12-31 16:00 UTC is already 2024-01-01 in UTC+8.
    assert_eq!(received_time_text(1_704_038_400), "2024-01-01 00:00");
    // 2000-03-01 00:00 UTC+8 (a century leap year).
    assert_eq!(received_time_text(951_840_000), "2000-03-01 00:00");
}

#[test]
fn decimal_parse_roundtrip() {
    for n in [0u64, 7, 10, 65535, 65536, u64::MAX] {
        let d = decimal_exec(n);
        assert_eq!(parse_unsigned_exec(&d, u64::MAX), Some(n));
    }
    let c: Vec<char> = "+42".chars().collect();
    assert_eq!(parse_unsigned_exec(&c, u64::MAX), Some(42));
    let c: Vec<char> = "-1".chars().collect();
    assert_eq!(parse_unsigned_exec(&c, u64::MAX), None);
    let c: Vec<char> = "+".chars().collect();
    assert_eq!(parse_unsigned_exec(&c, u64::MAX), None);
    let c: Vec<char> = "".chars().collect();
    assert_eq!(parse_unsigned_exec(&c, u64::MAX), None);
    let c: Vec<char> = "18446744073709551616".chars().collect();
    assert_eq!(parse_unsigned_exec(&c, u64::MAX), None);
    let c: Vec<char> = "65536".chars().collect();
    assert_eq!(parse_unsigned_exec(&c, 65535), None);
}
