use secure_vault::display::{format_size, format_timestamp, format_timestamp_at, u64_to_decimal};

fn float_reference(bytes: u64) -> String {
    const UNITS: &[&str] = &["B", "KB", "MB", "GB"];
    let mut size = bytes as f64;
    let mut unit_idx = 0;
    while size >= 1024.0 && unit_idx < UNITS.len() - 1 {
        size /= 1024.0;
        unit_idx += 1;
    }
    format!("{:.2} {}", size, UNITS[unit_idx])
}

#[test]
fn sizes_match_the_floating_point_formatting() {
    let mut cases: Vec<u64> = vec![
        0, 1, 999, 1023, 1024, 1025, 1152, 1536, 1_048_575, 1_048_576, 1_073_741_823,
        1_073_741_824, 5_368_709_120, (1 << 53) - 1, 1 << 53, (1 << 53) + 1, (1 << 53) + 3,
        u64::MAX, u64::MAX - 1024, 123_456_789_012_345,
    ];
    let mut x: u64 = 0x9e37_79b9_7f4a_7c15;
    for _ in 0..2000 {
        x ^= x << 13;
        x ^= x >> 7;
        x ^= x << 17;
        cases.push(x >> (x % 64));
        cases.push(x % 5_000_000);
    }
    for k in 1..=30u64 {
        cases.push(1024 + 128 * k);
        cases.push((1 << 20) * k + (1 << 17));
    }
    for b in cases {
        assert_eq!(format_size(b), float_reference(b), "bytes = {}", b);
    }
}

#[test]
fn sizes_exact_values() {
    assert_eq!(format_size(0), "0.00 B");
    assert_eq!(format_size(1536), "1.50 KB");
    assert_eq!(format_size(1_048_576), "1.00 MB");
    assert_eq!(format_size(3 * 1_073_741_824), "3.00 GB");
}

#[test]
fn decimal_digits() {
    assert_eq!(u64_to_decimal(0), "0");
    assert_eq!(u64_to_decimal(907), "907");
    assert_eq!(u64_to_decimal(u64::MAX), u64::MAX.to_string());
}

#[test]
fn timestamps_relative_to_a_given_clock() {
    let now = Some((1_000_000u64, 500u32));
    assert_eq!(format_timestamp_at(1_000_000 - 59, now), "59 seconds ago");
    assert_eq!(format_timestamp_at(1_000_000 - 60, now), "1 minutes ago");
    assert_eq!(format_timestamp_at(1_000_000 - 3599, now), "59 minutes ago");
    assert_eq!(format_timestamp_at(1_000_000 - 3600, now), "1 hours ago");
    assert_eq!(format_timestamp_at(1_000_000 - 86_399, now), "23 hours ago");
    assert_eq!(format_timestamp_at(1_000_000 - 86_400 * 3, now), "3 days ago");
    assert_eq!(format_timestamp_at(1_000_000, now), "0 seconds ago");
    assert_eq!(format_timestamp_at(1_000_000, Some((1_000_000, 0))), "1000000 seconds from now");
    assert_eq!(format_timestamp_at(1_000_001, now), "1000001 seconds from now");
    assert_eq!(format_timestamp_at(5, None), "5 seconds from now");
}

#[test]
fn timestamps_relative_to_the_clock() {
    assert_eq!(format_timestamp(0).split(' ').nth(1), Some("days"));
    assert!(format_timestamp(4_000_000_000_000).ends_with("seconds from now"));
}
