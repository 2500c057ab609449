use std::time::Instant;
use transit_tracker::helpers::{elapsed_ms, whole_micros};

#[test]
fn whole_micros_scales_seconds() {
    assert_eq!(whole_micros(0, 0), 0);
    assert_eq!(whole_micros(2, 500_000), 2_500_000);
    assert_eq!(whole_micros(1, 999_999), 1_999_999);
}

#[test]
fn whole_micros_stops_at_the_largest_value() {
    assert_eq!(whole_micros(u64::MAX, 0), u64::MAX);
    assert_eq!(whole_micros(18_446_744_073_709, 551_615), u64::MAX);
    assert_eq!(whole_micros(18_446_744_073_709, 551_616), u64::MAX);
    assert_eq!(whole_micros(18_446_744_073_709, 551_614), u64::MAX - 1);
}

#[test]
fn elapsed_ms_counts_from_the_start() {
    let start = Instant::now();
    let first = elapsed_ms(&start);
    let second = elapsed_ms(&start);
    assert!(first <= second);
    assert!(second < 60_000_000);
}
