use std::time::Duration;

use lib::bench::{csv_header, median_duration, BenchmarkMode, BenchmarkResult, MEASURED_SAMPLES};

#[test]
fn median_duration_returns_the_middle_sorted_sample() {
    let median = median_duration(vec![
        Duration::from_micros(90).as_nanos(),
        Duration::from_micros(10).as_nanos(),
        Duration::from_micros(50).as_nanos(),
        Duration::from_micros(30).as_nanos(),
        Duration::from_micros(70).as_nanos(),
    ]);

    assert_eq!(median, Duration::from_micros(50).as_nanos());
}

#[test]
fn csv_rows_include_the_documented_header_and_mode() {
    let result = BenchmarkResult {
        name: "page-startup".into(),
        mode: BenchmarkMode::Cold,
        iterations: 1,
        median_elapsed: Duration::from_micros(42).as_nanos(),
        console_values: 1,
    };

    assert_eq!(
        csv_header(),
        "name,mode,iterations,median_elapsed_micros,console_values"
    );
    assert_eq!(result.csv_row(), "page-startup,cold,1,42,1");
}

#[test]
fn median_of_an_even_count_is_the_upper_middle() {
    assert_eq!(median_duration(vec![4, 1, 3, 2]), 3);
    assert_eq!(median_duration(vec![7]), 7);
    assert_eq!(median_duration(vec![5, 5, 1]), 5);
}

#[test]
fn csv_rows_truncate_to_whole_microseconds() {
    let result = BenchmarkResult {
        name: "prepared-handler-dispatch".into(),
        mode: BenchmarkMode::WarmHandler,
        iterations: 120,
        median_elapsed: 1_999,
        console_values: 0,
    };

    assert_eq!(result.csv_row(), "prepared-handler-dispatch,warm-handler,120,1,0");
    assert_eq!(BenchmarkMode::WarmEntry.as_str(), "warm-entry");
    assert_eq!(MEASURED_SAMPLES, 5);
}
