//! Statistics accumulators and the float edge cases.

use mutable_buffer::bits::f64_lt;
use mutable_buffer::stats::ColumnSummary;
use mutable_buffer::stats::{extract_range, StatValues, Statistics, TableSummary, TimestampRange};

#[test]
fn nan_never_becomes_min_or_max() {
    let mut s: StatValues<u64> = StatValues::new();
    s.update_f64_bits(f64::NAN.to_bits());
    s.update_f64_bits(2.0f64.to_bits());
    assert_eq!(s.min.map(f64::from_bits), Some(2.0));
    assert_eq!(s.max.map(f64::from_bits), Some(2.0));
    assert_eq!(s.count, 2);
}

#[test]
fn float_stats_order_negative_and_zero() {
    let mut s: StatValues<u64> = StatValues::new();
    for v in [1.5f64, -3.25, 0.0, -0.0, 100.0] {
        s.update_f64_bits(v.to_bits());
    }
    assert_eq!(s.min.map(f64::from_bits), Some(-3.25));
    assert_eq!(s.max.map(f64::from_bits), Some(100.0));
    assert_eq!(s.count, 5);
}

#[test]
fn int_stats_track_min_max_count() {
    let mut s: StatValues<i64> = StatValues::new();
    for v in [5i64, -7, 12, -7, 0] {
        s.update(v);
    }
    assert_eq!(s.min, Some(-7));
    assert_eq!(s.max, Some(12));
    assert_eq!(s.count, 5);
}

#[test]
fn string_stats_order_bytewise() {
    let mut s: StatValues<String> = StatValues::new();
    for v in ["prod", "stage", "dev"] {
        s.update(v);
    }
    assert_eq!(s.min.as_deref(), Some("dev"));
    assert_eq!(s.max.as_deref(), Some("stage"));
    assert_eq!(s.count, 3);
}

#[test]
fn bool_stats_false_below_true() {
    let mut s: StatValues<bool> = StatValues::new();
    s.update(true);
    assert_eq!((s.min, s.max), (Some(true), Some(true)));
    s.update(false);
    assert_eq!((s.min, s.max), (Some(false), Some(true)));
    assert_eq!(s.count, 2);
}

#[test]
fn extract_range_needs_both_time_bounds() {
    let summary = TableSummary {
        name: "cpu".to_string(),
        columns: vec![ColumnSummary {
            name: "time".to_string(),
            influxdb_type: None,
            stats: Statistics::I64(StatValues {
                min: Some(10),
                max: Some(90),
                count: 4,
                distinct_count: None,
            }),
        }],
    };
    assert_eq!(
        extract_range(&summary),
        Some(TimestampRange::new(10, 90))
    );

    let open_ended = TableSummary {
        name: "cpu".to_string(),
        columns: vec![ColumnSummary {
            name: "time".to_string(),
            influxdb_type: None,
            stats: Statistics::I64(StatValues {
                min: Some(10),
                max: None,
                count: 4,
                distinct_count: None,
            }),
        }],
    };
    assert_eq!(extract_range(&open_ended), None);
    assert_eq!(extract_range(&TableSummary::new("cpu")), None);
}

#[test]
fn f64_bit_order_matches_float_order() {
    let pairs = [
        (-1.0f64, 1.0f64),
        (-2.0, -1.0),
        (0.5, 2.0),
        (f64::NEG_INFINITY, -1.0e308),
        (1.0e308, f64::INFINITY),
    ];
    for (a, b) in pairs {
        assert!(f64_lt(a.to_bits(), b.to_bits()));
        assert!(!f64_lt(b.to_bits(), a.to_bits()));
    }
    assert!(!f64_lt(0.0f64.to_bits(), (-0.0f64).to_bits()));
    assert!(!f64_lt((-0.0f64).to_bits(), 0.0f64.to_bits()));
}
