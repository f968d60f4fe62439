use asset_momentum::fetch::{series_from_raw, RawPoint};
use asset_momentum::perf::{
    all_assets_daily_performance, daily_performance, daily_performance_by_date, point_performance,
    point_performance_by_date, value_is_zero, PerfError,
};
use asset_momentum::sync::SyncEngine;

const DAY1: i64 = 1577836800; // 2020-01-01
const DAY2: i64 = 1577923200; // 2020-01-02
const DAY3: i64 = 1578009600; // 2020-01-03

fn raw(points: &[(i64, f64)]) -> Vec<RawPoint> {
    points
        .iter()
        .map(|&(sec, v)| RawPoint { timestamp_ms: sec * 1000, value_bits: v.to_bits() })
        .collect()
}

fn engine_with_x() -> SyncEngine {
    let mut engine = SyncEngine::new(10, DAY1);
    engine.apply_fetch_success(
        &series_from_raw(
            &String::from("asset-x"),
            &String::from("price"),
            &raw(&[(DAY1, 100.0), (DAY2, 110.0), (DAY3, 120.0)]),
        ),
    );
    engine
}

/// Scenario: performance of X over day 1 to day 3 starts at 100 and ends
/// at 120 — an absolute change of 20 and a percentage change of 0.2.
#[test]
fn point_performance_over_three_days() {
    let engine = engine_with_x();
    let p = point_performance(
        &engine.registry,
        &engine.store,
        &String::from("asset-x"),
        &String::from("price"),
        DAY1,
        DAY3,
    )
    .unwrap();
    assert_eq!(p.slug, "asset-x");
    assert_eq!(p.start.timestamp_sec, DAY1);
    assert_eq!(p.end.timestamp_sec, DAY3);
    let start = f64::from_bits(p.start.value_bits);
    let end = f64::from_bits(p.end.value_bits);
    assert_eq!(start, 100.0);
    assert_eq!(end, 120.0);
    assert_eq!(end - start, 20.0);
    assert_eq!((end - start) / start, 0.2);
}

/// Scenario: day-to-day performance of X over day 1 to day 3 yields the
/// two consecutive pairs with changes of 10 each (10% and then about
/// 9.09%).
#[test]
fn daily_performance_over_three_days() {
    let engine = engine_with_x();
    let pairs = daily_performance(
        &engine.registry,
        &engine.store,
        &String::from("asset-x"),
        &String::from("price"),
        DAY1,
        DAY3,
    )
    .unwrap();
    assert_eq!(pairs.len(), 2);

    assert_eq!(pairs[0].start.timestamp_sec, DAY1);
    assert_eq!(pairs[0].end.timestamp_sec, DAY2);
    let s0 = f64::from_bits(pairs[0].start.value_bits);
    let e0 = f64::from_bits(pairs[0].end.value_bits);
    assert_eq!(e0 - s0, 10.0);
    assert_eq!((e0 - s0) / s0, 0.1);

    assert_eq!(pairs[1].start.timestamp_sec, DAY2);
    assert_eq!(pairs[1].end.timestamp_sec, DAY3);
    let s1 = f64::from_bits(pairs[1].start.value_bits);
    let e1 = f64::from_bits(pairs[1].end.value_bits);
    assert_eq!(e1 - s1, 10.0);
    let pct = (e1 - s1) / s1;
    assert!((pct - 0.0909).abs() < 0.0001);
}

/// Both window bounds are clamped into the asset's watermark range.
#[test]
fn window_is_clamped_to_watermark() {
    let engine = engine_with_x();
    let p = point_performance(
        &engine.registry,
        &engine.store,
        &String::from("asset-x"),
        &String::from("price"),
        DAY1 - 86400 * 30,
        DAY3 + 86400 * 30,
    )
    .unwrap();
    assert_eq!(p.start.timestamp_sec, DAY1);
    assert_eq!(p.end.timestamp_sec, DAY3);
}

/// An unregistered slug is `NotFound`; so is a hole at a window edge.
#[test]
fn not_found_cases() {
    let engine = engine_with_x();
    let missing = point_performance(
        &engine.registry,
        &engine.store,
        &String::from("asset-unknown"),
        &String::from("price"),
        DAY1,
        DAY3,
    );
    assert!(matches!(missing, Err(PerfError::NotFound)));

    // A registered asset with no stored point for the queried metric:
    // the boundary lookup finds nothing.
    let wrong_metric = point_performance(
        &engine.registry,
        &engine.store,
        &String::from("asset-x"),
        &String::from("volume"),
        DAY1,
        DAY3,
    );
    assert!(matches!(wrong_metric, Err(PerfError::NotFound)));
}

/// A zero start value cannot yield a percentage change: the request is
/// answered with `DivisionByZero`, not with an infinity.
#[test]
fn zero_start_is_division_by_zero() {
    let mut engine = SyncEngine::new(10, DAY1);
    engine.apply_fetch_success(
        &series_from_raw(
            &String::from("asset-x"),
            &String::from("price"),
            &raw(&[(DAY1, 0.0), (DAY2, 5.0)]),
        ),
    );
    let r = point_performance(
        &engine.registry,
        &engine.store,
        &String::from("asset-x"),
        &String::from("price"),
        DAY1,
        DAY2,
    );
    assert!(matches!(r, Err(PerfError::DivisionByZero)));
    assert!(value_is_zero(0.0f64.to_bits()));
    assert!(value_is_zero((-0.0f64).to_bits()));
    assert!(!value_is_zero(0.1f64.to_bits()));
}

/// A single-point window yields an empty pair sequence, not an error.
#[test]
fn single_point_window_is_empty() {
    let engine = engine_with_x();
    let pairs = daily_performance(
        &engine.registry,
        &engine.store,
        &String::from("asset-x"),
        &String::from("price"),
        DAY2,
        DAY2,
    )
    .unwrap();
    assert_eq!(pairs.len(), 0);
}

/// The date-string entry points agree with the second-based ones, and a
/// malformed date is a caller error.
#[test]
fn by_date_entry_points() {
    let engine = engine_with_x();
    let p = point_performance_by_date(
        &engine.registry,
        &engine.store,
        &String::from("asset-x"),
        &String::from("price"),
        &String::from("2020-01-01"),
        &String::from("2020-01-03"),
    )
    .unwrap();
    assert_eq!(p.start.timestamp_sec, DAY1);
    assert_eq!(p.end.timestamp_sec, DAY3);

    let pairs = daily_performance_by_date(
        &engine.registry,
        &engine.store,
        &String::from("asset-x"),
        &String::from("price"),
        &String::from("2020-01-01"),
        &String::from("2020-01-03"),
    )
    .unwrap();
    assert_eq!(pairs.len(), 2);

    let bad = point_performance_by_date(
        &engine.registry,
        &engine.store,
        &String::from("asset-x"),
        &String::from("price"),
        &String::from("2020-13-40"),
        &String::from("2020-01-03"),
    );
    assert!(matches!(bad, Err(PerfError::BadDate)));
}

/// The batch variant reports one entry per registered asset and never
/// fails as a whole.
#[test]
fn all_assets_batch() {
    let mut engine = engine_with_x();
    engine.apply_fetch_success(
        &series_from_raw(
            &String::from("asset-y"),
            &String::from("price"),
            &raw(&[(DAY1, 50.0), (DAY2, 55.0)]),
        ),
    );
    let results = all_assets_daily_performance(
        &engine.registry,
        &engine.store,
        &String::from("price"),
        DAY1,
        DAY3,
    );
    assert_eq!(results.len(), 2);
    assert_eq!(results[0].0, "asset-x");
    assert_eq!(results[0].1.as_ref().unwrap().len(), 2);
    assert_eq!(results[1].0, "asset-y");
    assert_eq!(results[1].1.as_ref().unwrap().len(), 1);
}
