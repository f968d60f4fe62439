use asset_momentum::fetch::{series_from_raw, RawPoint};
use asset_momentum::sync::SyncEngine;

const DAY1: i64 = 1577836800; // 2020-01-01
const DAY2: i64 = 1577923200; // 2020-01-02
const DAY3: i64 = 1578009600; // 2020-01-03

fn raw(points: &[(i64, f64)]) -> Vec<RawPoint> {
    points
        .iter()
        .map(|&(sec, v)| RawPoint { timestamp_ms: sec * 1000, value_bits: v.to_bits() })
        .collect()
}

fn series_x_day1_day3() -> asset_momentum::fetch::TimeSeries {
    series_from_raw(
        &String::from("asset-x"),
        &String::from("price"),
        &raw(&[(DAY1, 100.0), (DAY2, 110.0), (DAY3, 120.0)]),
    )
}

/// Scenario: a full reset over the universe [X, Y, Z] where only X's
/// fetch succeeds leaves X registered with the observed watermark and Y
/// and Z quarantined.
#[test]
fn init_run_with_two_failures() {
    let mut engine = SyncEngine::new(10, DAY1);
    engine.begin_init();
    let universe = vec![
        String::from("asset-x"),
        String::from("asset-y"),
        String::from("asset-z"),
    ];
    let candidates = engine.filter_candidates(&universe);
    assert_eq!(candidates.len(), 3);
    engine.register_candidates(&candidates);
    assert_eq!(engine.registry.len(), 3);

    // Every candidate starts with the never-synchronized watermark, so
    // the fetch window is the whole observation period.
    let asset = engine.registry.get(&String::from("asset-x")).unwrap();
    assert_eq!(asset.first_entry_sec, 0);
    assert_eq!(asset.last_update_sec, 0);
    let window = engine.fetch_window(&asset.clone(), DAY3);
    assert_eq!(window, Some((DAY1, DAY3)));

    let series = series_x_day1_day3();
    engine.apply_fetch_success(&series);
    engine.apply_fetch_failure(&String::from("asset-y"));
    engine.apply_fetch_failure(&String::from("asset-z"));

    let x = engine.registry.get(&String::from("asset-x")).unwrap();
    assert_eq!(x.first_entry_sec, DAY1);
    assert_eq!(x.last_update_sec, DAY3);
    assert!(engine.registry.get(&String::from("asset-y")).is_none());
    assert!(engine.registry.get(&String::from("asset-z")).is_none());
    assert!(engine.ignore.contains(&String::from("asset-y")));
    assert!(engine.ignore.contains(&String::from("asset-z")));
    assert!(!engine.ignore.contains(&String::from("asset-x")));
}

/// Re-applying the same successful fetch changes neither the stored
/// point count nor the watermark.
#[test]
fn resync_is_idempotent() {
    let mut engine = SyncEngine::new(10, DAY1);
    let slug = String::from("asset-x");
    let series = series_x_day1_day3();
    engine.apply_fetch_success(&series);
    let count_before = engine
        .store
        .query(&slug, &String::from("price"), DAY1, Some(DAY3), true)
        .len();
    assert_eq!(count_before, 3);

    engine.apply_fetch_success(&series);
    let count_after = engine
        .store
        .query(&slug, &String::from("price"), DAY1, Some(DAY3), true)
        .len();
    assert_eq!(count_after, 3);
    let x = engine.registry.get(&slug).unwrap();
    assert_eq!(x.first_entry_sec, DAY1);
    assert_eq!(x.last_update_sec, DAY3);
}

/// A watermark one day short of the target date yields the one-day
/// window; a watermark at the target date yields no fetch at all.
#[test]
fn window_skip() {
    let mut engine = SyncEngine::new(10, DAY1);
    let slug = String::from("asset-x");
    engine.apply_fetch_success(
        &series_from_raw(&slug, &String::from("price"), &raw(&[(DAY1, 100.0), (DAY2, 110.0)])),
    );
    let asset = engine.registry.get(&slug).unwrap().clone();
    assert_eq!(asset.last_update_sec, DAY2);
    assert_eq!(engine.fetch_window(&asset, DAY3), Some((DAY3, DAY3)));
    assert_eq!(engine.fetch_window(&asset, DAY2), None);

    let by_date = engine.fetch_window_by_date(&asset, &String::from("2020-01-03"));
    assert_eq!(by_date, Ok(Some((DAY3, DAY3))));
    let by_date_same = engine.fetch_window_by_date(&asset, &String::from("2020-01-02"));
    assert_eq!(by_date_same, Ok(None));
    let bad = engine.fetch_window_by_date(&asset, &String::from("not-a-date"));
    assert!(bad.is_err());
}

/// Watermarks only ever widen: a later fetch of an earlier window lowers
/// the first entry and keeps the last update.
#[test]
fn watermark_widens_monotonically() {
    let mut engine = SyncEngine::new(10, DAY1);
    let slug = String::from("asset-x");
    engine.apply_fetch_success(
        &series_from_raw(&slug, &String::from("price"), &raw(&[(DAY2, 110.0), (DAY3, 120.0)])),
    );
    let first = engine.registry.get(&slug).unwrap().clone();
    assert_eq!((first.first_entry_sec, first.last_update_sec), (DAY2, DAY3));

    engine.apply_fetch_success(
        &series_from_raw(&slug, &String::from("price"), &raw(&[(DAY1, 100.0), (DAY2, 109.0)])),
    );
    let widened = engine.registry.get(&slug).unwrap().clone();
    assert_eq!((widened.first_entry_sec, widened.last_update_sec), (DAY1, DAY3));
}

/// A quarantined slug never comes back: it is filtered out of the
/// universe and so never re-registered by a later run.
#[test]
fn quarantined_slug_never_returns() {
    let mut engine = SyncEngine::new(10, DAY1);
    let universe = vec![String::from("asset-x"), String::from("asset-y")];
    let candidates = engine.filter_candidates(&universe);
    engine.register_candidates(&candidates);
    engine.apply_fetch_failure(&String::from("asset-y"));
    assert!(engine.registry.get(&String::from("asset-y")).is_none());

    // A later update run fetches the universe again: the quarantined
    // slug is dropped before registration.
    let candidates2 = engine.filter_candidates(&universe);
    assert_eq!(candidates2.len(), 1);
    assert_eq!(candidates2[0], String::from("asset-x"));
    engine.register_candidates(&candidates2);
    assert!(engine.registry.get(&String::from("asset-y")).is_none());

    // A full reset keeps the quarantine too.
    engine.begin_init();
    let candidates3 = engine.filter_candidates(&universe);
    engine.register_candidates(&candidates3);
    assert!(engine.registry.get(&String::from("asset-y")).is_none());
    assert!(engine.ignore.contains(&String::from("asset-y")));
}

/// A full reset drops the stored series and the registry, but not the
/// quarantine.
#[test]
fn begin_init_resets_state() {
    let mut engine = SyncEngine::new(10, DAY1);
    let slug = String::from("asset-x");
    engine.apply_fetch_success(&series_x_day1_day3());
    engine.apply_fetch_failure(&String::from("asset-y"));
    assert_eq!(engine.registry.len(), 1);

    engine.begin_init();
    assert_eq!(engine.registry.len(), 0);
    assert_eq!(
        engine
            .store
            .query(&slug, &String::from("price"), DAY1, Some(DAY3), true)
            .len(),
        0
    );
    assert!(engine.ignore.contains(&String::from("asset-y")));
}

/// A universe with a repeated slug registers the asset once.
#[test]
fn duplicate_candidates_register_once() {
    let mut engine = SyncEngine::new(10, DAY1);
    let universe = vec![String::from("asset-x"), String::from("asset-x")];
    let candidates = engine.filter_candidates(&universe);
    assert_eq!(candidates.len(), 2);
    engine.register_candidates(&candidates);
    assert_eq!(engine.registry.len(), 1);
}

/// A never-synchronized asset is skipped when even the observation start
/// lies past the target date.
#[test]
fn fresh_asset_before_observation_start() {
    let engine = SyncEngine::new(10, DAY2);
    let asset = asset_momentum::registry::Asset {
        slug: String::from("asset-x"),
        first_entry_sec: 0,
        last_update_sec: 0,
    };
    assert_eq!(engine.fetch_window(&asset, DAY1), None);
    assert_eq!(engine.fetch_window(&asset, DAY2), Some((DAY2, DAY2)));
}

/// An overlapping re-fetch upserts: values are overwritten in place, no
/// duplicate points appear.
#[test]
fn overlapping_refetch_overwrites() {
    let mut engine = SyncEngine::new(10, DAY1);
    let slug = String::from("asset-x");
    let metric = String::from("price");
    engine.apply_fetch_success(&series_x_day1_day3());
    engine.apply_fetch_success(
        &series_from_raw(&slug, &metric, &raw(&[(DAY2, 111.5), (DAY3, 121.5)])),
    );
    let pts = engine.store.query(&slug, &metric, DAY1, Some(DAY3), true);
    assert_eq!(pts.len(), 3);
    assert_eq!(pts[0].value_bits, 100.0f64.to_bits());
    assert_eq!(pts[1].value_bits, 111.5f64.to_bits());
    assert_eq!(pts[2].value_bits, 121.5f64.to_bits());
}
