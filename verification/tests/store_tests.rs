use asset_momentum::ignore::IgnoreList;
use asset_momentum::store::{MetricPoint, MetricsStore};

const DAY1: i64 = 1577836800;
const DAY2: i64 = 1577923200;
const DAY3: i64 = 1578009600;

fn pt(sec: i64, v: f64, metric: &str) -> MetricPoint {
    MetricPoint { timestamp_sec: sec, value_bits: v.to_bits(), metric_id: metric.to_string() }
}

#[test]
fn append_upserts_and_sorts() {
    let mut store = MetricsStore::new();
    let slug = String::from("asset-x");
    let metric = String::from("price");
    // Out of order, with a duplicate timestamp: the later value wins.
    store.append(
        &slug,
        &metric,
        &vec![pt(DAY3, 120.0, "price"), pt(DAY1, 100.0, "price"), pt(DAY1, 101.0, "price")],
    );
    let pts = store.query(&slug, &metric, DAY1, Some(DAY3), true);
    assert_eq!(pts.len(), 2);
    assert_eq!(pts[0].timestamp_sec, DAY1);
    assert_eq!(pts[0].value_bits, 101.0f64.to_bits());
    assert_eq!(pts[1].timestamp_sec, DAY3);
}

#[test]
fn single_point_query() {
    let mut store = MetricsStore::new();
    let slug = String::from("asset-x");
    let metric = String::from("price");
    store.append(&slug, &metric, &vec![pt(DAY1, 100.0, "price"), pt(DAY2, 110.0, "price")]);
    let hit = store.query(&slug, &metric, DAY2, None, true);
    assert_eq!(hit.len(), 1);
    assert_eq!(hit[0].timestamp_sec, DAY2);
    assert_eq!(hit[0].value_bits, 110.0f64.to_bits());
    // No point at that timestamp: an empty result, not an error.
    let miss = store.query(&slug, &metric, DAY3, None, true);
    assert_eq!(miss.len(), 0);
}

#[test]
fn range_query_is_inclusive_and_scoped() {
    let mut store = MetricsStore::new();
    let slug = String::from("asset-x");
    let metric = String::from("price");
    store.append(
        &slug,
        &metric,
        &vec![pt(DAY1, 100.0, "price"), pt(DAY2, 110.0, "price"), pt(DAY3, 120.0, "price")],
    );
    store.append(&slug, &String::from("mcap"), &vec![pt(DAY1, 1.0, "mcap")]);
    let mid = store.query(&slug, &metric, DAY1 + 1, Some(DAY3 - 1), true);
    assert_eq!(mid.len(), 1);
    assert_eq!(mid[0].timestamp_sec, DAY2);
    // A different metric of the same asset is a separate series.
    assert_eq!(store.query(&slug, &String::from("mcap"), DAY1, Some(DAY3), true).len(), 1);
    // An unknown series yields an empty result.
    assert_eq!(store.query(&String::from("other"), &metric, DAY1, Some(DAY3), true).len(), 0);
}

#[test]
fn delete_metric_and_drop_all() {
    let mut store = MetricsStore::new();
    let slug = String::from("asset-x");
    store.append(&slug, &String::from("price"), &vec![pt(DAY1, 100.0, "price")]);
    store.append(&slug, &String::from("mcap"), &vec![pt(DAY1, 1.0, "mcap")]);
    store.append(&String::from("asset-y"), &String::from("price"), &vec![pt(DAY1, 5.0, "price")]);

    store.delete_metric(&slug, &String::from("price"));
    assert_eq!(store.query(&slug, &String::from("price"), DAY1, Some(DAY3), true).len(), 0);
    assert_eq!(store.query(&slug, &String::from("mcap"), DAY1, Some(DAY3), true).len(), 1);

    store.drop_all_for(&slug);
    assert_eq!(store.query(&slug, &String::from("mcap"), DAY1, Some(DAY3), true).len(), 0);
    assert_eq!(
        store.query(&String::from("asset-y"), &String::from("price"), DAY1, Some(DAY3), true).len(),
        1
    );
}

#[test]
fn entries_lists_every_series() {
    let mut store = MetricsStore::new();
    store.append(&String::from("asset-x"), &String::from("price"), &vec![pt(DAY1, 100.0, "price")]);
    store.append(&String::from("asset-y"), &String::from("price"), &vec![pt(DAY2, 5.0, "price")]);
    let mut entries = store.entries();
    entries.sort_by(|a, b| a.0.cmp(&b.0));
    assert_eq!(entries.len(), 2);
    assert_eq!(entries[0].0, "asset-x");
    assert_eq!(entries[0].2.len(), 1);
    assert_eq!(entries[1].0, "asset-y");
    assert_eq!(entries[1].2[0].timestamp_sec, DAY2);
}

#[test]
fn ignore_list_membership() {
    let mut ignore = IgnoreList::new();
    assert!(!ignore.contains(&String::from("asset-x")));
    ignore.add(&String::from("asset-x"));
    assert!(ignore.contains(&String::from("asset-x")));
    assert!(!ignore.contains(&String::from("asset-y")));
    let slugs = ignore.slugs();
    assert_eq!(slugs.len(), 1);
    assert_eq!(slugs[0], "asset-x");
}
