use asset_momentum::fetch::{
    assemble_universe, body_signals_rate_limit, series_from_raw, universe_page_plan, FetchPhase,
    FetchProtocol, FetchResponse, FetchStep, RawPoint, RATE_LIMIT_BACKOFF_SEC,
};

const DAY1: i64 = 1577836800;
const DAY2: i64 = 1577923200;
const DAY3: i64 = 1578009600;

fn raw(points: &[(i64, f64)]) -> Vec<RawPoint> {
    points
        .iter()
        .map(|&(sec, v)| RawPoint { timestamp_ms: sec * 1000, value_bits: v.to_bits() })
        .collect()
}

/// Scenario: a request for 1200 ranks is served as 3 pages of 500 and
/// truncated to exactly 1200 entries.
#[test]
fn plan_and_assemble_1200() {
    let (page_size, pages) = universe_page_plan(1200);
    assert_eq!(page_size, 500);
    assert_eq!(pages, 3);

    let mut fetched: Vec<Vec<String>> = Vec::new();
    for p in 0..pages {
        let mut page = Vec::new();
        for k in 0..page_size {
            page.push(format!("asset-{}", p * page_size + k));
        }
        fetched.push(page);
    }
    let universe = assemble_universe(&fetched, 1200);
    assert_eq!(universe.len(), 1200);
    assert_eq!(universe[0], "asset-0");
    assert_eq!(universe[1199], "asset-1199");
}

#[test]
fn plan_edges() {
    assert_eq!(universe_page_plan(1), (1, 1));
    assert_eq!(universe_page_plan(499), (499, 1));
    assert_eq!(universe_page_plan(500), (500, 1));
    assert_eq!(universe_page_plan(501), (500, 2));
    assert_eq!(universe_page_plan(1000), (500, 2));
    assert_eq!(universe_page_plan(1001), (500, 3));
}

#[test]
fn assemble_shorter_than_limit() {
    let fetched = vec![vec![String::from("a"), String::from("b")], vec![String::from("c")]];
    let universe = assemble_universe(&fetched, 10);
    assert_eq!(universe, vec![String::from("a"), String::from("b"), String::from("c")]);
}

#[test]
fn rate_limit_marker_detection() {
    let limited = String::from("{\"status\":{\"elapsed\":1,\"error_code\":429,\"error_message\":\"slow down\"}}");
    assert!(body_signals_rate_limit(&limited.into_bytes()));
    let ok = String::from("{\"status\":{\"elapsed\":1},\"data\":{}}");
    assert!(!body_signals_rate_limit(&ok.into_bytes()));
    let near_miss = String::from("{\"error_code\":430}");
    assert!(!body_signals_rate_limit(&near_miss.into_bytes()));
    assert!(!body_signals_rate_limit(&Vec::new()));
}

/// Scenario: a rate-limited first response triggers exactly one
/// seven-second retry of the same metric before the protocol falls back
/// to the alternate metric, and then gives up.
#[test]
fn rate_limit_retry_then_fallback() {
    let (mut proto, step) = FetchProtocol::start(
        String::from("asset-x"),
        String::from("price"),
        Some(String::from("mcap")),
    );
    match step {
        FetchStep::Request { metric_id, backoff_sec } => {
            assert_eq!(metric_id, "price");
            assert_eq!(backoff_sec, 0);
        }
        _ => panic!("expected a first request"),
    }

    // First response carries the rate-limit marker: one retry, after the
    // fixed backoff, of the same metric.
    match proto.on_response(FetchResponse::RateLimited) {
        FetchStep::Request { metric_id, backoff_sec } => {
            assert_eq!(metric_id, "price");
            assert_eq!(backoff_sec, RATE_LIMIT_BACKOFF_SEC);
            assert_eq!(RATE_LIMIT_BACKOFF_SEC, 7);
        }
        _ => panic!("expected the retry request"),
    }

    // The retry fails to parse: fall back to the alternate metric with
    // no backoff (its own attempt starts fresh).
    match proto.on_response(FetchResponse::Malformed) {
        FetchStep::Request { metric_id, backoff_sec } => {
            assert_eq!(metric_id, "mcap");
            assert_eq!(backoff_sec, 0);
        }
        _ => panic!("expected the alternate request"),
    }

    // The alternate fails too: no data.
    match proto.on_response(FetchResponse::Malformed) {
        FetchStep::NoData => {}
        _ => panic!("expected NoData"),
    }
    assert_eq!(proto.phase, FetchPhase::Finished);
}

/// Without an alternate metric, a failed retry ends the fetch.
#[test]
fn rate_limit_retry_then_no_data() {
    let (mut proto, _) =
        FetchProtocol::start(String::from("asset-x"), String::from("price"), None);
    match proto.on_response(FetchResponse::RateLimited) {
        FetchStep::Request { backoff_sec, .. } => assert_eq!(backoff_sec, 7),
        _ => panic!("expected the retry request"),
    }
    // A second rate-limit signal on the retry counts as failure.
    match proto.on_response(FetchResponse::RateLimited) {
        FetchStep::NoData => {}
        _ => panic!("expected NoData"),
    }
}

/// A successful response completes the fetch with points tagged by the
/// metric that actually succeeded.
#[test]
fn success_on_alternate_tags_alternate() {
    let (mut proto, _) = FetchProtocol::start(
        String::from("asset-x"),
        String::from("price"),
        Some(String::from("mcap")),
    );
    match proto.on_response(FetchResponse::Malformed) {
        FetchStep::Request { metric_id, .. } => assert_eq!(metric_id, "mcap"),
        _ => panic!("expected the alternate request"),
    }
    match proto.on_response(FetchResponse::Data(raw(&[(DAY1, 100.0), (DAY2, 110.0)]))) {
        FetchStep::Complete(series) => {
            assert_eq!(series.asset_slug, "asset-x");
            assert_eq!(series.metric_id, "mcap");
            assert_eq!(series.points.len(), 2);
            assert_eq!(series.points[0].metric_id, "mcap");
            assert_eq!(series.observed_min_sec, DAY1);
            assert_eq!(series.observed_max_sec, DAY2);
        }
        _ => panic!("expected completion"),
    }
}

/// An empty payload is unusable and falls back like a parse failure.
#[test]
fn empty_payload_counts_as_failure() {
    let (mut proto, _) =
        FetchProtocol::start(String::from("asset-x"), String::from("price"), None);
    match proto.on_response(FetchResponse::Data(Vec::new())) {
        FetchStep::NoData => {}
        _ => panic!("expected NoData"),
    }
}

/// Millisecond timestamps are converted to seconds and the observed
/// bounds are computed over the converted points.
#[test]
fn series_conversion_and_bounds() {
    let series = series_from_raw(
        &String::from("asset-x"),
        &String::from("price"),
        &raw(&[(DAY2, 110.0), (DAY1, 100.0), (DAY3, 120.0)]),
    );
    assert_eq!(series.points.len(), 3);
    assert_eq!(series.points[0].timestamp_sec, DAY2);
    assert_eq!(series.points[1].timestamp_sec, DAY1);
    assert_eq!(series.points[2].timestamp_sec, DAY3);
    assert_eq!(series.points[1].value_bits, 100.0f64.to_bits());
    assert_eq!(series.observed_min_sec, DAY1);
    assert_eq!(series.observed_max_sec, DAY3);
    // 1500 ms floors to 1 s.
    let small = series_from_raw(
        &String::from("asset-x"),
        &String::from("price"),
        &vec![RawPoint { timestamp_ms: 1500, value_bits: 1.0f64.to_bits() }],
    );
    assert_eq!(small.points[0].timestamp_sec, 1);
}
