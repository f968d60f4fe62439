//! Performance analytics over the stored series.
//!
//! These functions read only from the registry and the store.  The
//! floating-point arithmetic itself (absolute and percentage change) is
//! left to the caller, who receives the exact start and end points; what
//! is decided here — clamping the requested window to the asset's
//! watermark, locating the boundary points, pairing consecutive points,
//! and signalling a zero start value (whose percentage change would be a
//! division by zero) — is verified.
use vstd::prelude::*;
use crate::dates::day_sec_of;
use crate::dates::parse_day_sec;
use crate::registry::Asset;
use crate::registry::AssetRegistry;
use crate::registry::asset_at;
use crate::registry::has_slug;
use crate::store::MetricPoint;
use crate::store::MetricsStore;
use crate::store::point_window;

verus! {

/// Why an analytics request produced no result.
#[derive(PartialEq, Eq, Structural, Clone, Copy, Debug)]
pub enum PerfError {
    /// The asset is not registered, or a boundary point is missing.
    NotFound,
    /// The start value is zero, so no percentage change exists.
    DivisionByZero,
    /// A supplied date is not a valid `YYYY-MM-DD` calendar date.
    BadDate,
}

/// Whether a value's IEEE-754 bit pattern encodes zero (of either sign).
pub open spec fn value_bits_is_zero(bits: u64) -> bool {
    bits == 0 || bits == 0x8000_0000_0000_0000u64
}

/// Runtime test for a zero value, on the bit pattern.
pub fn value_is_zero(bits: u64) -> (r: bool)
    ensures
        r == value_bits_is_zero(bits),
{
    bits == 0 || bits == 0x8000_0000_0000_0000u64
}

/// The requested bound raised to the asset's first entry.
pub open spec fn clamp_lo(x: i64, lo: i64) -> i64 {
    if x < lo {
        lo
    } else {
        x
    }
}

/// The requested bound lowered to the asset's last update.
pub open spec fn clamp_hi(x: i64, hi: i64) -> i64 {
    if x > hi {
        hi
    } else {
        x
    }
}

/// The two boundary points of an asset's series over a window: the exact
/// start and end points, from which a caller derives the absolute change
/// (`end - start`) and the percentage change (`(end - start) / start`).
pub struct PointPerformance {
    pub slug: String,
    pub start: MetricPoint,
    pub end: MetricPoint,
}

/// What `point_performance` returns: `NotFound` when the slug is not
/// registered or a boundary point is missing at the clamped window's
/// edge; `DivisionByZero` when the start value is zero; otherwise exactly
/// the two stored boundary points.
pub open spec fn point_performance_post(
    reg: Seq<Asset>,
    sto: MetricsStore,
    slug: Seq<char>,
    metric: Seq<char>,
    from: i64,
    to: i64,
    r: Result<PointPerformance, PerfError>,
) -> bool {
    if !has_slug(reg, slug) {
        r == Err::<PointPerformance, PerfError>(PerfError::NotFound)
    } else {
        let a = asset_at(reg, slug);
        let f = clamp_lo(from, a.first_entry_sec);
        let t = clamp_hi(to, a.last_update_sec);
        let m = sto.map_of(slug, metric);
        if !(m.dom().contains(f as int) && m.dom().contains(t as int)) {
            r == Err::<PointPerformance, PerfError>(PerfError::NotFound)
        } else if value_bits_is_zero(m[f as int]) {
            r == Err::<PointPerformance, PerfError>(PerfError::DivisionByZero)
        } else {
            match r {
                Ok(p) => {
                    &&& p.slug@ == slug
                    &&& p.start.timestamp_sec == f
                    &&& p.start.value_bits == m[f as int]
                    &&& p.start.metric_id@ == metric
                    &&& p.end.timestamp_sec == t
                    &&& p.end.value_bits == m[t as int]
                    &&& p.end.metric_id@ == metric
                },
                Err(_) => false,
            }
        }
    }
}

/// Performance of one asset over `[from_sec, to_sec]`, both bounds
/// clamped into the asset's watermark range.
pub fn point_performance(
    registry: &AssetRegistry,
    store: &MetricsStore,
    slug: &String,
    metric: &String,
    from_sec: i64,
    to_sec: i64,
) -> (r: Result<PointPerformance, PerfError>)
    requires
        registry.inv(),
        store.inv(),
    ensures
        point_performance_post(registry@, *store, slug@, metric@, from_sec, to_sec, r),
{
    let asset = match registry.get(slug) {
        None => {
            return Err(PerfError::NotFound);
        },
        Some(a) => a,
    };
    let f = if from_sec < asset.first_entry_sec {
        asset.first_entry_sec
    } else {
        from_sec
    };
    let t = if to_sec > asset.last_update_sec {
        asset.last_update_sec
    } else {
        to_sec
    };
    let start_v = store.query(slug, metric, f, None, true);
    let end_v = store.query(slug, metric, t, None, true);
    if start_v.len() != 1 || end_v.len() != 1 {
        return Err(PerfError::NotFound);
    }
    let start = start_v[0].clone();
    let end = end_v[0].clone();
    if value_is_zero(start.value_bits) {
        return Err(PerfError::DivisionByZero);
    }
    Ok(PointPerformance { slug: slug.clone(), start, end })
}

/// What `daily_performance` returns: `NotFound` when the slug is not
/// registered; otherwise, over the stored points of the clamped window in
/// ascending order, one boundary pair per consecutive couple of points
/// (so an empty or single-point window yields an empty sequence, not an
/// error).
pub open spec fn daily_performance_post(
    reg: Seq<Asset>,
    sto: MetricsStore,
    slug: Seq<char>,
    metric: Seq<char>,
    from: i64,
    to: i64,
    r: Result<Vec<PointPerformance>, PerfError>,
) -> bool {
    if !has_slug(reg, slug) {
        r == Err::<Vec<PointPerformance>, PerfError>(PerfError::NotFound)
    } else {
        let a = asset_at(reg, slug);
        let f = clamp_lo(from, a.first_entry_sec);
        let t = clamp_hi(to, a.last_update_sec);
        let pts = sto.points_of(slug, metric).filter(point_window(f, Some(t)));
        match r {
            Ok(v) => {
                &&& v@.len() == if pts.len() == 0 {
                    0int
                } else {
                    pts.len() - 1
                }
                &&& forall|i: int|
                    0 <= i < v@.len() ==> {
                        &&& (#[trigger] v@[i]).slug@ == slug
                        &&& v@[i].start == pts[i]
                        &&& v@[i].end == pts[i + 1]
                    }
            },
            Err(_) => false,
        }
    }
}

/// Day-to-day performance of one asset over `[from_sec, to_sec]`, both
/// bounds clamped into the asset's watermark range.
pub fn daily_performance(
    registry: &AssetRegistry,
    store: &MetricsStore,
    slug: &String,
    metric: &String,
    from_sec: i64,
    to_sec: i64,
) -> (r: Result<Vec<PointPerformance>, PerfError>)
    requires
        registry.inv(),
        store.inv(),
    ensures
        daily_performance_post(registry@, *store, slug@, metric@, from_sec, to_sec, r),
{
    let asset = match registry.get(slug) {
        None => {
            return Err(PerfError::NotFound);
        },
        Some(a) => a,
    };
    let f = if from_sec < asset.first_entry_sec {
        asset.first_entry_sec
    } else {
        from_sec
    };
    let t = if to_sec > asset.last_update_sec {
        asset.last_update_sec
    } else {
        to_sec
    };
    let pts = store.query(slug, metric, f, Some(t), true);
    let mut pairs: Vec<PointPerformance> = Vec::new();
    if pts.len() < 2 {
        return Ok(pairs);
    }
    let n = pts.len() - 1;
    let mut i: usize = 0;
    while i < n
        invariant
            n == pts@.len() - 1,
            0 <= i <= n,
            pairs@.len() == i,
            forall|k: int|
                0 <= k < i ==> {
                    &&& (#[trigger] pairs@[k]).slug@ == slug@
                    &&& pairs@[k].start == pts@[k]
                    &&& pairs@[k].end == pts@[k + 1]
                },
        decreases n - i,
    {
        pairs.push(
            PointPerformance { slug: slug.clone(), start: pts[i].clone(), end: pts[i + 1].clone() },
        );
        i = i + 1;
    }
    Ok(pairs)
}

/// Day-to-day performance of every registered asset, one entry per asset
/// in registry order; a per-asset failure would be reported as that
/// asset's entry alone (`None`), never as a whole-batch failure.
pub fn all_assets_daily_performance(
    registry: &AssetRegistry,
    store: &MetricsStore,
    metric: &String,
    from_sec: i64,
    to_sec: i64,
) -> (r: Vec<(String, Option<Vec<PointPerformance>>)>)
    requires
        registry.inv(),
        store.inv(),
    ensures
        r@.len() == registry@.len(),
        forall|i: int|
            0 <= i < r@.len() ==> {
                &&& (#[trigger] r@[i]).0@ == registry@[i].slug@
                &&& match r@[i].1 {
                    Some(v) => daily_performance_post(
                        registry@,
                        *store,
                        registry@[i].slug@,
                        metric@,
                        from_sec,
                        to_sec,
                        Ok(v),
                    ),
                    None => false,
                }
            },
{
    let assets = registry.assets();
    let n = assets.len();
    let mut r: Vec<(String, Option<Vec<PointPerformance>>)> = Vec::new();
    let mut i: usize = 0;
    while i < n
        invariant
            n == registry@.len(),
            0 <= i <= n,
            registry.inv(),
            store.inv(),
            r@.len() == i,
            forall|k: int|
                0 <= k < i ==> {
                    &&& (#[trigger] r@[k]).0@ == registry@[k].slug@
                    &&& match r@[k].1 {
                        Some(v) => daily_performance_post(
                            registry@,
                            *store,
                            registry@[k].slug@,
                            metric@,
                            from_sec,
                            to_sec,
                            Ok(v),
                        ),
                        None => false,
                    }
                },
        decreases n - i,
    {
        let slug = registry.assets()[i].slug.clone();
        proof {
            assert(registry@[i as int].slug@ == slug@);
            assert(has_slug(registry@, slug@));
        }
        let outcome = match daily_performance(registry, store, &slug, metric, from_sec, to_sec) {
            Ok(v) => Some(v),
            Err(_) => None,
        };
        r.push((slug, outcome));
        i = i + 1;
    }
    r
}

/// `point_performance` with the window given as `YYYY-MM-DD` dates; a
/// malformed date is a caller error, reported as `BadDate`.
pub fn point_performance_by_date(
    registry: &AssetRegistry,
    store: &MetricsStore,
    slug: &String,
    metric: &String,
    from_date: &String,
    to_date: &String,
) -> (r: Result<PointPerformance, PerfError>)
    requires
        registry.inv(),
        store.inv(),
    ensures
        match (day_sec_of(from_date@), day_sec_of(to_date@)) {
            (Some(f), Some(t)) => point_performance_post(
                registry@,
                *store,
                slug@,
                metric@,
                f as i64,
                t as i64,
                r,
            ),
            _ => r == Err::<PointPerformance, PerfError>(PerfError::BadDate),
        },
{
    let f = match parse_day_sec(from_date) {
        None => {
            return Err(PerfError::BadDate);
        },
        Some(v) => v,
    };
    let t = match parse_day_sec(to_date) {
        None => {
            return Err(PerfError::BadDate);
        },
        Some(v) => v,
    };
    point_performance(registry, store, slug, metric, f, t)
}

/// `daily_performance` with the window given as `YYYY-MM-DD` dates; a
/// malformed date is a caller error, reported as `BadDate`.
pub fn daily_performance_by_date(
    registry: &AssetRegistry,
    store: &MetricsStore,
    slug: &String,
    metric: &String,
    from_date: &String,
    to_date: &String,
) -> (r: Result<Vec<PointPerformance>, PerfError>)
    requires
        registry.inv(),
        store.inv(),
    ensures
        match (day_sec_of(from_date@), day_sec_of(to_date@)) {
            (Some(f), Some(t)) => daily_performance_post(
                registry@,
                *store,
                slug@,
                metric@,
                f as i64,
                t as i64,
                r,
            ),
            _ => r == Err::<Vec<PointPerformance>, PerfError>(PerfError::BadDate),
        },
{
    let f = match parse_day_sec(from_date) {
        None => {
            return Err(PerfError::BadDate);
        },
        Some(v) => v,
    };
    let t = match parse_day_sec(to_date) {
        None => {
            return Err(PerfError::BadDate);
        },
        Some(v) => v,
    };
    daily_performance(registry, store, slug, metric, f, t)
}

} // verus!
