//! Incremental synchronization and performance analytics for per-asset
//! daily metric time series.
//!
//! The crate keeps one logical series per `(asset, metric)` pair at daily
//! granularity.  A sync engine reconciles data fetched from an external
//! metrics provider against the stored state: it tracks a per-asset
//! watermark, skips assets whose watermark already covers the requested
//! window, quarantines assets whose data cannot be fetched, and keeps the
//! stored series free of duplicate timestamps.  A performance calculator
//! derives point and daily performance from the stored series.
use vstd::prelude::*;

pub mod dates;
pub mod fetch;
pub mod ignore;
pub mod perf;
pub mod registry;
pub mod seqext;
pub mod store;
pub mod sync;

verus! {

/// Length of one day in Unix seconds; all sync decisions are made at
/// day granularity.
pub const SECONDS_PER_DAY: i64 = 86400;

} // verus!
