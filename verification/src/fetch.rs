//! Provider-facing fetch logic.
//!
//! Network traffic itself lives outside the library; what is here is
//! everything the fetch protocol decides and computes: the paging plan for
//! universe listing, assembling and truncating fetched pages, recognizing
//! the rate-limit marker in a response body, converting raw provider
//! points (millisecond timestamps) into a tagged time series with its
//! observed bounds, and the retry/fallback protocol for a single series
//! fetch.  A driver performs one request per `FetchStep::Request`
//! (sleeping `backoff_sec` first), classifies the outcome as a
//! `FetchResponse`, and feeds it back to `FetchProtocol::on_response`.
use vstd::prelude::*;
use crate::store::MetricPoint;
use crate::store::has_ts;
use crate::store::tagged;

verus! {

/// Status block of a provider response envelope.
pub struct MessariStatus {
    pub elapsed: i32,
    pub timestamp: String,
}

/// One data point exactly as the provider returns it: a millisecond
/// timestamp and the IEEE-754 bit pattern of the value.
#[derive(Clone, Copy)]
pub struct RawPoint {
    pub timestamp_ms: i64,
    pub value_bits: u64,
}

/// A fetched series: the converted points, tagged with the metric id that
/// actually succeeded, and the observed timestamp bounds.
pub struct TimeSeries {
    pub asset_slug: String,
    pub metric_id: String,
    pub points: Vec<MetricPoint>,
    pub observed_min_sec: i64,
    pub observed_max_sec: i64,
}

impl TimeSeries {
    /// A usable fetch result: at least one point, every point tagged with
    /// the series' metric id, and the observed bounds positive, attained,
    /// and enclosing every point's timestamp.
    pub open spec fn wf(self) -> bool {
        &&& self.points@.len() > 0
        &&& 0 < self.observed_min_sec <= self.observed_max_sec
        &&& tagged(self.points@, self.metric_id@)
        &&& forall|i: int|
            0 <= i < self.points@.len() ==> self.observed_min_sec <= (
            #[trigger] self.points@[i]).timestamp_sec <= self.observed_max_sec
        &&& has_ts(self.points@, self.observed_min_sec as int)
        &&& has_ts(self.points@, self.observed_max_sec as int)
    }
}

/// A raw payload the protocol accepts: non-empty, with every timestamp at
/// or after the first whole second of the Unix epoch (the provider serves
/// daily data in epoch milliseconds).
pub open spec fn valid_raw(raw: Seq<RawPoint>) -> bool {
    &&& raw.len() > 0
    &&& forall|i: int| 0 <= i < raw.len() ==> (#[trigger] raw[i]).timestamp_ms >= 1000
}

/// How a converted series relates to the raw payload it came from:
/// pointwise millisecond-to-second conversion, tagged with `metric`.
pub open spec fn series_of_raw(
    ts: TimeSeries,
    slug: Seq<char>,
    metric: Seq<char>,
    raw: Seq<RawPoint>,
) -> bool {
    &&& ts.asset_slug@ == slug
    &&& ts.metric_id@ == metric
    &&& ts.points@.len() == raw.len()
    &&& forall|i: int|
        0 <= i < raw.len() ==> {
            &&& (#[trigger] ts.points@[i]).timestamp_sec == (raw[i].timestamp_ms as int) / 1000
            &&& ts.points@[i].value_bits == raw[i].value_bits
        }
}

/// Millisecond-to-second conversion of a provider timestamp.
fn ms_to_sec(ms: i64) -> (r: i64)
    requires
        ms >= 1000,
    ensures
        r == (ms as int) / 1000,
        r >= 1,
{
    let u: u64 = ms as u64;
    let s: u64 = u / 1000;
    proof {
        assert(u / 1000 <= u) by (nonlinear_arith);
        assert(u / 1000 >= 1) by (nonlinear_arith)
            requires
                u >= 1000,
        ;
    }
    s as i64
}

/// Converts a raw payload into a time series tagged with `metric_id`,
/// computing the observed timestamp bounds over the converted points.
pub fn series_from_raw(slug: &String, metric_id: &String, raw: &Vec<RawPoint>) -> (r: TimeSeries)
    requires
        valid_raw(raw@),
    ensures
        r.wf(),
        series_of_raw(r, slug@, metric_id@, raw@),
{
    let n = raw.len();
    let mut points: Vec<MetricPoint> = Vec::new();
    let first_sec = ms_to_sec(raw[0].timestamp_ms);
    let mut min_sec: i64 = first_sec;
    let mut max_sec: i64 = first_sec;
    points.push(
        MetricPoint {
            timestamp_sec: first_sec,
            value_bits: raw[0].value_bits,
            metric_id: metric_id.clone(),
        },
    );
    proof {
        assert(points@[0].timestamp_sec == min_sec as int);
    }
    let mut i: usize = 1;
    while i < n
        invariant
            n == raw@.len(),
            1 <= i <= n,
            valid_raw(raw@),
            points@.len() == i,
            tagged(points@, metric_id@),
            forall|j: int|
                0 <= j < i ==> {
                    &&& (#[trigger] points@[j]).timestamp_sec == (raw@[j].timestamp_ms as int)
                        / 1000
                    &&& points@[j].value_bits == raw@[j].value_bits
                },
            1 <= min_sec <= max_sec,
            forall|j: int|
                0 <= j < i ==> min_sec <= (#[trigger] points@[j]).timestamp_sec <= max_sec,
            has_ts(points@, min_sec as int),
            has_ts(points@, max_sec as int),
        decreases n - i,
    {
        let sec = ms_to_sec(raw[i].timestamp_ms);
        let ghost pre = points@;
        let ghost kmin: int = choose|k: int|
            0 <= k < pre.len() && (#[trigger] pre[k]).timestamp_sec == min_sec as int;
        let ghost kmax: int = choose|k: int|
            0 <= k < pre.len() && (#[trigger] pre[k]).timestamp_sec == max_sec as int;
        points.push(
            MetricPoint {
                timestamp_sec: sec,
                value_bits: raw[i].value_bits,
                metric_id: metric_id.clone(),
            },
        );
        if sec < min_sec {
            min_sec = sec;
            proof {
                assert(points@[points@.len() - 1].timestamp_sec == min_sec as int);
                assert(points@[kmax] == pre[kmax]);
            }
        } else if sec > max_sec {
            max_sec = sec;
            proof {
                assert(points@[points@.len() - 1].timestamp_sec == max_sec as int);
                assert(points@[kmin] == pre[kmin]);
            }
        } else {
            proof {
                assert(points@[kmin] == pre[kmin]);
                assert(points@[kmax] == pre[kmax]);
            }
        }
        i = i + 1;
    }
    TimeSeries {
        asset_slug: slug.clone(),
        metric_id: metric_id.clone(),
        points,
        observed_min_sec: min_sec,
        observed_max_sec: max_sec,
    }
}

/// The byte sequence by which the provider signals a rate-limit error in
/// a response body (a JSON fragment naming the HTTP 429 code).
pub open spec fn rate_limit_marker() -> Seq<u8> {
    seq![
        34u8,
        101u8,
        114u8,
        114u8,
        111u8,
        114u8,
        95u8,
        99u8,
        111u8,
        100u8,
        101u8,
        34u8,
        58u8,
        52u8,
        50u8,
        57u8,
    ]
}

/// Whether a response body contains the rate-limit marker.
pub open spec fn signals_rate_limit(body: Seq<u8>) -> bool {
    exists|i: int|
        0 <= i && i + 16 <= body.len() && #[trigger] body.subrange(i, i + 16)
            == rate_limit_marker()
}

/// The rate-limit marker as bytes (`"error_code":429`, quotes included
/// around the field name).
fn marker_bytes() -> (r: Vec<u8>)
    ensures
        r@ == rate_limit_marker(),
{
    let mut r: Vec<u8> = Vec::new();
    r.push(34);
    r.push(101);
    r.push(114);
    r.push(114);
    r.push(111);
    r.push(114);
    r.push(95);
    r.push(99);
    r.push(111);
    r.push(100);
    r.push(101);
    r.push(34);
    r.push(58);
    r.push(52);
    r.push(50);
    r.push(57);
    proof {
        assert(r@ =~= rate_limit_marker());
    }
    r
}

/// Whether `body` carries `marker` starting at position `i`.
fn match_at(body: &Vec<u8>, marker: &Vec<u8>, i: usize) -> (r: bool)
    requires
        i + marker@.len() <= body@.len(),
    ensures
        r == (body@.subrange(i as int, i + marker@.len()) == marker@),
{
    let m = marker.len();
    let bl = body.len();
    let mut j: usize = 0;
    while j < m
        invariant
            m == marker@.len(),
            bl == body@.len(),
            i + m <= bl,
            0 <= j <= m,
            forall|l: int| 0 <= l < j ==> body@[i + l] == marker@[l],
        decreases m - j,
    {
        if body[i + j] != marker[j] {
            proof {
                assert(body@.subrange(i as int, i + m as int)[j as int] == body@[i + j]);
            }
            return false;
        }
        j = j + 1;
    }
    proof {
        assert(body@.subrange(i as int, i + m as int) =~= marker@);
    }
    true
}

/// Scans a response body for the provider's rate-limit marker.
pub fn body_signals_rate_limit(body: &Vec<u8>) -> (r: bool)
    ensures
        r == signals_rate_limit(body@),
{
    let marker = marker_bytes();
    let n = body.len();
    if n < 16 {
        return false;
    }
    let last = n - 16;
    let mut i: usize = 0;
    loop
        invariant
            marker@ == rate_limit_marker(),
            n == body@.len(),
            16 <= n,
            last == n - 16,
            0 <= i <= last + 1,
            forall|k: int| 0 <= k < i ==> #[trigger] body@.subrange(k, k + 16) != rate_limit_marker(),
        decreases last + 1 - i,
    {
        if i > last {
            proof {
                assert(!signals_rate_limit(body@));
            }
            return false;
        }
        if match_at(body, &marker, i) {
            proof {
                assert(body@.subrange(i as int, i + 16) == rate_limit_marker());
            }
            return true;
        }
        i = i + 1;
    }
}

/// Fixed wait before the single retry of a rate-limited request, in
/// seconds.
pub const RATE_LIMIT_BACKOFF_SEC: u64 = 7;

/// Where a single-series fetch stands.
#[derive(PartialEq, Eq, Structural, Clone, Copy, Debug)]
pub enum FetchPhase {
    /// First request for the primary metric.
    Primary,
    /// Retry of the primary metric after one rate-limit signal.
    PrimaryRetry,
    /// First request for the alternate metric.
    Alternate,
    /// Retry of the alternate metric after one rate-limit signal.
    AlternateRetry,
    /// The fetch is over (completed, or given up).
    Finished,
}

/// What the driver observed for one request.
pub enum FetchResponse {
    /// The response body carries the rate-limit marker.
    RateLimited,
    /// The response could not be parsed into the expected schema.
    Malformed,
    /// The parsed raw points.
    Data(Vec<RawPoint>),
}

/// What the driver must do next.
pub enum FetchStep {
    /// Wait `backoff_sec` seconds, then request `metric_id` once and feed
    /// the outcome back.
    Request { metric_id: String, backoff_sec: u64 },
    /// The fetch succeeded with this series.
    Complete(TimeSeries),
    /// Every attempt failed; there is no data for this asset.
    NoData,
}

/// The retry/fallback protocol of one series fetch: request the primary
/// metric; on a rate-limit signal wait and retry the same request exactly
/// once; if the response (still) cannot be used, repeat the same two-step
/// attempt with the alternate metric if one is configured; give up
/// otherwise.
pub struct FetchProtocol {
    pub asset_slug: String,
    pub primary_metric: String,
    pub alternate_metric: Option<String>,
    pub phase: FetchPhase,
}

/// A malformed response, under which the current metric is abandoned: an
/// unparsable body, or a payload the protocol cannot use.
pub open spec fn response_failed(resp: FetchResponse) -> bool {
    match resp {
        FetchResponse::RateLimited => false,
        FetchResponse::Malformed => true,
        FetchResponse::Data(raw) => !valid_raw(raw@),
    }
}

impl FetchProtocol {
    /// An alternate-metric phase is only ever reached when an alternate
    /// metric is configured.
    pub open spec fn wf(self) -> bool {
        (self.phase == FetchPhase::Alternate || self.phase == FetchPhase::AlternateRetry)
            ==> self.alternate_metric is Some
    }

    /// The metric id of the attempt under way.
    pub open spec fn current_metric(self) -> Seq<char> {
        if self.phase == FetchPhase::Primary || self.phase == FetchPhase::PrimaryRetry {
            self.primary_metric@
        } else {
            self.alternate_metric->0@
        }
    }

    /// Begins a fetch: the first step requests the primary metric with no
    /// backoff.
    pub fn start(asset_slug: String, primary_metric: String, alternate_metric: Option<String>) -> (r:
        (FetchProtocol, FetchStep))
        ensures
            r.0.asset_slug == asset_slug,
            r.0.primary_metric == primary_metric,
            r.0.alternate_metric == alternate_metric,
            r.0.phase == FetchPhase::Primary,
            r.0.wf(),
            r.1 matches FetchStep::Request { metric_id, backoff_sec } && metric_id@
                == primary_metric@ && backoff_sec == 0,
    {
        let first = FetchStep::Request { metric_id: primary_metric.clone(), backoff_sec: 0 };
        (
            FetchProtocol {
                asset_slug,
                primary_metric,
                alternate_metric,
                phase: FetchPhase::Primary,
            },
            first,
        )
    }

    /// Abandons the attempt under way: falls back to the alternate metric
    /// if one is configured and not yet tried, gives up otherwise.
    fn escalate(&mut self) -> (step: FetchStep)
        requires
            old(self).wf(),
            old(self).phase != FetchPhase::Finished,
        ensures
            final(self).asset_slug == old(self).asset_slug,
            final(self).primary_metric == old(self).primary_metric,
            final(self).alternate_metric == old(self).alternate_metric,
            final(self).wf(),
            (old(self).phase == FetchPhase::Primary || old(self).phase
                == FetchPhase::PrimaryRetry) ==> match old(self).alternate_metric {
                Some(m) => final(self).phase == FetchPhase::Alternate && (step
                    matches FetchStep::Request { metric_id, backoff_sec } && metric_id@ == m@
                    && backoff_sec == 0),
                None => final(self).phase == FetchPhase::Finished && step is NoData,
            },
            (old(self).phase == FetchPhase::Alternate || old(self).phase
                == FetchPhase::AlternateRetry) ==> final(self).phase == FetchPhase::Finished
                && step is NoData,
    {
        let primary_like = match self.phase {
            FetchPhase::Primary => true,
            FetchPhase::PrimaryRetry => true,
            _ => false,
        };
        if primary_like {
            match &self.alternate_metric {
                Some(m) => {
                    let mid = m.clone();
                    self.phase = FetchPhase::Alternate;
                    FetchStep::Request { metric_id: mid, backoff_sec: 0 }
                },
                None => {
                    self.phase = FetchPhase::Finished;
                    FetchStep::NoData
                },
            }
        } else {
            self.phase = FetchPhase::Finished;
            FetchStep::NoData
        }
    }

    /// Advances the protocol on the outcome of the requested attempt.
    ///
    /// A usable payload completes the fetch, tagged with the metric under
    /// way.  A rate-limit signal on a first attempt asks for one retry of
    /// the same metric after the fixed backoff; any failure — including a
    /// second rate-limit signal on the retry itself — abandons the metric
    /// and falls back (alternate metric, then `NoData`).
    pub fn on_response(&mut self, resp: FetchResponse) -> (step: FetchStep)
        requires
            old(self).wf(),
            old(self).phase != FetchPhase::Finished,
        ensures
            final(self).asset_slug == old(self).asset_slug,
            final(self).primary_metric == old(self).primary_metric,
            final(self).alternate_metric == old(self).alternate_metric,
            final(self).wf(),
            resp matches FetchResponse::Data(raw) ==> (valid_raw(raw@) ==> {
                &&& final(self).phase == FetchPhase::Finished
                &&& step matches FetchStep::Complete(s) && s.wf() && series_of_raw(
                    s,
                    old(self).asset_slug@,
                    old(self).current_metric(),
                    raw@,
                )
            }),
            (resp is RateLimited && old(self).phase == FetchPhase::Primary) ==> final(self).phase
                == FetchPhase::PrimaryRetry && (step matches FetchStep::Request {
                metric_id,
                backoff_sec,
            } && metric_id@ == old(self).primary_metric@ && backoff_sec == RATE_LIMIT_BACKOFF_SEC),
            (resp is RateLimited && old(self).phase == FetchPhase::Alternate) ==> final(self).phase
                == FetchPhase::AlternateRetry && (step matches FetchStep::Request {
                metric_id,
                backoff_sec,
            } && metric_id@ == old(self).alternate_metric->0@ && backoff_sec
                == RATE_LIMIT_BACKOFF_SEC),
            ((old(self).phase == FetchPhase::Primary || old(self).phase
                == FetchPhase::PrimaryRetry) && (response_failed(resp) || (resp is RateLimited
                && old(self).phase == FetchPhase::PrimaryRetry))) ==> match old(
                self,
            ).alternate_metric {
                Some(m) => final(self).phase == FetchPhase::Alternate && (step
                    matches FetchStep::Request { metric_id, backoff_sec } && metric_id@ == m@
                    && backoff_sec == 0),
                None => final(self).phase == FetchPhase::Finished && step is NoData,
            },
            ((old(self).phase == FetchPhase::Alternate || old(self).phase
                == FetchPhase::AlternateRetry) && (response_failed(resp) || (resp is RateLimited
                && old(self).phase == FetchPhase::AlternateRetry))) ==> final(self).phase
                == FetchPhase::Finished && step is NoData,
    {
        match resp {
            FetchResponse::Data(raw) => {
                if raw_is_valid(&raw) {
                    let primary_like = match self.phase {
                        FetchPhase::Primary => true,
                        FetchPhase::PrimaryRetry => true,
                        _ => false,
                    };
                    let metric = if primary_like {
                        self.primary_metric.clone()
                    } else {
                        match &self.alternate_metric {
                            Some(m) => m.clone(),
                            None => self.primary_metric.clone(),
                        }
                    };
                    let series = series_from_raw(&self.asset_slug, &metric, &raw);
                    self.phase = FetchPhase::Finished;
                    FetchStep::Complete(series)
                } else {
                    self.escalate()
                }
            },
            FetchResponse::Malformed => self.escalate(),
            FetchResponse::RateLimited => {
                match self.phase {
                    FetchPhase::Primary => {
                        self.phase = FetchPhase::PrimaryRetry;
                        FetchStep::Request {
                            metric_id: self.primary_metric.clone(),
                            backoff_sec: RATE_LIMIT_BACKOFF_SEC,
                        }
                    },
                    FetchPhase::Alternate => {
                        self.phase = FetchPhase::AlternateRetry;
                        let mid = match &self.alternate_metric {
                            Some(m) => m.clone(),
                            None => self.primary_metric.clone(),
                        };
                        FetchStep::Request { metric_id: mid, backoff_sec: RATE_LIMIT_BACKOFF_SEC }
                    },
                    _ => self.escalate(),
                }
            },
        }
    }
}

/// Whether the protocol can use a raw payload.
fn raw_is_valid(raw: &Vec<RawPoint>) -> (r: bool)
    ensures
        r == valid_raw(raw@),
{
    let n = raw.len();
    if n == 0 {
        return false;
    }
    let mut i: usize = 0;
    while i < n
        invariant
            n == raw@.len(),
            0 <= i <= n,
            forall|j: int| 0 <= j < i ==> (#[trigger] raw@[j]).timestamp_ms >= 1000,
        decreases n - i,
    {
        if raw[i].timestamp_ms < 1000 {
            return false;
        }
        i = i + 1;
    }
    true
}

/// The provider's page size cap for universe listing.
pub const MAX_PAGE_SIZE: u32 = 500;

/// The paging plan for a universe request: the page size (the rank limit,
/// capped at the provider's maximum) and the number of pages (the rank
/// limit divided by the page size, rounded up — so the pages always cover
/// the rank limit, with no wholly superfluous page).
pub fn universe_page_plan(rank_limit: u32) -> (r: (u32, u32))
    requires
        1 <= rank_limit,
    ensures
        r.0 == if rank_limit < MAX_PAGE_SIZE {
            rank_limit
        } else {
            MAX_PAGE_SIZE
        },
        1 <= r.1,
        r.1 * r.0 >= rank_limit,
        (r.1 - 1) * r.0 < rank_limit,
{
    let page_size: u32 = if rank_limit < MAX_PAGE_SIZE {
        rank_limit
    } else {
        MAX_PAGE_SIZE
    };
    let n: u64 = rank_limit as u64;
    let p: u64 = page_size as u64;
    let d: u64 = (n + p - 1) / p;
    proof {
        let a = (n + p - 1) as int;
        vstd::arithmetic::div_mod::lemma_fundamental_div_mod(a, p as int);
        assert(d == a / (p as int));
        assert(d * p <= a && a < d * p + p) by (nonlinear_arith)
            requires
                p >= 1,
                a == (p as int) * (a / (p as int)) + a % (p as int),
                0 <= a % (p as int) < p,
                d == a / (p as int),
        ;
        assert(d >= 1) by (nonlinear_arith)
            requires
                n >= 1,
                p >= 1,
                d * p + p > n + p - 1,
        ;
        assert(d <= n) by (nonlinear_arith)
            requires
                n >= 1,
                p >= 1,
                d * p <= n + p - 1,
        ;
        assert((d - 1) * p < n) by (nonlinear_arith)
            requires
                p >= 1,
                d * p <= n + p - 1,
        ;
    }
    let pages: u32 = d as u32;
    (page_size, pages)
}

/// The views of fetched universe pages.
pub open spec fn page_views(pages: Seq<Vec<String>>) -> Seq<Seq<String>> {
    pages.map_values(|p: Vec<String>| p@)
}

/// Concatenates fetched universe pages in order and truncates the result
/// to exactly `rank_limit` entries (or to everything fetched, if the
/// provider returned fewer in total).
pub fn assemble_universe(pages: &Vec<Vec<String>>, rank_limit: u32) -> (r: Vec<String>)
    ensures
        ({
            let full = page_views(pages@).flatten();
            &&& r@.len() == if full.len() < rank_limit as int {
                full.len() as int
            } else {
                rank_limit as int
            }
            &&& r@ == full.take(r@.len() as int)
        }),
{
    let mut acc: Vec<String> = Vec::new();
    let n = pages.len();
    let mut i: usize = 0;
    proof {
        assert(page_views(pages@.take(0)) =~= Seq::<Seq<String>>::empty());
        assert(Seq::<Seq<String>>::empty().flatten() =~= Seq::<String>::empty());
    }
    while i < n
        invariant
            n == pages@.len(),
            0 <= i <= n,
            acc@ == page_views(pages@.take(i as int)).flatten(),
        decreases n - i,
    {
        let page = &pages[i];
        let m = page.len();
        let mut j: usize = 0;
        while j < m
            invariant
                n == pages@.len(),
                0 <= i < n,
                m == pages@[i as int]@.len(),
                page == &pages[i as int],
                0 <= j <= m,
                acc@ == page_views(pages@.take(i as int)).flatten() + pages@[i as int]@.take(
                    j as int,
                ),
            decreases m - j,
        {
            acc.push(page[j].clone());
            proof {
                assert(pages@[i as int]@.take(j + 1) =~= pages@[i as int]@.take(j as int).push(
                    pages@[i as int]@[j as int],
                ));
                assert(acc@ =~= page_views(pages@.take(i as int)).flatten() + pages@[i as int]@.take(
                    j + 1,
                ));
            }
            j = j + 1;
        }
        proof {
            assert(pages@[i as int]@.take(m as int) =~= pages@[i as int]@);
            assert(page_views(pages@.take(i + 1)) =~= page_views(pages@.take(i as int)).push(
                pages@[i as int]@,
            ));
            page_views(pages@.take(i as int)).lemma_flatten_push(pages@[i as int]@);
            assert(acc@ == page_views(pages@.take(i + 1)).flatten());
        }
        i = i + 1;
    }
    proof {
        assert(pages@.take(n as int) =~= pages@);
    }
    acc.truncate(rank_limit as usize);
    acc
}

} // verus!
