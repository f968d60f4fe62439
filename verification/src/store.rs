//! Durable per-asset, per-metric daily time series.
//!
//! The store owns the point data: one logical series per `(slug,
//! metric_id)` pair, at most one point per timestamp.  Appending is an
//! upsert — re-playing an overlapping window overwrites values instead of
//! duplicating points.  The mathematical model of one series is the map
//! from timestamp (seconds) to the stored value.
//!
//! Metric values are carried opaquely as the IEEE-754 bit pattern of the
//! provider's floating-point number (`value_bits`); the store and the
//! engine never interpret them beyond equality.
use vstd::prelude::*;
use vstd::pervasive::VecAdditionalExecFns;
use crate::seqext::lemma_filter_element_of;
use crate::seqext::lemma_filter_keeps_distinct_keys;
use crate::seqext::lemma_filter_take_push;

verus! {

/// One stored data point of one asset's series.
pub struct MetricPoint {
    pub timestamp_sec: i64,
    /// IEEE-754 bit pattern of the metric value.
    pub value_bits: u64,
    pub metric_id: String,
}

impl Clone for MetricPoint {
    fn clone(&self) -> (r: Self)
        ensures
            r == *self,
    {
        MetricPoint {
            timestamp_sec: self.timestamp_sec,
            value_bits: self.value_bits,
            metric_id: self.metric_id.clone(),
        }
    }
}

/// Timestamps strictly increase along the sequence (so they are unique).
pub open spec fn sorted_strict(s: Seq<MetricPoint>) -> bool {
    forall|i: int, j: int|
        0 <= i < j < s.len() ==> (#[trigger] s[i]).timestamp_sec < (#[trigger] s[j]).timestamp_sec
}

/// Every point carries the metric id `metric`.
pub open spec fn tagged(s: Seq<MetricPoint>, metric: Seq<char>) -> bool {
    forall|i: int| 0 <= i < s.len() ==> (#[trigger] s[i]).metric_id@ == metric
}

/// Whether some point in `s` sits at timestamp `ts`.
pub open spec fn has_ts(s: Seq<MetricPoint>, ts: int) -> bool {
    exists|i: int| 0 <= i < s.len() && (#[trigger] s[i]).timestamp_sec == ts
}

/// The map from timestamp to value bits that a point sequence denotes;
/// when a timestamp repeats, the later point wins.
pub open spec fn pts_map(s: Seq<MetricPoint>) -> Map<int, u64>
    decreases s.len(),
{
    if s.len() == 0 {
        Map::empty()
    } else {
        pts_map(s.drop_last()).insert(s.last().timestamp_sec as int, s.last().value_bits)
    }
}

/// A timestamp is in the denoted map exactly when some point sits at it.
proof fn lemma_pts_map_dom(s: Seq<MetricPoint>)
    ensures
        forall|ts: int| #[trigger] pts_map(s).dom().contains(ts) <==> has_ts(s, ts),
    decreases s.len(),
{
    if s.len() > 0 {
        let t = s.drop_last();
        lemma_pts_map_dom(t);
        assert forall|ts: int| #[trigger] pts_map(s).dom().contains(ts) <==> has_ts(s, ts) by {
            assert(pts_map(s) == pts_map(t).insert(
                s.last().timestamp_sec as int,
                s.last().value_bits,
            ));
            if pts_map(s).dom().contains(ts) {
                if ts == s.last().timestamp_sec {
                    assert(s[s.len() - 1].timestamp_sec == ts);
                } else {
                    assert(pts_map(t).dom().contains(ts));
                    assert(has_ts(t, ts));
                    let i = choose|i: int| 0 <= i < t.len() && (#[trigger] t[i]).timestamp_sec == ts;
                    assert(s[i].timestamp_sec == ts);
                }
            }
            if has_ts(s, ts) {
                let i = choose|i: int| 0 <= i < s.len() && (#[trigger] s[i]).timestamp_sec == ts;
                if i < s.len() - 1 {
                    assert(t[i].timestamp_sec == ts);
                    assert(has_ts(t, ts));
                    assert(pts_map(t).dom().contains(ts));
                } else {
                    assert(ts == s.last().timestamp_sec);
                }
                assert(pts_map(s).dom().contains(ts));
            }
        }
    }
}

/// With unique timestamps, the denoted map agrees with the sequence at
/// every index.
proof fn lemma_pts_map_index(s: Seq<MetricPoint>, i: int)
    requires
        0 <= i < s.len(),
        forall|p: int, q: int|
            0 <= p < q < s.len() ==> (#[trigger] s[p]).timestamp_sec != (
            #[trigger] s[q]).timestamp_sec,
    ensures
        pts_map(s).dom().contains(s[i].timestamp_sec as int),
        pts_map(s)[s[i].timestamp_sec as int] == s[i].value_bits,
    decreases s.len(),
{
    let t = s.drop_last();
    if i == s.len() - 1 {
    } else {
        lemma_pts_map_index(t, i);
        assert(s[i].timestamp_sec != s.last().timestamp_sec);
    }
}

/// Inserting a point with a fresh timestamp at any position inserts its
/// entry into the denoted map.
proof fn lemma_pts_map_insert(s: Seq<MetricPoint>, i: int, p: MetricPoint)
    requires
        0 <= i <= s.len(),
        forall|j: int|
            0 <= j < s.len() ==> (#[trigger] s[j]).timestamp_sec != p.timestamp_sec,
    ensures
        pts_map(s.insert(i, p)) == pts_map(s).insert(p.timestamp_sec as int, p.value_bits),
    decreases s.len(),
{
    let s2 = s.insert(i, p);
    if i == s.len() {
        assert(s2.drop_last() =~= s);
        assert(s2.last() == p);
    } else {
        let t = s.drop_last();
        assert(s2.drop_last() =~= t.insert(i, p));
        assert(s2.last() == s.last());
        lemma_pts_map_insert(t, i, p);
        assert(pts_map(s2) == pts_map(t).insert(p.timestamp_sec as int, p.value_bits).insert(
            s.last().timestamp_sec as int,
            s.last().value_bits,
        ));
        assert(s[s.len() - 1].timestamp_sec != p.timestamp_sec);
        assert(pts_map(t).insert(p.timestamp_sec as int, p.value_bits).insert(
            s.last().timestamp_sec as int,
            s.last().value_bits,
        ) =~= pts_map(t).insert(s.last().timestamp_sec as int, s.last().value_bits).insert(
            p.timestamp_sec as int,
            p.value_bits,
        ));
    }
}

/// Overwriting the point at a timestamp (with no later point at the same
/// timestamp) updates its entry in the denoted map.
proof fn lemma_pts_map_update(s: Seq<MetricPoint>, i: int, p: MetricPoint)
    requires
        0 <= i < s.len(),
        s[i].timestamp_sec == p.timestamp_sec,
        forall|j: int|
            i < j < s.len() ==> (#[trigger] s[j]).timestamp_sec != p.timestamp_sec,
    ensures
        pts_map(s.update(i, p)) == pts_map(s).insert(p.timestamp_sec as int, p.value_bits),
    decreases s.len(),
{
    let s2 = s.update(i, p);
    if i == s.len() - 1 {
        assert(s2.drop_last() =~= s.drop_last());
        assert(s2.last() == p);
        assert(pts_map(s.drop_last()).insert(p.timestamp_sec as int, p.value_bits) =~= pts_map(
            s,
        ).insert(p.timestamp_sec as int, p.value_bits));
    } else {
        let t = s.drop_last();
        assert(s2.drop_last() =~= t.update(i, p));
        assert(s2.last() == s.last());
        lemma_pts_map_update(t, i, p);
        assert(s[s.len() - 1].timestamp_sec != p.timestamp_sec);
        assert(pts_map(t).insert(p.timestamp_sec as int, p.value_bits).insert(
            s.last().timestamp_sec as int,
            s.last().value_bits,
        ) =~= pts_map(t).insert(s.last().timestamp_sec as int, s.last().value_bits).insert(
            p.timestamp_sec as int,
            p.value_bits,
        ));
    }
}

/// One stored series and its key.
struct Series {
    slug: String,
    metric_id: String,
    points: Vec<MetricPoint>,
}

/// The key of a stored series.
spec fn skey(s: Series) -> (Seq<char>, Seq<char>) {
    (s.slug@, s.metric_id@)
}

spec fn has_key(v: Seq<Series>, k: (Seq<char>, Seq<char>)) -> bool {
    exists|i: int| 0 <= i < v.len() && skey(#[trigger] v[i]) == k
}

spec fn key_index(v: Seq<Series>, k: (Seq<char>, Seq<char>)) -> int {
    choose|i: int| 0 <= i < v.len() && skey(#[trigger] v[i]) == k
}

spec fn points_in(v: Seq<Series>, k: (Seq<char>, Seq<char>)) -> Seq<MetricPoint> {
    if has_key(v, k) {
        v[key_index(v, k)].points@
    } else {
        Seq::empty()
    }
}

spec fn unique_keys(v: Seq<Series>) -> bool {
    forall|i: int, j: int| 0 <= i < j < v.len() ==> skey(#[trigger] v[i]) != skey(#[trigger] v[j])
}

/// With unique keys, the series looked up under the key of `v[i]` is
/// `v[i]` itself.
proof fn lemma_points_in_unique(v: Seq<Series>, k: (Seq<char>, Seq<char>), i: int)
    requires
        unique_keys(v),
        0 <= i < v.len(),
        skey(v[i]) == k,
    ensures
        has_key(v, k),
        points_in(v, k) == v[i].points@,
{
    assert(has_key(v, k));
    let j = key_index(v, k);
    if i != j {
        assert(skey(v[i]) != skey(v[j]));
    }
}

/// The per-series map that the whole store exposes.
pub struct MetricsStore {
    series: Vec<Series>,
}

impl MetricsStore {
    /// Internal invariant: series keys are unique, every series is sorted
    /// strictly by timestamp, and every point carries its series' metric
    /// id.
    pub closed spec fn inv(self) -> bool {
        &&& unique_keys(self.series@)
        &&& forall|i: int| 0 <= i < self.series@.len() ==> sorted_strict((#[trigger] self.series@[i]).points@)
        &&& forall|i: int|
            0 <= i < self.series@.len() ==> tagged(
                (#[trigger] self.series@[i]).points@,
                self.series@[i].metric_id@,
            )
    }

    /// The stored point sequence of the series keyed `(slug, metric)`;
    /// empty when no such series exists.
    pub closed spec fn points_of(self, slug: Seq<char>, metric: Seq<char>) -> Seq<MetricPoint> {
        points_in(self.series@, (slug, metric))
    }

    /// The timestamp-to-value map of the series keyed `(slug, metric)`.
    pub open spec fn map_of(self, slug: Seq<char>, metric: Seq<char>) -> Map<int, u64> {
        pts_map(self.points_of(slug, metric))
    }

    /// An empty store.
    pub fn new() -> (r: MetricsStore)
        ensures
            r.inv(),
            forall|s2: Seq<char>, m2: Seq<char>| #[trigger] r.points_of(s2, m2) == Seq::<
                MetricPoint,
            >::empty(),
    {
        let r = MetricsStore { series: Vec::new() };
        proof {
            assert forall|s2: Seq<char>, m2: Seq<char>| #[trigger] r.points_of(s2, m2) == Seq::<
                MetricPoint,
            >::empty() by {
                assert(!has_key(r.series@, (s2, m2)));
            }
        }
        r
    }

    /// The position of the series keyed `(slug, metric)`, if one exists.
    fn find(&self, slug: &String, metric: &String) -> (r: Option<usize>)
        requires
            self.inv(),
        ensures
            match r {
                Some(i) => i < self.series@.len() && skey(self.series@[i as int]) == (slug@, metric@),
                None => !has_key(self.series@, (slug@, metric@)),
            },
    {
        let n = self.series.len();
        let mut i: usize = 0;
        while i < n
            invariant
                n == self.series@.len(),
                0 <= i <= n,
                forall|j: int| 0 <= j < i ==> skey(#[trigger] self.series@[j]) != (slug@, metric@),
            decreases n - i,
        {
            if self.series[i].slug == *slug && self.series[i].metric_id == *metric {
                return Some(i);
            }
            i = i + 1;
        }
        None
    }

    /// Upserts every given point into the series `(slug, metric)`,
    /// creating the series if absent.  Points already stored at the same
    /// timestamp are overwritten (idempotent replay); every other series
    /// is untouched.
    pub fn append(&mut self, slug: &String, metric: &String, points: &Vec<MetricPoint>)
        requires
            old(self).inv(),
            tagged(points@, metric@),
        ensures
            final(self).inv(),
            final(self).map_of(slug@, metric@) == old(self).map_of(
                slug@,
                metric@,
            ).union_prefer_right(pts_map(points@)),
            forall|s2: Seq<char>, m2: Seq<char>|
                !(s2 == slug@ && m2 == metric@) ==> #[trigger] final(self).points_of(s2, m2) == old(
                    self,
                ).points_of(s2, m2),
    {
        let found = self.find(slug, metric);
        let mut pts: Vec<MetricPoint> = match found {
            Some(i) => {
                proof {
                    lemma_points_in_unique(self.series@, (slug@, metric@), i as int);
                }
                clone_points(&self.series[i].points)
            },
            None => Vec::new(),
        };
        let ghost orig: Seq<MetricPoint> = pts@;
        proof {
            if found is None {
                assert(orig =~= Seq::<MetricPoint>::empty());
            }
            assert(orig == old(self).points_of(slug@, metric@));
            assert(points@.take(0) =~= Seq::<MetricPoint>::empty());
            assert(pts_map(orig).union_prefer_right(pts_map(points@.take(0))) =~= pts_map(orig));
        }
        let n = points.len();
        let mut j: usize = 0;
        while j < n
            invariant
                n == points@.len(),
                0 <= j <= n,
                tagged(points@, metric@),
                sorted_strict(pts@),
                tagged(pts@, metric@),
                pts_map(pts@) == pts_map(orig).union_prefer_right(pts_map(points@.take(j as int))),
            decreases n - j,
        {
            let p = points[j].clone();
            proof {
                assert(points@.take(j + 1).drop_last() =~= points@.take(j as int));
                assert(points@.take(j + 1).last() == points@[j as int]);
                assert(pts_map(points@.take(j + 1)) == pts_map(points@.take(j as int)).insert(
                    p.timestamp_sec as int,
                    p.value_bits,
                ));
                assert(pts_map(orig).union_prefer_right(pts_map(points@.take(j + 1))) =~= pts_map(
                    orig,
                ).union_prefer_right(pts_map(points@.take(j as int))).insert(
                    p.timestamp_sec as int,
                    p.value_bits,
                ));
            }
            upsert_point(&mut pts, p);
            j = j + 1;
        }
        proof {
            assert(points@.take(n as int) =~= points@);
        }
        match found {
            Some(i) => {
                let slug2 = self.series[i].slug.clone();
                let metric2 = self.series[i].metric_id.clone();
                proof {
                    assert(tagged(orig, metric@));
                }
                let news = Series { slug: slug2, metric_id: metric2, points: pts };
                proof {
                    assert(skey(news) == (slug@, metric@));
                }
                self.series.set(i, news);
                proof {
                    self.lemma_after_update(*old(self), i as int, slug@, metric@);
                }
            },
            None => {
                let news = Series { slug: slug.clone(), metric_id: metric.clone(), points: pts };
                proof {
                    assert(skey(news) == (slug@, metric@));
                }
                self.series.push(news);
                proof {
                    self.lemma_after_push(*old(self), slug@, metric@);
                }
            },
        }
    }

    /// After replacing the series at `i` (key unchanged), lookups behave
    /// as an update of that key alone.
    proof fn lemma_after_update(self, prev: MetricsStore, i: int, slug: Seq<char>, metric: Seq<char>)
        requires
            prev.inv(),
            0 <= i < prev.series@.len(),
            skey(prev.series@[i]) == (slug, metric),
            self.series@ == prev.series@.update(i, self.series@[i]),
            skey(self.series@[i]) == (slug, metric),
            sorted_strict(self.series@[i].points@),
            tagged(self.series@[i].points@, metric),
        ensures
            self.inv(),
            self.points_of(slug, metric) == self.series@[i].points@,
            forall|s2: Seq<char>, m2: Seq<char>|
                !(s2 == slug && m2 == metric) ==> #[trigger] self.points_of(s2, m2)
                    == prev.points_of(s2, m2),
    {
        let v = self.series@;
        let w = prev.series@;
        assert forall|p: int, q: int| 0 <= p < q < v.len() implies skey(#[trigger] v[p]) != skey(
            #[trigger] v[q],
        ) by {
            assert(skey(w[p]) != skey(w[q]));
            if p == i {
                assert(skey(v[p]) == skey(w[p]));
            }
            if q == i {
                assert(skey(v[q]) == skey(w[q]));
            }
        }
        lemma_points_in_unique(v, (slug, metric), i);
        assert forall|s2: Seq<char>, m2: Seq<char>| !(s2 == slug && m2 == metric) implies #[trigger] self
            .points_of(s2, m2) == prev.points_of(s2, m2) by {
            let k = (s2, m2);
            if has_key(w, k) {
                let j = key_index(w, k);
                assert(skey(w[j]) == k);
                assert(j != i);
                assert(skey(v[j]) == k);
                lemma_points_in_unique(v, k, j);
                lemma_points_in_unique(w, k, j);
            } else {
                if has_key(v, k) {
                    let j = key_index(v, k);
                    assert(skey(v[j]) == k);
                    assert(j != i);
                    assert(skey(w[j]) == k);
                }
            }
        }
    }

    /// After pushing a series with a fresh key, lookups behave as an
    /// insertion of that key alone.
    proof fn lemma_after_push(self, prev: MetricsStore, slug: Seq<char>, metric: Seq<char>)
        requires
            prev.inv(),
            !has_key(prev.series@, (slug, metric)),
            self.series@ == prev.series@.push(self.series@.last()),
            skey(self.series@.last()) == (slug, metric),
            sorted_strict(self.series@.last().points@),
            tagged(self.series@.last().points@, metric),
        ensures
            self.inv(),
            self.points_of(slug, metric) == self.series@.last().points@,
            forall|s2: Seq<char>, m2: Seq<char>|
                !(s2 == slug && m2 == metric) ==> #[trigger] self.points_of(s2, m2)
                    == prev.points_of(s2, m2),
    {
        let v = self.series@;
        let w = prev.series@;
        let n = w.len();
        assert forall|p: int, q: int| 0 <= p < q < v.len() implies skey(#[trigger] v[p]) != skey(
            #[trigger] v[q],
        ) by {
            if q < n {
                assert(skey(w[p]) != skey(w[q]));
            } else {
                assert(v[p] == w[p]);
                if skey(v[p]) == (slug, metric) {
                    assert(has_key(w, (slug, metric)));
                }
            }
        }
        assert(forall|p: int| 0 <= p < n ==> v[p] == #[trigger] w[p]);
        lemma_points_in_unique(v, (slug, metric), n as int);
        assert forall|s2: Seq<char>, m2: Seq<char>| !(s2 == slug && m2 == metric) implies #[trigger] self
            .points_of(s2, m2) == prev.points_of(s2, m2) by {
            let k = (s2, m2);
            if has_key(w, k) {
                let j = key_index(w, k);
                assert(skey(v[j]) == k);
                lemma_points_in_unique(v, k, j);
                lemma_points_in_unique(w, k, j);
            } else {
                if has_key(v, k) {
                    let j = key_index(v, k);
                    assert(skey(v[j]) == k);
                    if j < n {
                        assert(skey(w[j]) == k);
                    }
                }
            }
        }
    }
}

/// Whether a point falls in the queried window: the single timestamp
/// `from` when `to` is `None`, the inclusive range `[from, to]` otherwise.
pub open spec fn point_window(from: i64, to: Option<i64>) -> spec_fn(MetricPoint) -> bool {
    |p: MetricPoint|
        match to {
            None => p.timestamp_sec == from,
            Some(t) => from <= p.timestamp_sec <= t,
        }
}

/// On a sorted series, the single-timestamp window selects at most one
/// point: exactly the denoted map's entry at that timestamp.
proof fn lemma_single_filter(s: Seq<MetricPoint>, ts: i64)
    requires
        sorted_strict(s),
    ensures
        ({
            let f = s.filter(point_window(ts, None));
            &&& f.len() <= 1
            &&& (f.len() == 1 <==> pts_map(s).dom().contains(ts as int))
            &&& (f.len() == 1 ==> f[0].timestamp_sec == ts && f[0].value_bits == pts_map(s)[ts as int])
        }),
    decreases s.len(),
{
    reveal(Seq::filter);
    let pred = point_window(ts, None);
    lemma_pts_map_dom(s);
    if s.len() == 0 {
    } else {
        let t = s.drop_last();
        lemma_single_filter(t, ts);
        lemma_pts_map_dom(t);
        let f = s.filter(pred);
        let ft = t.filter(pred);
        assert(pts_map(s) == pts_map(t).insert(
            s.last().timestamp_sec as int,
            s.last().value_bits,
        ));
        if pred(s.last()) {
            assert(!has_ts(t, ts as int)) by {
                if has_ts(t, ts as int) {
                    let i = choose|i: int|
                        0 <= i < t.len() && (#[trigger] t[i]).timestamp_sec == ts as int;
                    assert(s[i].timestamp_sec < s[s.len() - 1].timestamp_sec);
                }
            }
            assert(ft.len() == 0);
            assert(f == ft.push(s.last()));
            assert(f[0] == s.last());
            assert(pts_map(s)[ts as int] == s.last().value_bits);
        } else {
            assert(f == ft);
            assert(s.last().timestamp_sec != ts);
            if pts_map(s).dom().contains(ts as int) {
                assert(pts_map(t).dom().contains(ts as int));
                assert(pts_map(s)[ts as int] == pts_map(t)[ts as int]);
            }
        }
    }
}

impl MetricsStore {
    /// Returns the stored points of `(slug, metric)` in the window: the
    /// single point at `from_sec` when `to_sec` is `None` (empty when
    /// there is none — never an error), otherwise every point with
    /// `from_sec <= timestamp_sec <= to_sec`.  The result is ascending by
    /// timestamp whatever `sorted` says, because storage is kept sorted.
    #[allow(unused_variables)]
    pub fn query(
        &self,
        slug: &String,
        metric: &String,
        from_sec: i64,
        to_sec: Option<i64>,
        sorted: bool,
    ) -> (r: Vec<MetricPoint>)
        requires
            self.inv(),
        ensures
            r@ == self.points_of(slug@, metric@).filter(point_window(from_sec, to_sec)),
            sorted_strict(r@),
            tagged(r@, metric@),
            to_sec is None ==> {
                &&& r@.len() <= 1
                &&& (r@.len() == 1 <==> self.map_of(slug@, metric@).dom().contains(from_sec as int))
                &&& (r@.len() == 1 ==> r@[0].timestamp_sec == from_sec && r@[0].value_bits
                    == self.map_of(slug@, metric@)[from_sec as int])
            },
    {
        let ghost pred = point_window(from_sec, to_sec);
        let found = self.find(slug, metric);
        let mut r: Vec<MetricPoint> = Vec::new();
        match found {
            None => {
                proof {
                    reveal(Seq::filter);
                    assert(self.points_of(slug@, metric@) =~= Seq::<MetricPoint>::empty());
                    assert(r@ == self.points_of(slug@, metric@).filter(pred));
                    if to_sec is None {
                        lemma_single_filter(self.points_of(slug@, metric@), from_sec);
                    }
                }
            },
            Some(i) => {
                proof {
                    lemma_points_in_unique(self.series@, (slug@, metric@), i as int);
                }
                let pts = &self.series[i].points;
                let n = pts.len();
                let mut j: usize = 0;
                proof {
                    assert(pts@.take(0) =~= Seq::<MetricPoint>::empty());
                    reveal(Seq::filter);
                }
                while j < n
                    invariant
                        n == pts@.len(),
                        0 <= j <= n,
                        sorted_strict(pts@),
                        tagged(pts@, metric@),
                        pred == point_window(from_sec, to_sec),
                        r@ == pts@.take(j as int).filter(pred),
                        sorted_strict(r@),
                        tagged(r@, metric@),
                    decreases n - j,
                {
                    proof {
                        lemma_filter_take_push(pts@, pred, j as int);
                    }
                    let keep = match to_sec {
                        None => pts[j].timestamp_sec == from_sec,
                        Some(t) => from_sec <= pts[j].timestamp_sec && pts[j].timestamp_sec <= t,
                    };
                    proof {
                        assert(keep == pred(pts@[j as int]));
                    }
                    if keep {
                        proof {
                            assert forall|k: int| 0 <= k < r@.len() implies (
                            #[trigger] r@[k]).timestamp_sec < pts@[j as int].timestamp_sec by {
                                lemma_filter_element_of(pts@.take(j as int), pred, k);
                                let idx = choose|idx: int|
                                    0 <= idx < j && pts@.take(j as int)[idx] == #[trigger] pts@.take(
                                        j as int,
                                    ).filter(pred)[k];
                                assert(pts@[idx].timestamp_sec < pts@[j as int].timestamp_sec);
                            }
                        }
                        r.push(pts[j].clone());
                    }
                    j = j + 1;
                }
                proof {
                    assert(pts@.take(n as int) =~= pts@);
                    if to_sec is None {
                        lemma_single_filter(pts@, from_sec);
                    }
                }
            },
        }
        r
    }
}

/// Copies a point sequence.
fn clone_points(src: &Vec<MetricPoint>) -> (r: Vec<MetricPoint>)
    ensures
        r@ == src@,
{
    let n = src.len();
    let mut r: Vec<MetricPoint> = Vec::new();
    let mut i: usize = 0;
    while i < n
        invariant
            n == src@.len(),
            0 <= i <= n,
            r@ == src@.take(i as int),
        decreases n - i,
    {
        r.push(src[i].clone());
        proof {
            assert(r@ =~= src@.take(i + 1));
        }
        i = i + 1;
    }
    proof {
        assert(src@.take(n as int) =~= src@);
    }
    r
}

/// Inserts one point into a sorted series, overwriting the point at the
/// same timestamp if one exists.
fn upsert_point(pts: &mut Vec<MetricPoint>, p: MetricPoint)
    requires
        sorted_strict(old(pts)@),
    ensures
        sorted_strict(final(pts)@),
        pts_map(final(pts)@) == pts_map(old(pts)@).insert(p.timestamp_sec as int, p.value_bits),
        tagged(old(pts)@, p.metric_id@) ==> tagged(final(pts)@, p.metric_id@),
{
    let n = pts.len();
    let mut i: usize = 0;
    while i < n
        invariant
            n == pts@.len(),
            0 <= i <= n,
            sorted_strict(pts@),
            pts@ == old(pts)@,
            forall|j: int| 0 <= j < i ==> (#[trigger] pts@[j]).timestamp_sec < p.timestamp_sec,
        decreases n - i,
    {
        if pts[i].timestamp_sec == p.timestamp_sec {
            proof {
                lemma_pts_map_update(pts@, i as int, p);
            }
            pts.set(i, p);
            proof {
                assert forall|a: int, b: int| 0 <= a < b < pts@.len() implies (
                #[trigger] pts@[a]).timestamp_sec < (#[trigger] pts@[b]).timestamp_sec by {
                    assert(old(pts)@[a].timestamp_sec < old(pts)@[b].timestamp_sec);
                }
            }
            return ;
        }
        if pts[i].timestamp_sec > p.timestamp_sec {
            proof {
                assert forall|j: int| 0 <= j < pts@.len() implies (
                #[trigger] pts@[j]).timestamp_sec != p.timestamp_sec by {
                    if j >= i {
                        assert(pts@[i as int].timestamp_sec <= pts@[j].timestamp_sec);
                    }
                }
                lemma_pts_map_insert(pts@, i as int, p);
            }
            let ghost before = pts@;
            pts.insert(i, p);
            proof {
                assert forall|a: int, b: int| 0 <= a < b < pts@.len() implies (
                #[trigger] pts@[a]).timestamp_sec < (#[trigger] pts@[b]).timestamp_sec by {
                    if b < i {
                        assert(before[a].timestamp_sec < before[b].timestamp_sec);
                    } else if a > i {
                        assert(before[a - 1].timestamp_sec < before[b - 1].timestamp_sec);
                    } else if a < i && b == i {
                        assert(pts@[a] == before[a]);
                    } else if a == i && b > i {
                        assert(pts@[b] == before[b - 1]);
                        assert(before[i as int].timestamp_sec <= before[b - 1].timestamp_sec);
                    } else if a < i && b > i {
                        assert(pts@[a] == before[a]);
                        assert(pts@[b] == before[b - 1]);
                        assert(before[a].timestamp_sec < before[b - 1].timestamp_sec || a == b - 1);
                        assert(before[i as int].timestamp_sec <= before[b - 1].timestamp_sec);
                    }
                }
            }
            return ;
        }
        i = i + 1;
    }
    proof {
        assert forall|j: int| 0 <= j < pts@.len() implies (
        #[trigger] pts@[j]).timestamp_sec != p.timestamp_sec by {}
        lemma_pts_map_insert(pts@, n as int, p);
        assert(pts@.insert(n as int, p) =~= pts@.push(p));
    }
    pts.push(p);
}

/// Filtering the series vector by a predicate on keys: lookups under a
/// kept key are unchanged, lookups under a removed key become empty.
proof fn lemma_filter_series(
    v: Seq<Series>,
    pred: spec_fn(Series) -> bool,
    keyp: spec_fn((Seq<char>, Seq<char>)) -> bool,
)
    requires
        unique_keys(v),
        forall|s: Series| #[trigger] pred(s) == keyp(skey(s)),
    ensures
        unique_keys(v.filter(pred)),
        forall|i: int| 0 <= i < v.filter(pred).len() ==> v.contains(#[trigger] v.filter(pred)[i]),
        forall|k: (Seq<char>, Seq<char>)| #[trigger] points_in(v.filter(pred), k) == if keyp(k) {
            points_in(v, k)
        } else {
            Seq::<MetricPoint>::empty()
        },
{
    let fv = v.filter(pred);
    assert forall|p: int, q: int| 0 <= p < q < fv.len() implies skey(#[trigger] fv[p]) != skey(
        #[trigger] fv[q],
    ) by {
        lemma_filter_keeps_distinct_keys(v, pred, |s: Series| skey(s), p, q);
    }
    assert forall|i: int| 0 <= i < fv.len() implies v.contains(#[trigger] fv[i]) by {
        lemma_filter_element_of(v, pred, i);
        let j = choose|j: int| 0 <= j < v.len() && v[j] == fv[i];
        assert(v[j] == fv[i]);
    }
    assert forall|k: (Seq<char>, Seq<char>)| #[trigger] points_in(fv, k) == if keyp(k) {
        points_in(v, k)
    } else {
        Seq::<MetricPoint>::empty()
    } by {
        if keyp(k) {
            if has_key(v, k) {
                let i = choose|i: int| 0 <= i < v.len() && skey(#[trigger] v[i]) == k;
                assert(pred(v[i]));
                v.lemma_filter_contains(pred, i);
                let j = choose|j: int| 0 <= j < fv.len() && #[trigger] fv[j] == v[i];
                lemma_points_in_unique(fv, k, j);
                lemma_points_in_unique(v, k, i);
            } else {
                if has_key(fv, k) {
                    let j = choose|j: int| 0 <= j < fv.len() && skey(#[trigger] fv[j]) == k;
                    lemma_filter_element_of(v, pred, j);
                    let i = choose|i: int| 0 <= i < v.len() && v[i] == #[trigger] fv[j];
                    assert(skey(v[i]) == k);
                }
                assert(!has_key(fv, k));
            }
        } else {
            if has_key(fv, k) {
                let j = choose|j: int| 0 <= j < fv.len() && skey(#[trigger] fv[j]) == k;
                v.lemma_filter_pred(pred, j);
            }
            assert(!has_key(fv, k));
        }
    }
}

impl MetricsStore {
    /// Every stored series: its slug, its metric id, and its points in
    /// storage order.  Every non-empty series appears.
    pub fn entries(&self) -> (r: Vec<(String, String, Vec<MetricPoint>)>)
        requires
            self.inv(),
        ensures
            forall|i: int|
                0 <= i < r@.len() ==> (#[trigger] r@[i]).2@ == self.points_of(r@[i].0@, r@[i].1@),
            forall|s2: Seq<char>, m2: Seq<char>|
                #[trigger] self.points_of(s2, m2).len() > 0 ==> exists|i: int|
                    0 <= i < r@.len() && (#[trigger] r@[i]).0@ == s2 && r@[i].1@ == m2,
    {
        let n = self.series.len();
        let mut r: Vec<(String, String, Vec<MetricPoint>)> = Vec::new();
        let mut i: usize = 0;
        while i < n
            invariant
                n == self.series@.len(),
                0 <= i <= n,
                self.inv(),
                r@.len() == i,
                forall|k: int|
                    0 <= k < i ==> {
                        &&& (#[trigger] r@[k]).0@ == self.series@[k].slug@
                        &&& r@[k].1@ == self.series@[k].metric_id@
                        &&& r@[k].2@ == self.series@[k].points@
                    },
            decreases n - i,
        {
            let s = &self.series[i];
            r.push((s.slug.clone(), s.metric_id.clone(), clone_points(&s.points)));
            i = i + 1;
        }
        proof {
            assert forall|k: int| 0 <= k < r@.len() implies (#[trigger] r@[k]).2@
                == self.points_of(r@[k].0@, r@[k].1@) by {
                lemma_points_in_unique(self.series@, (r@[k].0@, r@[k].1@), k);
            }
            assert forall|s2: Seq<char>, m2: Seq<char>|
                #[trigger] self.points_of(s2, m2).len() > 0 implies exists|i: int|
                0 <= i < r@.len() && (#[trigger] r@[i]).0@ == s2 && r@[i].1@ == m2 by {
                assert(has_key(self.series@, (s2, m2)));
                let j = key_index(self.series@, (s2, m2));
                assert(0 <= j < self.series@.len() && skey(self.series@[j]) == (s2, m2));
                assert(r@[j].0@ == s2 && r@[j].1@ == m2);
            }
        }
        r
    }

    /// Removes every stored series whose key fails `keep`; used by the
    /// full-reset paths.  `metric` narrows the removal to one metric of
    /// the slug; `None` removes all the slug's series.
    fn retain_without(&mut self, slug: &String, metric: Option<&String>)
        requires
            old(self).inv(),
        ensures
            final(self).inv(),
            final(self).series@ == old(self).series@.filter(drop_pred(slug@, spec_metric(metric))),
    {
        let ghost gpred = drop_pred(slug@, spec_metric(metric));
        let ghost orig = self.series@;
        let ghost n = orig.len() as int;
        let mut tmp: Vec<Series> = Vec::new();
        while self.series.len() > 0
            invariant
                n == orig.len(),
                self.series@ == orig.take(self.series@.len() as int),
                tmp@.len() + self.series@.len() == n,
                forall|j: int| 0 <= j < tmp@.len() ==> #[trigger] tmp@[j] == orig[n - 1 - j],
            decreases self.series@.len(),
        {
            proof {
                assert(orig.take(self.series@.len() as int).drop_last() =~= orig.take(
                    self.series@.len() - 1,
                ));
            }
            let s = self.series.pop().unwrap();
            tmp.push(s);
        }
        proof {
            reveal(Seq::filter);
            assert(orig.take(0) =~= Seq::<Series>::empty());
            assert(self.series@ == orig.take(n - tmp@.len()).filter(gpred));
        }
        while tmp.len() > 0
            invariant
                n == orig.len(),
                gpred == drop_pred(slug@, spec_metric(metric)),
                forall|j: int| 0 <= j < tmp@.len() ==> #[trigger] tmp@[j] == orig[n - 1 - j],
                tmp@.len() <= n,
                self.series@ == orig.take(n - tmp@.len()).filter(gpred),
            decreases tmp@.len(),
        {
            let ghost m = tmp@.len() as int;
            let s = tmp.pop().unwrap();
            proof {
                assert(s == orig[n - m]);
                lemma_filter_take_push(orig, gpred, n - m);
            }
            let keep = match metric {
                None => !(s.slug == *slug),
                Some(mid) => !(s.slug == *slug && s.metric_id == *mid),
            };
            proof {
                assert(keep == gpred(s));
            }
            if keep {
                self.series.push(s);
            }
        }
        proof {
            assert(orig.take(n) =~= orig);
            lemma_filter_series(orig, gpred, drop_keyp(slug@, spec_metric(metric)));
            assert forall|i: int| 0 <= i < self.series@.len() implies sorted_strict(
                (#[trigger] self.series@[i]).points@,
            ) && tagged(self.series@[i].points@, self.series@[i].metric_id@) by {
                let j = choose|j: int| 0 <= j < orig.len() && orig[j] == #[trigger] self.series@[i];
                assert(sorted_strict(orig[j].points@));
            }
        }
    }

    /// Drops every stored series of `slug` (used only during full reset);
    /// all other assets' series are untouched.
    pub fn drop_all_for(&mut self, slug: &String)
        requires
            old(self).inv(),
        ensures
            final(self).inv(),
            forall|m2: Seq<char>| #[trigger] final(self).points_of(slug@, m2) == Seq::<
                MetricPoint,
            >::empty(),
            forall|s2: Seq<char>, m2: Seq<char>|
                s2 != slug@ ==> #[trigger] final(self).points_of(s2, m2) == old(self).points_of(
                    s2,
                    m2,
                ),
    {
        self.retain_without(slug, None);
        proof {
            lemma_filter_series(
                old(self).series@,
                drop_pred(slug@, spec_metric(None)),
                drop_keyp(slug@, spec_metric(None)),
            );
        }
    }

    /// Drops the single series `(slug, metric)` (used only during full
    /// reset); every other series is untouched.
    pub fn delete_metric(&mut self, slug: &String, metric: &String)
        requires
            old(self).inv(),
        ensures
            final(self).inv(),
            final(self).points_of(slug@, metric@) == Seq::<MetricPoint>::empty(),
            forall|s2: Seq<char>, m2: Seq<char>|
                !(s2 == slug@ && m2 == metric@) ==> #[trigger] final(self).points_of(s2, m2) == old(
                    self,
                ).points_of(s2, m2),
    {
        self.retain_without(slug, Some(metric));
        proof {
            lemma_filter_series(
                old(self).series@,
                drop_pred(slug@, spec_metric(Some(metric))),
                drop_keyp(slug@, spec_metric(Some(metric))),
            );
        }
    }
}

/// The metric restriction of a removal, at the spec level.
spec fn spec_metric(metric: Option<&String>) -> Option<Seq<char>> {
    match metric {
        None => None,
        Some(m) => Some(m@),
    }
}

/// Keeps a series unless it belongs to `slug` (and, when given, carries
/// the metric id `metric`).
spec fn drop_pred(slug: Seq<char>, metric: Option<Seq<char>>) -> spec_fn(Series) -> bool {
    |s: Series|
        match metric {
            None => s.slug@ != slug,
            Some(m) => !(s.slug@ == slug && s.metric_id@ == m),
        }
}

/// The same predicate, on keys.
spec fn drop_keyp(slug: Seq<char>, metric: Option<Seq<char>>) -> spec_fn(
    (Seq<char>, Seq<char>),
) -> bool {
    |k: (Seq<char>, Seq<char>)|
        match metric {
            None => k.0 != slug,
            Some(m) => !(k.0 == slug && k.1 == m),
        }
}

/// Replaying a batch of points is idempotent: merging the same batch into
/// a series map a second time leaves the map as after the first merge.
pub proof fn lemma_upsert_batch_idempotent(m: Map<int, u64>, q: Map<int, u64>)
    ensures
        m.union_prefer_right(q).union_prefer_right(q) == m.union_prefer_right(q),
{
    assert(m.union_prefer_right(q).union_prefer_right(q) =~= m.union_prefer_right(q));
}

} // verus!
