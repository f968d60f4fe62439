//! The synchronization engine.
//!
//! A run — full reset (`init`) or incremental (`update`) — is driven step
//! by step, because each asset's data comes from the network:
//!
//! 1. (`init` only) `begin_init`: drop every registered asset's stored
//!    series and reset the registry.
//! 2. `filter_candidates`: remove quarantined slugs from the fetched
//!    universe.
//! 3. `register_candidates`: carry registered assets forward, register
//!    new ones with the never-synchronized watermark.
//! 4. Per asset, `fetch_window`: the incremental window to fetch, or
//!    nothing when the watermark already reaches the target date.
//! 5. Per asset, after the driver ran the fetch protocol:
//!    `apply_fetch_success` (store the series, widen the watermark) or
//!    `apply_fetch_failure` (quarantine the asset).  A failure never
//!    touches any other asset's state, so one bad asset cannot abort a
//!    batch.
use vstd::prelude::*;
use crate::SECONDS_PER_DAY;
use crate::dates::day_sec_of;
use crate::dates::parse_day_sec;
use crate::fetch::TimeSeries;
use crate::ignore::IgnoreList;
use crate::registry::Asset;
use crate::registry::AssetRegistry;
use crate::registry::has_slug;
use crate::registry::upserted;
use crate::registry::widen;
use crate::registry::without_slug;
use crate::seqext::lemma_filter_element_of;
use crate::seqext::lemma_filter_take_push;
use crate::store::MetricPoint;
use crate::store::MetricsStore;
use crate::store::lemma_upsert_batch_idempotent;
use crate::store::pts_map;

verus! {

/// A caller error of a date-taking engine operation.
#[derive(PartialEq, Eq, Structural, Clone, Copy, Debug)]
pub enum SyncError {
    /// The supplied date is not a valid `YYYY-MM-DD` calendar date.
    BadDate,
}

/// Keeps every slug that is not quarantined in `ig`.
pub open spec fn not_ignored(ig: Set<Seq<char>>) -> spec_fn(String) -> bool {
    |s: String| !ig.contains(s@)
}

/// The window to fetch for an asset whose watermark ends at `last`: from
/// the day after the watermark (or from the configured observation start,
/// for a never-synchronized asset) up to the target date — or nothing,
/// when that range is empty.
pub open spec fn fetch_window_spec(last: int, obs_start: int, as_of: int) -> Option<(int, int)> {
    let from = if last == 0 {
        obs_start
    } else {
        last + SECONDS_PER_DAY as int
    };
    if from > as_of {
        None
    } else {
        Some((from, as_of))
    }
}

/// The synchronization engine: the three state components and the two
/// configuration values it decides with.
pub struct SyncEngine {
    pub registry: AssetRegistry,
    pub store: MetricsStore,
    pub ignore: IgnoreList,
    /// How many top-ranked assets to track (drives universe pagination).
    pub rank_limit: u32,
    /// Earliest date to backfill for a never-synchronized asset.
    pub observation_start_sec: i64,
}

impl SyncEngine {
    /// The engine invariant: both stores are internally consistent, the
    /// configuration is usable, and no registered asset is quarantined.
    pub open spec fn inv(self) -> bool {
        &&& self.registry.inv()
        &&& self.store.inv()
        &&& 1 <= self.rank_limit
        &&& 0 < self.observation_start_sec
        &&& forall|i: int|
            0 <= i < self.registry@.len() ==> !self.ignore@.contains(
                (#[trigger] self.registry@[i]).slug@,
            )
    }

    /// A fresh engine with empty state.  The configuration is validated
    /// here once — a missing or unusable configuration is a startup
    /// condition, not a per-run error.
    pub fn new(rank_limit: u32, observation_start_sec: i64) -> (r: SyncEngine)
        requires
            1 <= rank_limit,
            0 < observation_start_sec,
        ensures
            r.inv(),
            r.registry@ == Seq::<Asset>::empty(),
            r.ignore@ == Set::<Seq<char>>::empty(),
            forall|s2: Seq<char>, m2: Seq<char>| #[trigger] r.store.points_of(s2, m2) == Seq::<
                MetricPoint,
            >::empty(),
            r.rank_limit == rank_limit,
            r.observation_start_sec == observation_start_sec,
    {
        SyncEngine {
            registry: AssetRegistry::new(),
            store: MetricsStore::new(),
            ignore: IgnoreList::new(),
            rank_limit,
            observation_start_sec,
        }
    }

    /// Full-reset preamble: drops every registered asset's stored series
    /// and empties the registry.  Series of slugs that were not registered
    /// (and the quarantine) are untouched.
    pub fn begin_init(&mut self)
        requires
            old(self).inv(),
        ensures
            final(self).inv(),
            final(self).registry@ == Seq::<Asset>::empty(),
            final(self).ignore@ == old(self).ignore@,
            final(self).rank_limit == old(self).rank_limit,
            final(self).observation_start_sec == old(self).observation_start_sec,
            forall|s2: Seq<char>, m2: Seq<char>| #[trigger] final(self).store.points_of(s2, m2)
                == if has_slug(old(self).registry@, s2) {
                Seq::<MetricPoint>::empty()
            } else {
                old(self).store.points_of(s2, m2)
            },
    {
        let n = self.registry.len();
        let mut i: usize = 0;
        while i < n
            invariant
                n == self.registry@.len(),
                0 <= i <= n,
                self.registry == old(self).registry,
                self.ignore == old(self).ignore,
                self.rank_limit == old(self).rank_limit,
                self.observation_start_sec == old(self).observation_start_sec,
                self.registry.inv(),
                self.store.inv(),
                forall|s2: Seq<char>, m2: Seq<char>| #[trigger] self.store.points_of(s2, m2)
                    == if has_slug(self.registry@.take(i as int), s2) {
                    Seq::<MetricPoint>::empty()
                } else {
                    old(self).store.points_of(s2, m2)
                },
            decreases n - i,
        {
            let slug = self.registry.assets()[i].slug.clone();
            let ghost pre_store = self.store;
            self.store.drop_all_for(&slug);
            proof {
                let reg = self.registry@;
                assert forall|s2: Seq<char>, m2: Seq<char>| #[trigger] self.store.points_of(s2, m2)
                    == if has_slug(reg.take(i + 1), s2) {
                    Seq::<MetricPoint>::empty()
                } else {
                    old(self).store.points_of(s2, m2)
                } by {
                    if s2 == slug@ {
                        assert(reg.take(i + 1)[i as int].slug@ == s2);
                        assert(has_slug(reg.take(i + 1), s2));
                    } else {
                        assert(self.store.points_of(s2, m2) == pre_store.points_of(s2, m2));
                        if has_slug(reg.take(i + 1), s2) {
                            let j = choose|j: int|
                                0 <= j < i + 1 && (#[trigger] reg.take(i + 1)[j]).slug@ == s2;
                            assert(j < i);
                            assert(reg.take(i as int)[j].slug@ == s2);
                            assert(has_slug(reg.take(i as int), s2));
                        } else {
                            if has_slug(reg.take(i as int), s2) {
                                let j = choose|j: int|
                                    0 <= j < i && (#[trigger] reg.take(i as int)[j]).slug@ == s2;
                                assert(reg.take(i + 1)[j].slug@ == s2);
                            }
                        }
                    }
                }
            }
            i = i + 1;
        }
        proof {
            assert(self.registry@.take(n as int) =~= self.registry@);
        }
        self.registry.drop_all();
    }

    /// Universe filtering: keeps the fetched slugs that are not
    /// quarantined, in order.
    pub fn filter_candidates(&self, universe: &Vec<String>) -> (r: Vec<String>)
        ensures
            r@ == universe@.filter(not_ignored(self.ignore@)),
            forall|j: int| 0 <= j < r@.len() ==> !self.ignore@.contains((#[trigger] r@[j])@),
    {
        let ghost pred = not_ignored(self.ignore@);
        let n = universe.len();
        let mut r: Vec<String> = Vec::new();
        let mut i: usize = 0;
        proof {
            assert(universe@.take(0) =~= Seq::<String>::empty());
            reveal(Seq::filter);
        }
        while i < n
            invariant
                n == universe@.len(),
                0 <= i <= n,
                pred == not_ignored(self.ignore@),
                r@ == universe@.take(i as int).filter(pred),
            decreases n - i,
        {
            proof {
                lemma_filter_take_push(universe@, pred, i as int);
            }
            if !self.ignore.contains(&universe[i]) {
                r.push(universe[i].clone());
            }
            i = i + 1;
        }
        proof {
            assert(universe@.take(n as int) =~= universe@);
            assert forall|j: int| 0 <= j < r@.len() implies !self.ignore@.contains(
                (#[trigger] r@[j])@,
            ) by {
                universe@.lemma_filter_pred(pred, j);
            }
        }
        r
    }

    /// Registers every candidate that is not yet registered, with the
    /// never-synchronized watermark `(0, 0)`; already-registered
    /// candidates keep their record (and so carry their watermark
    /// forward).
    pub fn register_candidates(&mut self, candidates: &Vec<String>)
        requires
            old(self).inv(),
            forall|j: int|
                0 <= j < candidates@.len() ==> !old(self).ignore@.contains(
                    (#[trigger] candidates@[j])@,
                ),
        ensures
            final(self).inv(),
            final(self).store == old(self).store,
            final(self).ignore == old(self).ignore,
            final(self).rank_limit == old(self).rank_limit,
            final(self).observation_start_sec == old(self).observation_start_sec,
            old(self).registry@.len() <= final(self).registry@.len(),
            forall|i: int|
                0 <= i < old(self).registry@.len() ==> final(self).registry@[i] == #[trigger] old(
                    self,
                ).registry@[i],
            forall|j: int|
                0 <= j < candidates@.len() ==> has_slug(
                    final(self).registry@,
                    (#[trigger] candidates@[j])@,
                ),
            forall|i: int|
                old(self).registry@.len() <= i < final(self).registry@.len() ==> {
                    &&& (#[trigger] final(self).registry@[i]).first_entry_sec == 0
                    &&& final(self).registry@[i].last_update_sec == 0
                    &&& !has_slug(old(self).registry@, final(self).registry@[i].slug@)
                    &&& exists|j: int|
                        0 <= j < candidates@.len() && (#[trigger] candidates@[j])@
                            == final(self).registry@[i].slug@
                },
    {
        let n = candidates.len();
        let mut k: usize = 0;
        while k < n
            invariant
                n == candidates@.len(),
                0 <= k <= n,
                self.store == old(self).store,
                self.ignore == old(self).ignore,
                self.rank_limit == old(self).rank_limit,
                self.observation_start_sec == old(self).observation_start_sec,
                self.registry.inv(),
                forall|j: int|
                    0 <= j < candidates@.len() ==> !old(self).ignore@.contains(
                        (#[trigger] candidates@[j])@,
                    ),
                old(self).registry@.len() <= self.registry@.len(),
                forall|i: int|
                    0 <= i < old(self).registry@.len() ==> self.registry@[i] == #[trigger] old(
                        self,
                    ).registry@[i],
                forall|j: int|
                    0 <= j < k ==> has_slug(self.registry@, (#[trigger] candidates@[j])@),
                forall|i: int|
                    old(self).registry@.len() <= i < self.registry@.len() ==> {
                        &&& (#[trigger] self.registry@[i]).first_entry_sec == 0
                        &&& self.registry@[i].last_update_sec == 0
                        &&& !has_slug(old(self).registry@, self.registry@[i].slug@)
                        &&& exists|j: int|
                            0 <= j < candidates@.len() && (#[trigger] candidates@[j])@
                                == self.registry@[i].slug@
                    },
                forall|i: int|
                    0 <= i < self.registry@.len() ==> !self.ignore@.contains(
                        (#[trigger] self.registry@[i]).slug@,
                    ),
            decreases n - k,
        {
            let ghost pre = self.registry@;
            let cand = &candidates[k];
            match self.registry.get(cand) {
                Some(_) => {},
                None => {
                    self.registry.insert_new(
                        Asset { slug: cand.clone(), first_entry_sec: 0, last_update_sec: 0 },
                    );
                    proof {
                        assert(self.registry@[self.registry@.len() - 1].slug@ == candidates@[
                            k as int]@);
                        assert forall|j: int| 0 <= j < k implies has_slug(
                            self.registry@,
                            (#[trigger] candidates@[j])@,
                        ) by {
                            let w = choose|w: int|
                                0 <= w < pre.len() && (#[trigger] pre[w]).slug@ == candidates@[j]@;
                            assert(self.registry@[w].slug@ == candidates@[j]@);
                        }
                    }
                },
            }
            proof {
                assert(has_slug(self.registry@, candidates@[k as int]@));
            }
            k = k + 1;
        }
    }

    /// The window to fetch for `asset` up to `as_of_sec`; `None` when the
    /// watermark, advanced by one day, already passes the target date.
    pub fn fetch_window(&self, asset: &Asset, as_of_sec: i64) -> (r: Option<(i64, i64)>)
        ensures
            ({
                let w = fetch_window_spec(
                    asset.last_update_sec as int,
                    self.observation_start_sec as int,
                    as_of_sec as int,
                );
                match r {
                    Some(p) => w == Some((p.0 as int, p.1 as int)),
                    None => w is None,
                }
            }),
    {
        let from: i64 = if asset.last_update_sec == 0 {
            self.observation_start_sec
        } else {
            match asset.last_update_sec.checked_add(SECONDS_PER_DAY) {
                Some(f) => f,
                None => {
                    return None;
                },
            }
        };
        if from > as_of_sec {
            None
        } else {
            Some((from, as_of_sec))
        }
    }

    /// The same window for a target date given as a `YYYY-MM-DD` string;
    /// a malformed date is a caller error.
    pub fn fetch_window_by_date(&self, asset: &Asset, as_of_date: &String) -> (r: Result<
        Option<(i64, i64)>,
        SyncError,
    >)
        ensures
            match day_sec_of(as_of_date@) {
                None => r == Err::<Option<(i64, i64)>, SyncError>(SyncError::BadDate),
                Some(as_of) => {
                    let w = fetch_window_spec(
                        asset.last_update_sec as int,
                        self.observation_start_sec as int,
                        as_of,
                    );
                    match r {
                        Ok(Some(p)) => w == Some((p.0 as int, p.1 as int)),
                        Ok(None) => w is None,
                        Err(_) => false,
                    }
                },
            },
    {
        match parse_day_sec(as_of_date) {
            None => Err(SyncError::BadDate),
            Some(as_of_sec) => Ok(self.fetch_window(asset, as_of_sec)),
        }
    }

    /// Applies a successful fetch: upserts the fetched points into the
    /// store under the series' own slug and widens that asset's watermark
    /// to cover the observed range.  Nothing else — no other asset's
    /// series or record, and not the quarantine — changes.
    pub fn apply_fetch_success(&mut self, series: &TimeSeries)
        requires
            old(self).inv(),
            series.wf(),
            !old(self).ignore@.contains(series.asset_slug@),
        ensures
            final(self).inv(),
            final(self).ignore == old(self).ignore,
            final(self).rank_limit == old(self).rank_limit,
            final(self).observation_start_sec == old(self).observation_start_sec,
            final(self).store.map_of(series.asset_slug@, series.metric_id@) == old(
                self,
            ).store.map_of(
                series.asset_slug@,
                series.metric_id@,
            ).union_prefer_right(pts_map(series.points@)),
            forall|s2: Seq<char>, m2: Seq<char>|
                !(s2 == series.asset_slug@ && m2 == series.metric_id@)
                    ==> #[trigger] final(self).store.points_of(s2, m2) == old(self).store.points_of(
                    s2,
                    m2,
                ),
            has_slug(final(self).registry@, series.asset_slug@),
            upserted(
                old(self).registry@,
                final(self).registry@,
                series.asset_slug@,
                series.observed_min_sec as int,
                series.observed_max_sec as int,
            ),
    {
        let slug = &series.asset_slug;
        self.store.append(slug, &series.metric_id, &series.points);
        self.registry.upsert(slug, series.observed_min_sec, series.observed_max_sec);
        proof {
            let pre = old(self).registry@;
            let post = self.registry@;
            assert forall|i: int| 0 <= i < post.len() implies !self.ignore@.contains(
                (#[trigger] post[i]).slug@,
            ) by {
                if has_slug(pre, slug@) {
                    if pre[i].slug@ == slug@ {
                        assert(post[i].slug@ == slug@);
                    } else {
                        assert(post[i] == pre[i]);
                    }
                } else {
                    if i < pre.len() {
                        assert(post[i] == pre[i]);
                    } else {
                        assert(post[i].slug@ == slug@);
                    }
                }
            }
        }
    }

    /// Applies a failed fetch: quarantines the asset and removes it from
    /// the registry.  The stored series (of this and every other asset)
    /// and every other record are untouched, so the batch goes on.
    pub fn apply_fetch_failure(&mut self, slug: &String)
        requires
            old(self).inv(),
        ensures
            final(self).inv(),
            final(self).store == old(self).store,
            final(self).rank_limit == old(self).rank_limit,
            final(self).observation_start_sec == old(self).observation_start_sec,
            final(self).ignore@ == old(self).ignore@.insert(slug@),
            final(self).registry@ == old(self).registry@.filter(without_slug(slug@)),
            !has_slug(final(self).registry@, slug@),
    {
        self.ignore.add(slug);
        self.registry.delete(slug);
        proof {
            let pre = old(self).registry@;
            let post = self.registry@;
            assert forall|i: int| 0 <= i < post.len() implies !self.ignore@.contains(
                (#[trigger] post[i]).slug@,
            ) by {
                lemma_filter_element_of(pre, without_slug(slug@), i);
                let k = choose|k: int| 0 <= k < pre.len() && pre[k] == post[i];
                assert(!old(self).ignore@.contains(pre[k].slug@));
                pre.lemma_filter_pred(without_slug(slug@), i);
            }
        }
    }
}

/// Idempotent re-sync: applying one and the same successful fetch result
/// twice leaves both the stored series map and the watermark exactly as
/// after the first application — re-played points overwrite themselves,
/// and widening a watermark by an already-covered range changes nothing.
pub proof fn lemma_resync_idempotent(
    m: Map<int, u64>,
    q: Map<int, u64>,
    first: int,
    last: int,
    obs_first: int,
    obs_last: int,
)
    requires
        0 < obs_first <= obs_last,
    ensures
        m.union_prefer_right(q).union_prefer_right(q) == m.union_prefer_right(q),
        ({
            let w = widen(first, last, obs_first, obs_last);
            widen(w.0, w.1, obs_first, obs_last) == w
        }),
{
    lemma_upsert_batch_idempotent(m, q);
}

/// Window-skip correctness: an asset whose watermark ends exactly one day
/// before the target date gets the non-empty one-day window; one whose
/// watermark already reaches the target date is not fetched at all.
pub proof fn lemma_window_skip(last: int, obs_start: int, as_of: int)
    requires
        last != 0,
    ensures
        last == as_of - SECONDS_PER_DAY as int ==> fetch_window_spec(last, obs_start, as_of)
            == Some((as_of, as_of)),
        last == as_of ==> fetch_window_spec(last, obs_start, as_of) is None,
{
}

/// Quarantine exclusivity: under the engine invariant — which every
/// engine operation preserves — a quarantined slug is never present in
/// the registry.
pub proof fn lemma_quarantine_exclusive(e: &SyncEngine, slug: Seq<char>)
    requires
        e.inv(),
        e.ignore@.contains(slug),
    ensures
        !has_slug(e.registry@, slug),
{
    if has_slug(e.registry@, slug) {
        let i = choose|i: int| 0 <= i < e.registry@.len() && (#[trigger] e.registry@[i]).slug@ == slug;
        assert(!e.ignore@.contains(e.registry@[i].slug@));
    }
}

} // verus!
