//! Per-asset watermark records.
//!
//! The registry owns the watermark truth for every tracked asset: the
//! earliest and latest Unix timestamp (seconds) for which data has ever
//! been stored.  `last_update_sec == 0` is the sentinel for an asset that
//! has never been synchronized.
use vstd::prelude::*;
use crate::seqext::lemma_filter_element_of;
use crate::seqext::lemma_filter_keeps_distinct_keys;
use crate::seqext::lemma_filter_take_push;

verus! {

/// A registered asset together with its sync watermark.
pub struct Asset {
    pub slug: String,
    pub first_entry_sec: i64,
    pub last_update_sec: i64,
}

impl Asset {
    /// Well-formedness of a watermark: `last_update_sec == 0` means "never
    /// synchronized" and then `first_entry_sec` is 0 as well; otherwise the
    /// watermark covers a non-empty range of positive timestamps.
    pub open spec fn wf(self) -> bool {
        if self.last_update_sec == 0 {
            self.first_entry_sec == 0
        } else {
            0 < self.first_entry_sec <= self.last_update_sec
        }
    }
}

impl Clone for Asset {
    fn clone(&self) -> (r: Self)
        ensures
            r == *self,
    {
        Asset {
            slug: self.slug.clone(),
            first_entry_sec: self.first_entry_sec,
            last_update_sec: self.last_update_sec,
        }
    }
}

/// The watermark after merging an observed range `[obs_first, obs_last]`
/// into the current watermark `(first, last)`: a fresh assignment for a
/// never-synchronized asset (sentinel `last == 0`), monotonic widening
/// (`min` of the firsts, `max` of the lasts) otherwise.
pub open spec fn widen(first: int, last: int, obs_first: int, obs_last: int) -> (int, int) {
    if last == 0 {
        (obs_first, obs_last)
    } else {
        (
            if obs_first < first {
                obs_first
            } else {
                first
            },
            if obs_last > last {
                obs_last
            } else {
                last
            },
        )
    }
}

/// The watermark after a whole sequence of observed ranges has been merged
/// in, oldest merge first.
pub open spec fn widen_fold(first: int, last: int, obs: Seq<(int, int)>) -> (int, int)
    decreases obs.len(),
{
    if obs.len() == 0 {
        (first, last)
    } else {
        let w = widen_fold(first, last, obs.drop_last());
        widen(w.0, w.1, obs.last().0, obs.last().1)
    }
}

/// Watermark monotonicity: merging any sequence of observed ranges into an
/// already-synchronized watermark never increases `first_entry_sec` and
/// never decreases `last_update_sec`, and keeps the watermark well-formed.
/// (A never-synchronized watermark is assigned, not widened, by its first
/// merge; monotonicity holds from that point on.)
pub proof fn lemma_watermark_monotonic(first: int, last: int, obs: Seq<(int, int)>)
    requires
        0 < first <= last,
        forall|k: int| 0 <= k < obs.len() ==> 0 < (#[trigger] obs[k]).0 <= obs[k].1,
    ensures
        widen_fold(first, last, obs).0 <= first,
        widen_fold(first, last, obs).1 >= last,
        0 < widen_fold(first, last, obs).0 <= widen_fold(first, last, obs).1,
    decreases obs.len(),
{
    if obs.len() > 0 {
        lemma_watermark_monotonic(first, last, obs.drop_last());
    }
}

/// Whether some asset in `s` carries the slug `slug`.
pub open spec fn has_slug(s: Seq<Asset>, slug: Seq<char>) -> bool {
    exists|i: int| 0 <= i < s.len() && s[i].slug@ == slug
}

/// The index of the asset carrying `slug` (meaningful under
/// `has_slug(s, slug)` and slug uniqueness).
pub open spec fn slug_index(s: Seq<Asset>, slug: Seq<char>) -> int {
    choose|i: int| 0 <= i < s.len() && s[i].slug@ == slug
}

/// The asset carrying `slug` (meaningful under `has_slug(s, slug)`).
pub open spec fn asset_at(s: Seq<Asset>, slug: Seq<char>) -> Asset {
    s[slug_index(s, slug)]
}

/// Keeps every asset but the one carrying `slug`.
pub open spec fn without_slug(slug: Seq<char>) -> spec_fn(Asset) -> bool {
    |a: Asset| a.slug@ != slug
}

/// How an upsert of the observed range `[obs_first, obs_last]` under
/// `slug` relates the registry after (`post`) to the registry before
/// (`pre`): a present record is widened in place and every other record
/// is untouched; an absent slug is appended with the observed range as
/// its fresh watermark.
pub open spec fn upserted(
    pre: Seq<Asset>,
    post: Seq<Asset>,
    slug: Seq<char>,
    obs_first: int,
    obs_last: int,
) -> bool {
    if has_slug(pre, slug) {
        &&& post.len() == pre.len()
        &&& forall|j: int|
            0 <= j < pre.len() && (#[trigger] pre[j]).slug@ != slug ==> post[j] == pre[j]
        &&& forall|j: int|
            0 <= j < pre.len() && (#[trigger] pre[j]).slug@ == slug ==> {
                let w = widen(
                    pre[j].first_entry_sec as int,
                    pre[j].last_update_sec as int,
                    obs_first,
                    obs_last,
                );
                &&& post[j].slug@ == slug
                &&& post[j].first_entry_sec == w.0
                &&& post[j].last_update_sec == w.1
            }
    } else {
        &&& post.len() == pre.len() + 1
        &&& forall|j: int| 0 <= j < pre.len() ==> post[j] == #[trigger] pre[j]
        &&& post.last().slug@ == slug
        &&& post.last().first_entry_sec == obs_first
        &&& post.last().last_update_sec == obs_last
    }
}

/// The registry of all tracked assets.  Slugs are unique and every
/// watermark is well-formed.
pub struct AssetRegistry {
    assets: Vec<Asset>,
}

impl View for AssetRegistry {
    type V = Seq<Asset>;

    closed spec fn view(&self) -> Seq<Asset> {
        self.assets@
    }
}

impl AssetRegistry {
    /// Invariant: slugs are pairwise distinct and every record is
    /// well-formed.
    pub open spec fn inv(self) -> bool {
        &&& forall|i: int| 0 <= i < self@.len() ==> (#[trigger] self@[i]).wf()
        &&& forall|i: int, j: int|
            0 <= i < j < self@.len() ==> (#[trigger] self@[i]).slug@ != (#[trigger] self@[j]).slug@
    }

    /// An empty registry.
    pub fn new() -> (r: AssetRegistry)
        ensures
            r@ == Seq::<Asset>::empty(),
            r.inv(),
    {
        AssetRegistry { assets: Vec::new() }
    }

    /// The registered assets, in registration order.
    pub fn assets(&self) -> (r: &Vec<Asset>)
        ensures
            r@ == self@,
    {
        &self.assets
    }

    /// The number of registered assets.
    pub fn len(&self) -> (r: usize)
        ensures
            r == self@.len(),
    {
        self.assets.len()
    }

    /// Looks a slug up; `None` exactly when the slug is not registered.
    pub fn get(&self, slug: &String) -> (r: Option<&Asset>)
        requires
            self.inv(),
        ensures
            match r {
                Some(a) => has_slug(self@, slug@) && *a == asset_at(self@, slug@) && a.slug@
                    == slug@ && a.wf(),
                None => !has_slug(self@, slug@),
            },
    {
        let n = self.assets.len();
        let mut i: usize = 0;
        while i < n
            invariant
                n == self@.len(),
                0 <= i <= n,
                self.inv(),
                forall|j: int| 0 <= j < i ==> (#[trigger] self@[j]).slug@ != slug@,
            decreases n - i,
        {
            if self.assets[i].slug == *slug {
                proof {
                    assert(self@[i as int].slug@ == slug@);
                    let j = slug_index(self@, slug@);
                    assert(0 <= j < self@.len() && self@[j].slug@ == slug@);
                    if j != i {
                        assert(self@[j].slug@ != self@[i as int].slug@);
                    }
                }
                return Some(&self.assets[i]);
            }
            i = i + 1;
        }
        None
    }

    /// Inserts an asset with an explicit watermark; the slug must not be
    /// registered yet.
    pub fn insert_new(&mut self, asset: Asset)
        requires
            old(self).inv(),
            asset.wf(),
            !has_slug(old(self)@, asset.slug@),
        ensures
            final(self)@ == old(self)@.push(asset),
            final(self).inv(),
    {
        self.assets.push(asset);
    }

    /// Merges an observed range into the watermark of `slug`, creating the
    /// record if the slug is absent (then the observed range is the fresh
    /// watermark).  Present records are widened monotonically; all other
    /// records are untouched.
    pub fn upsert(&mut self, slug: &String, obs_first: i64, obs_last: i64)
        requires
            old(self).inv(),
            0 < obs_first <= obs_last,
        ensures
            final(self).inv(),
            has_slug(final(self)@, slug@),
            upserted(old(self)@, final(self)@, slug@, obs_first as int, obs_last as int),
    {
        let n = self.assets.len();
        let mut i: usize = 0;
        while i < n
            invariant
                n == self@.len(),
                0 <= i <= n,
                self.inv(),
                self@ == old(self)@,
                0 < obs_first <= obs_last,
                forall|j: int| 0 <= j < i ==> (#[trigger] self@[j]).slug@ != slug@,
            decreases n - i,
        {
            if self.assets[i].slug == *slug {
                let a = &self.assets[i];
                let new_first: i64 = if a.last_update_sec == 0 {
                    obs_first
                } else if obs_first < a.first_entry_sec {
                    obs_first
                } else {
                    a.first_entry_sec
                };
                let new_last: i64 = if a.last_update_sec == 0 {
                    obs_last
                } else if obs_last > a.last_update_sec {
                    obs_last
                } else {
                    a.last_update_sec
                };
                let slug_copy = self.assets[i].slug.clone();
                self.assets.set(
                    i,
                    Asset { slug: slug_copy, first_entry_sec: new_first, last_update_sec: new_last },
                );
                proof {
                    assert(self@[i as int].slug@ == slug@);
                }
                return ;
            }
            i = i + 1;
        }
        self.assets.push(
            Asset { slug: slug.clone(), first_entry_sec: obs_first, last_update_sec: obs_last },
        );
        proof {
            assert(self@[self@.len() - 1].slug@ == slug@);
        }
    }

    /// Removes the record for `slug` if present; every other record keeps
    /// its place.
    pub fn delete(&mut self, slug: &String)
        requires
            old(self).inv(),
        ensures
            final(self).inv(),
            final(self)@ == old(self)@.filter(without_slug(slug@)),
            !has_slug(final(self)@, slug@),
    {
        let n = self.assets.len();
        let mut kept: Vec<Asset> = Vec::new();
        let mut i: usize = 0;
        while i < n
            invariant
                n == self@.len(),
                0 <= i <= n,
                self.inv(),
                self@ == old(self)@,
                kept@ == self@.take(i as int).filter(without_slug(slug@)),
            decreases n - i,
        {
            proof {
                lemma_filter_take_push(self@, without_slug(slug@), i as int);
            }
            if !(self.assets[i].slug == *slug) {
                kept.push(self.assets[i].clone());
            }
            i = i + 1;
        }
        proof {
            assert(self@.take(n as int) =~= self@);
        }
        self.assets = kept;
        proof {
            let pred = without_slug(slug@);
            let f = old(self)@.filter(pred);
            assert(self@ == f);
            assert forall|i: int| 0 <= i < f.len() implies (#[trigger] f[i]).wf() by {
                lemma_filter_element_of(old(self)@, pred, i);
                let k = choose|k: int| 0 <= k < old(self)@.len() && old(self)@[k] == f[i];
                assert(old(self)@[k].wf());
            }
            assert forall|i: int, j: int| 0 <= i < j < f.len() implies (#[trigger] f[i]).slug@ != (
            #[trigger] f[j]).slug@ by {
                lemma_filter_keeps_distinct_keys(old(self)@, pred, |a: Asset| a.slug@, i, j);
            }
            assert forall|i: int| 0 <= i < f.len() implies (#[trigger] f[i]).slug@ != slug@ by {
                old(self)@.lemma_filter_pred(pred, i);
            }
        }
    }

    /// Empties the registry.
    pub fn drop_all(&mut self)
        ensures
            final(self)@ == Seq::<Asset>::empty(),
            final(self).inv(),
    {
        self.assets = Vec::new();
    }
}

} // verus!
