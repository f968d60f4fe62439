//! Quarantine of permanently unusable assets.
//!
//! Once a slug is added it stays: the engine never auto-removes an entry,
//! and every future universe filtering excludes it.
use vstd::prelude::*;

verus! {

/// The set of quarantined slugs.
pub struct IgnoreList {
    slugs: Vec<String>,
}

impl View for IgnoreList {
    type V = Set<Seq<char>>;

    closed spec fn view(&self) -> Set<Seq<char>> {
        Set::new(
            |x: Seq<char>|
                exists|i: int| 0 <= i < self.slugs@.len() && (#[trigger] self.slugs@[i])@ == x,
        )
    }
}

impl IgnoreList {
    /// An empty quarantine.
    pub fn new() -> (r: IgnoreList)
        ensures
            r@ == Set::<Seq<char>>::empty(),
    {
        let r = IgnoreList { slugs: Vec::new() };
        proof {
            assert(r@ =~= Set::<Seq<char>>::empty());
        }
        r
    }

    /// Quarantines a slug.  Membership of every other slug is untouched;
    /// quarantining twice is the same as quarantining once.
    pub fn add(&mut self, slug: &String)
        ensures
            final(self)@ == old(self)@.insert(slug@),
    {
        if self.contains(slug) {
            proof {
                assert(self@ =~= old(self)@.insert(slug@));
            }
            return ;
        }
        self.slugs.push(slug.clone());
        proof {
            let s_old = old(self).slugs@;
            let s_new = self.slugs@;
            assert forall|x: Seq<char>| #[trigger] self@.contains(x) implies old(self)@.contains(x)
                || x == slug@ by {
                let i = choose|i: int| 0 <= i < s_new.len() && (#[trigger] s_new[i])@ == x;
                if i < s_old.len() {
                    assert(s_old[i]@ == x);
                }
            }
            assert forall|x: Seq<char>| old(self)@.contains(x) || x == slug@ implies #[trigger] self@
                .contains(x) by {
                if old(self)@.contains(x) {
                    let i = choose|i: int| 0 <= i < s_old.len() && (#[trigger] s_old[i])@ == x;
                    assert(s_new[i]@ == x);
                } else {
                    assert(s_new[s_new.len() - 1]@ == x);
                }
            }
            assert(self@ =~= old(self)@.insert(slug@));
        }
    }

    /// The quarantined slugs, one entry per member of the set.
    pub fn slugs(&self) -> (r: &Vec<String>)
        ensures
            forall|i: int| 0 <= i < r@.len() ==> self@.contains((#[trigger] r@[i])@),
            forall|x: Seq<char>| self@.contains(x) ==> exists|i: int|
                0 <= i < r@.len() && (#[trigger] r@[i])@ == x,
    {
        proof {
            assert forall|x: Seq<char>| self@.contains(x) implies exists|i: int|
                0 <= i < self.slugs@.len() && (#[trigger] self.slugs@[i])@ == x by {
                let i = choose|i: int|
                    0 <= i < self.slugs@.len() && (#[trigger] self.slugs@[i])@ == x;
                assert(self.slugs@[i]@ == x);
            }
        }
        &self.slugs
    }

    /// Whether `slug` is quarantined; absence is simply `false`, never an
    /// error.
    pub fn contains(&self, slug: &String) -> (r: bool)
        ensures
            r == self@.contains(slug@),
    {
        let n = self.slugs.len();
        let mut i: usize = 0;
        while i < n
            invariant
                n == self.slugs@.len(),
                0 <= i <= n,
                forall|j: int| 0 <= j < i ==> (#[trigger] self.slugs@[j])@ != slug@,
            decreases n - i,
        {
            if self.slugs[i] == *slug {
                proof {
                    assert((self.slugs@[i as int])@ == slug@);
                }
                return true;
            }
            i = i + 1;
        }
        false
    }
}

} // verus!
