//! Small general lemmas about `Seq::filter` that several modules share.
use vstd::prelude::*;

verus! {

/// Filtering one more element onto a filtered prefix: the result grows by
/// `s[i]` exactly when the predicate holds of it.
pub proof fn lemma_filter_take_push<A>(s: Seq<A>, pred: spec_fn(A) -> bool, i: int)
    requires
        0 <= i < s.len(),
    ensures
        s.take(i + 1).filter(pred) == if pred(s[i]) {
            s.take(i).filter(pred).push(s[i])
        } else {
            s.take(i).filter(pred)
        },
{
    reveal(Seq::filter);
    assert(s.take(i + 1).drop_last() =~= s.take(i));
    assert(s.take(i + 1).last() == s[i]);
}

/// Every element of a filtered sequence is an element of the original.
pub proof fn lemma_filter_element_of<A>(s: Seq<A>, pred: spec_fn(A) -> bool, i: int)
    requires
        0 <= i < s.filter(pred).len(),
    ensures
        exists|k: int| 0 <= k < s.len() && s[k] == #[trigger] s.filter(pred)[i],
    decreases s.len(),
{
    reveal(Seq::filter);
    if s.len() == 0 {
    } else {
        let t = s.drop_last();
        if pred(s.last()) {
            if i < t.filter(pred).len() {
                lemma_filter_element_of(t, pred, i);
                let k = choose|k: int| 0 <= k < t.len() && t[k] == t.filter(pred)[i];
                assert(s[k] == t[k]);
            } else {
                assert(s.filter(pred)[i] == s.last());
                assert(s[s.len() - 1] == s.last());
            }
        } else {
            lemma_filter_element_of(t, pred, i);
            let k = choose|k: int| 0 <= k < t.len() && t[k] == t.filter(pred)[i];
            assert(s[k] == t[k]);
        }
    }
}

/// If some key is pairwise distinct over a sequence, it stays pairwise
/// distinct over any filtered subsequence.
pub proof fn lemma_filter_keeps_distinct_keys<A, K>(
    s: Seq<A>,
    pred: spec_fn(A) -> bool,
    key: spec_fn(A) -> K,
    i: int,
    j: int,
)
    requires
        forall|p: int, q: int| 0 <= p < q < s.len() ==> key(#[trigger] s[p]) != key(#[trigger] s[q]),
        0 <= i < j < s.filter(pred).len(),
    ensures
        key(s.filter(pred)[i]) != key(s.filter(pred)[j]),
    decreases s.len(),
{
    reveal(Seq::filter);
    if s.len() == 0 {
    } else {
        let t = s.drop_last();
        assert(forall|p: int, q: int|
            0 <= p < q < t.len() ==> key(#[trigger] t[p]) != key(#[trigger] t[q])) by {
            assert(forall|p: int| 0 <= p < t.len() ==> t[p] == s[p]);
        }
        if pred(s.last()) {
            if j < t.filter(pred).len() {
                lemma_filter_keeps_distinct_keys(t, pred, key, i, j);
            } else {
                assert(j == t.filter(pred).len());
                assert(s.filter(pred)[j] == s.last());
                assert(s.filter(pred)[i] == t.filter(pred)[i]);
                lemma_filter_element_of(t, pred, i);
                let k = choose|k: int| 0 <= k < t.len() && t[k] == #[trigger] t.filter(pred)[i];
                assert(s[k] == t[k]);
                assert(key(s[k]) != key(s[s.len() - 1]));
            }
        } else {
            lemma_filter_keeps_distinct_keys(t, pred, key, i, j);
        }
    }
}

} // verus!
