//! The arg-max decision: which class wins a row.

use vstd::prelude::*;

verus! {

/// Whether `k` is the first position of the greatest of `ranks`.
pub open spec fn is_first_max(ranks: Seq<i64>, k: int) -> bool {
    &&& 0 <= k < ranks.len()
    &&& forall|j: int| 0 <= j < ranks.len() ==> ranks[j] <= ranks[k]
    &&& forall|j: int| 0 <= j < k ==> ranks[j] < ranks[k]
}

/// A sequence has at most one first maximum.
pub proof fn lemma_first_max_unique(ranks: Seq<i64>, a: int, b: int)
    requires
        is_first_max(ranks, a),
        is_first_max(ranks, b),
    ensures
        a == b,
{
    if a < b {
        assert(ranks[a] < ranks[b]);
        assert(ranks[b] <= ranks[a]);
    } else if b < a {
        assert(ranks[b] < ranks[a]);
        assert(ranks[a] <= ranks[b]);
    }
}

/// The first position of the greatest of `ranks`: among equal ranks the
/// earliest wins. `None` exactly when there are no ranks.
pub fn first_max(ranks: &Vec<i64>) -> (best: Option<usize>)
    ensures
        match best {
            Some(k) => is_first_max(ranks@, k as int),
            None => ranks.len() == 0,
        },
{
    if ranks.len() == 0 {
        return None;
    }
    let mut best: usize = 0;
    let mut k: usize = 1;
    while k < ranks.len()
        invariant
            1 <= k <= ranks.len(),
            is_first_max(ranks@.take(k as int), best as int),
        decreases ranks.len() - k,
    {
        if ranks[k] > ranks[best] {
            best = k;
        }
        k += 1;
    }
    assert(ranks@.take(ranks.len() as int) =~= ranks@);
    Some(best)
}

} // verus!
