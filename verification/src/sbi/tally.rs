//! Counting how often a hart id occurs in a sequence of hart ids.

use vstd::prelude::*;

verus! {

/// How often `id` occurs in `ids`.
pub open spec fn occurrences(ids: Seq<usize>, id: usize) -> nat
    decreases ids.len(),
{
    if ids.len() == 0 {
        0
    } else {
        occurrences(ids.drop_last(), id) + if ids.last() == id {
            1nat
        } else {
            0nat
        }
    }
}

/// Appending an id raises its own count by one and leaves the others.
pub proof fn lemma_occurrences_push(ids: Seq<usize>, last: usize, id: usize)
    ensures
        occurrences(ids.push(last), id) == occurrences(ids, id) + if last == id {
            1nat
        } else {
            0nat
        },
{
    assert(ids.push(last).drop_last() == ids);
}

/// An id occurs in a sequence exactly when its count is positive.
pub proof fn lemma_occurrences_positive(ids: Seq<usize>, id: usize)
    ensures
        occurrences(ids, id) > 0 <==> ids.contains(id),
    decreases ids.len(),
{
    if ids.len() > 0 {
        let front = ids.drop_last();
        lemma_occurrences_positive(front, id);
        if ids.contains(id) {
            let k = choose|k: int| 0 <= k < ids.len() && ids[k] == id;
            if k < ids.len() - 1 {
                assert(front[k] == id);
            }
        }
        if front.contains(id) {
            let k = choose|k: int| 0 <= k < front.len() && front[k] == id;
            assert(ids[k] == id);
        }
        if ids.last() == id {
            assert(ids[ids.len() - 1] == id);
        }
    }
}

/// The count over a concatenation is the sum of the counts.
pub proof fn lemma_occurrences_concat(front: Seq<usize>, back: Seq<usize>, id: usize)
    ensures
        occurrences(front + back, id) == occurrences(front, id) + occurrences(back, id),
    decreases back.len(),
{
    if back.len() == 0 {
        assert(front + back == front);
    } else {
        assert((front + back).drop_last() == front + back.drop_last());
        lemma_occurrences_concat(front, back.drop_last(), id);
    }
}

} // verus!
