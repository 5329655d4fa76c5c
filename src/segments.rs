use vstd::prelude::*;

use crate::error::EmbedError;

verus! {

/// `cu` segments `total` tokens into at least one non-empty sequence:
/// it starts at 0, rises strictly, and ends at `total`.
pub open spec fn offsets_valid(cu: Seq<u32>, total: int) -> bool {
    &&& cu.len() >= 2
    &&& cu[0] == 0
    &&& forall|k: int| 0 <= k < cu.len() - 1 ==> #[trigger] cu[k] < cu[k + 1]
    &&& cu[cu.len() - 1] == total
}

/// Token `t` lies in sequence `k`, the half-open range `[cu[k], cu[k + 1])`.
pub open spec fn in_sequence(cu: Seq<u32>, k: int, t: int) -> bool {
    0 <= k < cu.len() - 1 && cu[k] <= t < cu[k + 1]
}

/// Tokens `i` and `j` belong to one and the same sequence.
pub open spec fn same_sequence(cu: Seq<u32>, i: int, j: int) -> bool {
    exists|k: int| in_sequence(cu, k, i) && #[trigger] in_sequence(cu, k, j)
}

/// Strictly rising offsets are ordered for any two indices.
pub proof fn lemma_offsets_ordered(cu: Seq<u32>, total: int, a: int, b: int)
    requires
        offsets_valid(cu, total),
        0 <= a <= b < cu.len(),
    ensures
        cu[a] <= cu[b],
        a < b ==> cu[a] < cu[b],
    decreases b - a,
{
    if a < b {
        lemma_offsets_ordered(cu, total, a, b - 1);
        assert(cu[b - 1] < cu[b]);
    }
}

/// A token lies in at most one sequence.
pub proof fn lemma_sequence_unique(cu: Seq<u32>, total: int, t: int, k1: int, k2: int)
    requires
        offsets_valid(cu, total),
        in_sequence(cu, k1, t),
        in_sequence(cu, k2, t),
    ensures
        k1 == k2,
{
    if k1 < k2 {
        lemma_offsets_ordered(cu, total, k1 + 1, k2);
    } else if k2 < k1 {
        lemma_offsets_ordered(cu, total, k2 + 1, k1);
    }
}

/// Checks that `cu` segments `total` tokens into non-empty sequences.
pub fn validate_offsets(cu: &Vec<u32>, total: usize) -> (r: Result<(), EmbedError>)
    ensures
        r is Ok <==> offsets_valid(cu@, total as int),
        r is Err ==> r == Err::<(), EmbedError>(EmbedError::InvariantViolation),
{
    if cu.len() < 2 || cu[0] != 0 || cu[cu.len() - 1] as usize != total {
        return Err(EmbedError::InvariantViolation);
    }
    let mut k: usize = 0;
    while k < cu.len() - 1
        invariant
            cu@.len() >= 2,
            k <= cu@.len() - 1,
            forall|m: int| 0 <= m < k ==> #[trigger] cu@[m] < cu@[m + 1],
        decreases cu@.len() - k,
    {
        if cu[k] >= cu[k + 1] {
            return Err(EmbedError::InvariantViolation);
        }
        k = k + 1;
    }
    Ok(())
}

/// Index of the sequence that holds token `t`, found by binary search.
pub fn sequence_of_token(cu: &Vec<u32>, total: usize, t: usize) -> (k: usize)
    requires
        offsets_valid(cu@, total as int),
        t < total,
    ensures
        in_sequence(cu@, k as int, t as int),
{
    let mut lo: usize = 0;
    let mut hi: usize = cu.len() - 1;
    while lo + 1 < hi
        invariant
            offsets_valid(cu@, total as int),
            t < total,
            lo < hi < cu@.len(),
            cu@[lo as int] <= t < cu@[hi as int],
        decreases hi - lo,
    {
        let mid = lo + (hi - lo) / 2;
        if cu[mid] as usize <= t {
            lo = mid;
        } else {
            hi = mid;
        }
    }
    lo
}

/// Whether token `i` may attend to token `j` in the packed buffer: exactly when
/// both lie in the same sequence, so no attention crosses a boundary.
pub fn may_attend(cu: &Vec<u32>, total: usize, i: usize, j: usize) -> (r: bool)
    requires
        offsets_valid(cu@, total as int),
        i < total,
        j < total,
    ensures
        r == same_sequence(cu@, i as int, j as int),
{
    let k = sequence_of_token(cu, total, i);
    let n = cu.len();
    assert(k + 1 < n);
    let r = cu[k] as usize <= j && j < cu[k + 1] as usize;
    proof {
        if r {
            assert(in_sequence(cu@, k as int, i as int) && in_sequence(cu@, k as int, j as int));
        } else {
            assert forall|m: int| !(in_sequence(cu@, m, i as int) && #[trigger] in_sequence(cu@, m, j as int)) by {
                if in_sequence(cu@, m, i as int) && in_sequence(cu@, m, j as int) {
                    lemma_sequence_unique(cu@, total as int, i as int, k as int, m);
                }
            }
        }
    }
    r
}

} // verus!
