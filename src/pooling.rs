use vstd::prelude::*;

use crate::batch::{lemma_packed_order, packed_ids, prefix_len, valid_sequences, TokenSequence};
use crate::error::EmbedError;
use crate::segments::{lemma_offsets_ordered, offsets_valid, validate_offsets};

verus! {

/// How the per-token hidden states of a sequence become one vector.
#[derive(Debug, Clone, Copy, PartialEq, Eq, Structural)]
pub enum PoolingMode {
    /// Per-dimension average over the sequence's rows.
    Mean,
    /// The first row of the sequence, verbatim.
    Cls,
    /// Per-dimension maximum over the sequence's rows.
    Max,
    /// Per-dimension maximum of `log(1 + relu(x))` over the sequence's rows.
    Splade,
}

/// The hidden-state rows `[start, end)` that one pooled vector is reduced
/// from. Mean pooling divides by `end - start`.
#[derive(Debug, Clone, Copy, PartialEq, Eq, Structural)]
pub struct PoolWindow {
    pub start: usize,
    pub end: usize,
}

impl PoolWindow {
    /// Number of rows the window covers.
    pub open spec fn rows(self) -> int {
        self.end - self.start
    }
}

/// The window that sequence `k` is pooled from under `mode`.
pub open spec fn window_of(cu: Seq<u32>, k: int, mode: PoolingMode) -> PoolWindow {
    match mode {
        PoolingMode::Cls => PoolWindow { start: cu[k] as usize, end: (cu[k] + 1) as usize },
        _ => PoolWindow { start: cu[k] as usize, end: cu[k + 1] as usize },
    }
}

/// For hidden states of `total_rows` rows packed as `cu` describes, the rows
/// that each sequence's pooled vector is reduced from, in sequence order.
///
/// Fails with `InvariantViolation` exactly when `cu` does not segment
/// `total_rows` rows into non-empty sequences.
pub fn pool_windows(cu: &Vec<u32>, total_rows: usize, mode: PoolingMode) -> (r: Result<
    Vec<PoolWindow>,
    EmbedError,
>)
    ensures
        r is Err <==> !offsets_valid(cu@, total_rows as int),
        r is Err ==> r == Err::<Vec<PoolWindow>, EmbedError>(EmbedError::InvariantViolation),
        r matches Ok(w) ==> {
            &&& w@.len() == cu@.len() - 1
            &&& forall|k: int| 0 <= k < w@.len() ==> #[trigger] w@[k] == window_of(cu@, k, mode)
        },
{
    validate_offsets(cu, total_rows)?;
    let n = cu.len() - 1;
    let mut windows: Vec<PoolWindow> = Vec::new();
    let mut k: usize = 0;
    while k < n
        invariant
            n == cu@.len() - 1,
            offsets_valid(cu@, total_rows as int),
            k <= n,
            windows@.len() == k,
            forall|m: int| 0 <= m < k ==> #[trigger] windows@[m] == window_of(cu@, m, mode),
        decreases n - k,
    {
        let start = cu[k];
        proof {
            lemma_offsets_ordered(cu@, total_rows as int, k as int + 1, n as int);
        }
        let end = match mode {
            PoolingMode::Cls => start + 1,
            _ => cu[k + 1],
        };
        windows.push(PoolWindow { start: start as usize, end: end as usize });
        k = k + 1;
    }
    Ok(windows)
}

/// A one-token sequence is pooled from that single row under every mode, so
/// Mean, Cls, Max and Splade all reduce exactly the same rows.
pub proof fn lemma_single_token_windows_agree(cu: Seq<u32>, total: int, k: int)
    requires
        offsets_valid(cu, total),
        0 <= k < cu.len() - 1,
        cu[k + 1] - cu[k] == 1,
    ensures
        window_of(cu, k, PoolingMode::Mean) == window_of(cu, k, PoolingMode::Cls),
        window_of(cu, k, PoolingMode::Max) == window_of(cu, k, PoolingMode::Cls),
        window_of(cu, k, PoolingMode::Splade) == window_of(cu, k, PoolingMode::Cls),
        window_of(cu, k, PoolingMode::Cls).rows() == 1,
{
}

/// Every window reads inside the hidden states, is non-empty, and a
/// whole-sequence window covers exactly the sequence's own tokens, so Mean
/// divides by the sequence's true length; for those modes consecutive windows
/// meet and together they tile all rows in order.
pub proof fn lemma_windows_tile_rows(cu: Seq<u32>, total: int, mode: PoolingMode, k: int)
    requires
        offsets_valid(cu, total),
        0 <= k < cu.len() - 1,
    ensures
        0 <= window_of(cu, k, mode).start < window_of(cu, k, mode).end <= total,
        window_of(cu, k, mode).start == cu[k],
        mode != PoolingMode::Cls ==> window_of(cu, k, mode).rows() == cu[k + 1] - cu[k],
        mode != PoolingMode::Cls && k + 1 < cu.len() - 1 ==> window_of(cu, k, mode).end
            == window_of(cu, k + 1, mode).start,
        window_of(cu, 0, mode).start == 0,
        mode != PoolingMode::Cls ==> window_of(cu, cu.len() - 2, mode).end == total,
{
    lemma_offsets_ordered(cu, total, k + 1, cu.len() - 1);
    assert(cu[k] < cu[k + 1]);
}

/// Pooling reads back exactly what packing wrote: over the offsets that
/// packing produces, a whole-sequence window of sequence `k` covers as many
/// rows as sequence `k` has tokens, and its row `p` is token `p` of sequence
/// `k`, so pooled vectors come out one per input sequence, in input order.
pub proof fn lemma_windows_read_packed_sequences(
    seqs: Seq<TokenSequence>,
    offset: u32,
    cu: Seq<u32>,
    mode: PoolingMode,
    k: int,
    p: int,
)
    requires
        valid_sequences(seqs, offset),
        cu.len() == seqs.len() + 1,
        forall|j: int| 0 <= j <= seqs.len() ==> #[trigger] cu[j] == prefix_len(seqs, j),
        mode != PoolingMode::Cls,
        0 <= k < seqs.len(),
        0 <= p < seqs[k].ids@.len(),
    ensures
        window_of(cu, k, mode).rows() == seqs[k].ids@.len(),
        window_of(cu, k, mode).start + p < window_of(cu, k, mode).end,
        packed_ids(seqs, seqs.len() as int)[window_of(cu, k, mode).start + p] == seqs[k].ids@[p],
{
    lemma_packed_order(seqs, offset, k, p);
    assert(cu[k] == prefix_len(seqs, k));
    assert(cu[k + 1] == prefix_len(seqs, k + 1));
}

} // verus!
