use vstd::prelude::*;

use crate::error::EmbedError;
use crate::segments::{offsets_valid, validate_offsets};

verus! {

/// One tokenized sentence: its token ids and the parallel segment (type) ids.
pub struct TokenSequence {
    pub ids: Vec<u32>,
    pub type_ids: Vec<u32>,
}

/// Sequences packed into flat buffers without padding.
///
/// Sequence `k` occupies positions `[cumulative_seq_lengths[k],
/// cumulative_seq_lengths[k + 1])` of the three token buffers.
pub struct Batch {
    pub input_ids: Vec<u32>,
    pub token_type_ids: Vec<u32>,
    pub position_ids: Vec<u32>,
    pub cumulative_seq_lengths: Vec<u32>,
    pub max_length: u32,
}

/// `m` is the length of the longest sequence that `cu` delimits.
pub open spec fn is_longest(cu: Seq<u32>, m: int) -> bool {
    &&& forall|k: int| 0 <= k < cu.len() - 1 ==> #[trigger] cu[k + 1] - cu[k] <= m
    &&& exists|k: int| 0 <= k < cu.len() - 1 && #[trigger] cu[k + 1] - cu[k] == m
}

impl Batch {
    /// The number of packed sequences.
    pub open spec fn num_sequences(&self) -> int {
        self.cumulative_seq_lengths@.len() - 1
    }

    /// The packing invariant: offsets segment the tokens into non-empty
    /// sequences, the three buffers agree in length, and `max_length` is the
    /// longest sequence.
    pub open spec fn wf(&self) -> bool {
        &&& offsets_valid(self.cumulative_seq_lengths@, self.input_ids@.len() as int)
        &&& self.token_type_ids@.len() == self.input_ids@.len()
        &&& self.position_ids@.len() == self.input_ids@.len()
        &&& is_longest(self.cumulative_seq_lengths@, self.max_length as int)
    }

    /// Checks the packing invariant before the batch is handed to kernels
    /// sized by it; fails with `InvariantViolation` exactly when it is broken.
    pub fn validate(&self) -> (r: Result<(), EmbedError>)
        ensures
            r is Ok <==> self.wf(),
            r is Err ==> r == Err::<(), EmbedError>(EmbedError::InvariantViolation),
    {
        let total = self.input_ids.len();
        validate_offsets(&self.cumulative_seq_lengths, total)?;
        if self.token_type_ids.len() != total || self.position_ids.len() != total {
            return Err(EmbedError::InvariantViolation);
        }
        let cu = &self.cumulative_seq_lengths;
        let n = cu.len() - 1;
        let mut longest: u32 = 0;
        let mut k: usize = 0;
        while k < n
            invariant
                n == cu@.len() - 1,
                offsets_valid(cu@, total as int),
                k <= n,
                forall|m: int| 0 <= m < k ==> #[trigger] cu@[m + 1] - cu@[m] <= longest,
                k == 0 ==> longest == 0,
                k > 0 ==> exists|m: int| 0 <= m < k && #[trigger] cu@[m + 1] - cu@[m] == longest,
            decreases n - k,
        {
            assert(cu@[k as int] < cu@[k as int + 1]);
            let len = cu[k + 1] - cu[k];
            if len > longest {
                longest = len;
            }
            k = k + 1;
        }
        if longest != self.max_length {
            proof {
                let w = choose|m: int| 0 <= m < n && #[trigger] cu@[m + 1] - cu@[m] == longest;
                if is_longest(cu@, self.max_length as int) {
                    let v = choose|m: int| 0 <= m < n && #[trigger] cu@[m + 1] - cu@[m] == self.max_length;
                    assert(cu@[v + 1] - cu@[v] <= longest);
                    assert(cu@[w + 1] - cu@[w] <= self.max_length);
                }
            }
            return Err(EmbedError::InvariantViolation);
        }
        Ok(())
    }
}

/// In every well-formed batch the offsets start at 0 and end at the number of
/// packed tokens, which all three token buffers hold.
pub proof fn lemma_batch_totals(b: Batch)
    requires
        b.wf(),
    ensures
        b.cumulative_seq_lengths@[0] == 0,
        b.cumulative_seq_lengths@[b.num_sequences()] == b.input_ids@.len(),
        b.token_type_ids@.len() == b.input_ids@.len(),
        b.position_ids@.len() == b.input_ids@.len(),
        b.num_sequences() >= 1,
{
}

/// Number of tokens in the first `i` sequences.
pub open spec fn prefix_len(seqs: Seq<TokenSequence>, i: int) -> int
    decreases i,
{
    if i <= 0 || i > seqs.len() {
        0
    } else {
        prefix_len(seqs, i - 1) + seqs[i - 1].ids@.len()
    }
}

/// Token ids of the first `i` sequences, concatenated in order.
pub open spec fn packed_ids(seqs: Seq<TokenSequence>, i: int) -> Seq<u32>
    decreases i,
{
    if i <= 0 || i > seqs.len() {
        Seq::empty()
    } else {
        packed_ids(seqs, i - 1) + seqs[i - 1].ids@
    }
}

/// Type ids of the first `i` sequences, concatenated in order.
pub open spec fn packed_type_ids(seqs: Seq<TokenSequence>, i: int) -> Seq<u32>
    decreases i,
{
    if i <= 0 || i > seqs.len() {
        Seq::empty()
    } else {
        packed_type_ids(seqs, i - 1) + seqs[i - 1].type_ids@
    }
}

/// The positions of a sequence of `n` tokens: `offset, offset + 1, ...`.
pub open spec fn positions(offset: u32, n: int) -> Seq<u32> {
    Seq::new(n as nat, |p: int| (offset + p) as u32)
}

/// Position ids of the first `i` sequences, each restarting at `offset`.
pub open spec fn packed_positions(seqs: Seq<TokenSequence>, i: int, offset: u32) -> Seq<u32>
    decreases i,
{
    if i <= 0 || i > seqs.len() {
        Seq::empty()
    } else {
        packed_positions(seqs, i - 1, offset) + positions(offset, seqs[i - 1].ids@.len() as int)
    }
}

/// What the builder accepts: at least one sequence, none empty, type ids
/// parallel to token ids, and every position id representable as `u32`.
pub open spec fn valid_sequences(seqs: Seq<TokenSequence>, offset: u32) -> bool {
    &&& seqs.len() > 0
    &&& forall|k: int|
        0 <= k < seqs.len() ==> (#[trigger] seqs[k]).ids@.len() > 0 && seqs[k].type_ids@.len()
            == seqs[k].ids@.len()
    &&& offset + prefix_len(seqs, seqs.len() as int) <= u32::MAX
}

/// Token counts only grow along the sequence list.
pub proof fn lemma_prefix_monotone(seqs: Seq<TokenSequence>, i: int, j: int)
    requires
        0 <= i <= j <= seqs.len(),
    ensures
        prefix_len(seqs, i) <= prefix_len(seqs, j),
    decreases j - i,
{
    if i < j {
        lemma_prefix_monotone(seqs, i, j - 1);
    }
}

/// The packed buffers of the first `i` sequences hold `prefix_len(seqs, i)` tokens.
pub proof fn lemma_packed_lengths(seqs: Seq<TokenSequence>, i: int, offset: u32)
    requires
        0 <= i <= seqs.len(),
        forall|k: int|
            0 <= k < seqs.len() ==> (#[trigger] seqs[k]).type_ids@.len() == seqs[k].ids@.len(),
    ensures
        packed_ids(seqs, i).len() == prefix_len(seqs, i),
        packed_type_ids(seqs, i).len() == prefix_len(seqs, i),
        packed_positions(seqs, i, offset).len() == prefix_len(seqs, i),
    decreases i,
{
    if i > 0 {
        lemma_packed_lengths(seqs, i - 1, offset);
        assert(seqs[i - 1].type_ids@.len() == seqs[i - 1].ids@.len());
    }
}

proof fn lemma_packed_index(seqs: Seq<TokenSequence>, offset: u32, m: int, k: int, p: int)
    requires
        forall|q: int|
            0 <= q < seqs.len() ==> (#[trigger] seqs[q]).type_ids@.len() == seqs[q].ids@.len(),
        0 <= k < m <= seqs.len(),
        0 <= p < seqs[k].ids@.len(),
    ensures
        prefix_len(seqs, k) + p < prefix_len(seqs, m),
        packed_ids(seqs, m)[prefix_len(seqs, k) + p] == seqs[k].ids@[p],
        packed_type_ids(seqs, m)[prefix_len(seqs, k) + p] == seqs[k].type_ids@[p],
        packed_positions(seqs, m, offset)[prefix_len(seqs, k) + p] == (offset + p) as u32,
    decreases m,
{
    lemma_packed_lengths(seqs, m - 1, offset);
    lemma_prefix_monotone(seqs, 0, k);
    let i = prefix_len(seqs, k) + p;
    let s = seqs[m - 1];
    assert(s.type_ids@.len() == s.ids@.len());
    assert(prefix_len(seqs, m) == prefix_len(seqs, m - 1) + s.ids@.len());
    let ids = packed_ids(seqs, m - 1);
    let types = packed_type_ids(seqs, m - 1);
    let pos = packed_positions(seqs, m - 1, offset);
    let tail = positions(offset, s.ids@.len() as int);
    assert(packed_ids(seqs, m) == ids + s.ids@);
    assert(packed_type_ids(seqs, m) == types + s.type_ids@);
    assert(packed_positions(seqs, m, offset) == pos + tail);
    if m == k + 1 {
        assert((ids + s.ids@)[i] == s.ids@[p]);
        assert((types + s.type_ids@)[i] == s.type_ids@[p]);
        assert((pos + tail)[i] == tail[p]);
    } else {
        lemma_packed_index(seqs, offset, m - 1, k, p);
        assert((ids + s.ids@)[i] == ids[i]);
        assert((types + s.type_ids@)[i] == types[i]);
        assert((pos + tail)[i] == pos[i]);
    }
}

/// Packing keeps every token in place and in order: token `p` of sequence
/// `k` sits at flat index `prefix_len(seqs, k) + p` of the id, type-id and
/// position buffers, with position `offset + p`, and sequence `k` occupies
/// exactly `[prefix_len(seqs, k), prefix_len(seqs, k + 1))`.
pub proof fn lemma_packed_order(seqs: Seq<TokenSequence>, offset: u32, k: int, p: int)
    requires
        valid_sequences(seqs, offset),
        0 <= k < seqs.len(),
        0 <= p < seqs[k].ids@.len(),
    ensures
        prefix_len(seqs, k + 1) == prefix_len(seqs, k) + seqs[k].ids@.len(),
        prefix_len(seqs, k) + p < prefix_len(seqs, seqs.len() as int),
        packed_ids(seqs, seqs.len() as int)[prefix_len(seqs, k) + p] == seqs[k].ids@[p],
        packed_type_ids(seqs, seqs.len() as int)[prefix_len(seqs, k) + p] == seqs[k].type_ids@[p],
        packed_positions(seqs, seqs.len() as int, offset)[prefix_len(seqs, k) + p] == offset + p,
{
    lemma_packed_index(seqs, offset, seqs.len() as int, k, p);
    lemma_prefix_monotone(seqs, 0, k);
    assert(prefix_len(seqs, k + 1) == prefix_len(seqs, k) + seqs[k].ids@.len());
}

fn check_sequences(seqs: &Vec<TokenSequence>, position_offset: u32) -> (r: Result<(), EmbedError>)
    ensures
        r is Ok <==> valid_sequences(seqs@, position_offset),
        r is Err ==> r == Err::<(), EmbedError>(EmbedError::InvalidInput),
{
    if seqs.len() == 0 {
        return Err(EmbedError::InvalidInput);
    }
    let mut total: u64 = position_offset as u64;
    let mut i: usize = 0;
    while i < seqs.len()
        invariant
            i <= seqs@.len(),
            total == position_offset + prefix_len(seqs@, i as int),
            total <= u32::MAX,
            forall|k: int|
                0 <= k < i ==> (#[trigger] seqs@[k]).ids@.len() > 0 && seqs@[k].type_ids@.len()
                    == seqs@[k].ids@.len(),
        decreases seqs@.len() - i,
    {
        let len = seqs[i].ids.len();
        if len == 0 || seqs[i].type_ids.len() != len {
            return Err(EmbedError::InvalidInput);
        }
        if len as u64 > u32::MAX as u64 - total {
            proof {
                lemma_prefix_monotone(seqs@, i as int + 1, seqs@.len() as int);
            }
            return Err(EmbedError::InvalidInput);
        }
        total = total + len as u64;
        i = i + 1;
    }
    Ok(())
}

fn append_all(dst: &mut Vec<u32>, src: &Vec<u32>)
    ensures
        final(dst)@ == old(dst)@ + src@,
{
    let mut j: usize = 0;
    while j < src.len()
        invariant
            j <= src@.len(),
            dst@ == old(dst)@ + src@.subrange(0, j as int),
        decreases src@.len() - j,
    {
        dst.push(src[j]);
        j = j + 1;
        assert(src@.subrange(0, j as int) == src@.subrange(0, j - 1) + seq![src@[j - 1]]);
    }
    assert(src@.subrange(0, src@.len() as int) == src@);
}

fn append_positions(dst: &mut Vec<u32>, offset: u32, n: u32)
    requires
        offset + n <= u32::MAX,
    ensures
        final(dst)@ == old(dst)@ + positions(offset, n as int),
{
    let mut p: u32 = 0;
    while p < n
        invariant
            p <= n,
            offset + n <= u32::MAX,
            dst@ == old(dst)@ + positions(offset, p as int),
        decreases n - p,
    {
        dst.push(offset + p);
        p = p + 1;
        assert(positions(offset, p as int) == positions(offset, p - 1) + seq![(offset + p - 1) as u32]);
    }
}

/// Packs `seqs`, in order, into one batch whose position ids start at
/// `position_offset` in every sequence.
///
/// Rejects with `InvalidInput` exactly an empty list, an empty sequence, type
/// ids that do not run parallel to the token ids, or a position id beyond `u32`.
pub fn build_batch(seqs: &Vec<TokenSequence>, position_offset: u32) -> (r: Result<Batch, EmbedError>)
    ensures
        r is Err <==> !valid_sequences(seqs@, position_offset),
        r is Err ==> r == Err::<Batch, EmbedError>(EmbedError::InvalidInput),
        r matches Ok(b) ==> {
            let n = seqs@.len() as int;
            &&& b.wf()
            &&& b.cumulative_seq_lengths@.len() == n + 1
            &&& b.cumulative_seq_lengths@[0] == 0
            &&& b.cumulative_seq_lengths@[n] == b.input_ids@.len()
            &&& forall|k: int|
                0 <= k <= n ==> #[trigger] b.cumulative_seq_lengths@[k] == prefix_len(seqs@, k)
            &&& b.input_ids@ == packed_ids(seqs@, n)
            &&& b.token_type_ids@ == packed_type_ids(seqs@, n)
            &&& b.position_ids@ == packed_positions(seqs@, n, position_offset)
        },
{
    check_sequences(seqs, position_offset)?;
    let ghost n = seqs@.len() as int;
    let mut input_ids: Vec<u32> = Vec::new();
    let mut token_type_ids: Vec<u32> = Vec::new();
    let mut position_ids: Vec<u32> = Vec::new();
    let mut cu: Vec<u32> = Vec::new();
    cu.push(0);
    let mut current: u32 = 0;
    let mut max_length: u32 = 0;
    let mut i: usize = 0;
    while i < seqs.len()
        invariant
            n == seqs@.len(),
            i <= n,
            valid_sequences(seqs@, position_offset),
            current == prefix_len(seqs@, i as int),
            input_ids@ == packed_ids(seqs@, i as int),
            token_type_ids@ == packed_type_ids(seqs@, i as int),
            position_ids@ == packed_positions(seqs@, i as int, position_offset),
            cu@.len() == i + 1,
            forall|k: int| 0 <= k <= i ==> #[trigger] cu@[k] == prefix_len(seqs@, k),
            forall|k: int| 0 <= k < i ==> #[trigger] cu@[k + 1] - cu@[k] <= max_length,
            i == 0 ==> max_length == 0,
            i > 0 ==> exists|k: int| 0 <= k < i && #[trigger] cu@[k + 1] - cu@[k] == max_length,
        decreases n - i,
    {
        let s = &seqs[i];
        let len = s.ids.len();
        proof {
            lemma_prefix_monotone(seqs@, i as int + 1, n);
            assert(seqs@[i as int].ids@.len() > 0);
        }
        append_all(&mut input_ids, &s.ids);
        append_all(&mut token_type_ids, &s.type_ids);
        append_positions(&mut position_ids, position_offset, len as u32);
        let ghost old_max = max_length;
        let ghost old_cu = cu@;
        current = current + len as u32;
        cu.push(current);
        if len as u32 > max_length {
            max_length = len as u32;
        }
        proof {
            assert(cu@[i as int + 1] - cu@[i as int] == len);
            if len > old_max {
                assert(cu@[i as int + 1] - cu@[i as int] == max_length);
            } else {
                let w = choose|k: int| 0 <= k < i && #[trigger] old_cu[k + 1] - old_cu[k] == old_max;
                assert(cu@[w + 1] == old_cu[w + 1] && cu@[w] == old_cu[w]);
                assert(cu@[w + 1] - cu@[w] == max_length);
            }
        }
        i = i + 1;
    }
    proof {
        lemma_packed_lengths(seqs@, n, position_offset);
        assert forall|k: int| 0 <= k < cu@.len() - 1 implies #[trigger] cu@[k] < cu@[k + 1] by {
            assert(seqs@[k].ids@.len() > 0);
        }
    }
    Ok(Batch {
        input_ids,
        token_type_ids,
        position_ids,
        cumulative_seq_lengths: cu,
        max_length,
    })
}

} // verus!
