use packed_embed::{build_batch, pool_windows, EmbedError, PoolWindow, PoolingMode, TokenSequence};

fn seq_of_len(n: u32, base: u32) -> TokenSequence {
    TokenSequence { ids: (0..n).map(|i| base + i).collect(), type_ids: vec![0; n as usize] }
}

fn w(start: usize, end: usize) -> PoolWindow {
    PoolWindow { start, end }
}

#[test]
fn windows_read_exactly_the_packed_ranges() {
    let seqs = vec![seq_of_len(3, 0), seq_of_len(5, 0), seq_of_len(2, 0)];
    let b = build_batch(&seqs, 0).unwrap();
    let mean = pool_windows(&b.cumulative_seq_lengths, b.input_ids.len(), PoolingMode::Mean).unwrap();
    assert_eq!(mean, vec![w(0, 3), w(3, 8), w(8, 10)]);
    let max = pool_windows(&b.cumulative_seq_lengths, 10, PoolingMode::Max).unwrap();
    assert_eq!(max, vec![w(0, 3), w(3, 8), w(8, 10)]);
    let splade = pool_windows(&b.cumulative_seq_lengths, 10, PoolingMode::Splade).unwrap();
    assert_eq!(splade, vec![w(0, 3), w(3, 8), w(8, 10)]);
}

#[test]
fn cls_window_is_the_first_token() {
    let cu = vec![0, 3, 8, 10];
    let cls = pool_windows(&cu, 10, PoolingMode::Cls).unwrap();
    assert_eq!(cls, vec![w(0, 1), w(3, 4), w(8, 9)]);
}

#[test]
fn mean_divides_by_true_length_not_max_length() {
    let seqs = vec![seq_of_len(2, 0), seq_of_len(10, 50)];
    let b = build_batch(&seqs, 0).unwrap();
    assert_eq!(b.max_length, 10);
    let mean = pool_windows(&b.cumulative_seq_lengths, 12, PoolingMode::Mean).unwrap();
    assert_eq!(mean[0], w(0, 2));
    assert_eq!(mean[0].end - mean[0].start, 2);
    assert_eq!(mean[1], w(2, 12));
    assert_eq!(&b.input_ids[mean[0].start..mean[0].end], &[0, 1]);
}

#[test]
fn one_token_sequence_pools_the_same_row_in_every_mode() {
    let b = build_batch(&vec![seq_of_len(1, 7)], 0).unwrap();
    for mode in [PoolingMode::Mean, PoolingMode::Cls, PoolingMode::Max, PoolingMode::Splade] {
        assert_eq!(pool_windows(&b.cumulative_seq_lengths, 1, mode).unwrap(), vec![w(0, 1)]);
    }
}

#[test]
fn windows_follow_input_order() {
    let seqs = vec![seq_of_len(1, 900), seq_of_len(4, 100), seq_of_len(2, 500)];
    let b = build_batch(&seqs, 0).unwrap();
    let mean = pool_windows(&b.cumulative_seq_lengths, 7, PoolingMode::Mean).unwrap();
    assert_eq!(mean.len(), 3);
    for (k, s) in seqs.iter().enumerate() {
        assert_eq!(&b.input_ids[mean[k].start..mean[k].end], s.ids.as_slice());
    }
}

#[test]
fn inverted_offsets_are_an_invariant_violation() {
    let r = pool_windows(&vec![0, 5, 3, 8], 8, PoolingMode::Mean);
    assert_eq!(r.err(), Some(EmbedError::InvariantViolation));
}

#[test]
fn empty_range_is_an_invariant_violation() {
    let r = pool_windows(&vec![0, 3, 3, 6], 6, PoolingMode::Cls);
    assert_eq!(r.err(), Some(EmbedError::InvariantViolation));
}

#[test]
fn wrong_final_offset_is_an_invariant_violation() {
    let r = pool_windows(&vec![0, 3, 8], 10, PoolingMode::Max);
    assert_eq!(r.err(), Some(EmbedError::InvariantViolation));
}

#[test]
fn offsets_without_a_sequence_are_an_invariant_violation() {
    assert_eq!(pool_windows(&vec![0], 0, PoolingMode::Mean).err(), Some(EmbedError::InvariantViolation));
    assert_eq!(pool_windows(&vec![1, 4], 4, PoolingMode::Mean).err(), Some(EmbedError::InvariantViolation));
}
