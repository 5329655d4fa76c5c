use std::collections::HashMap;

use packed_embed::{
    build_batch, may_attend, sequence_of_token, validate_offsets, EmbedError, ModelConfig,
    TokenSequence,
};

#[test]
fn tokens_map_to_their_sequence() {
    let cu = vec![0, 3, 8, 10];
    let expected = [0, 0, 0, 1, 1, 1, 1, 1, 2, 2];
    for t in 0..10 {
        assert_eq!(sequence_of_token(&cu, 10, t), expected[t]);
    }
}

#[test]
fn attention_stays_inside_a_sequence() {
    let cu = vec![0, 3, 8, 10];
    assert!(may_attend(&cu, 10, 0, 2));
    assert!(may_attend(&cu, 10, 7, 3));
    assert!(!may_attend(&cu, 10, 2, 3));
    assert!(!may_attend(&cu, 10, 8, 7));
    assert!(may_attend(&cu, 10, 9, 9));
}

#[test]
fn offsets_are_validated() {
    assert_eq!(validate_offsets(&vec![0, 3, 8, 10], 10), Ok(()));
    assert_eq!(validate_offsets(&vec![0, 8, 3, 10], 10), Err(EmbedError::InvariantViolation));
    assert_eq!(validate_offsets(&vec![0, 3, 8], 10), Err(EmbedError::InvariantViolation));
}

fn config(max_position_embeddings: usize) -> ModelConfig {
    let mut labels = HashMap::new();
    labels.insert("0".to_string(), "LABEL_0".to_string());
    ModelConfig {
        architectures: vec!["XLMRobertaModel".to_string()],
        model_type: "xlm-roberta".to_string(),
        max_position_embeddings,
        pad_token_id: 1,
        id2label: Some(labels),
        label2id: None,
    }
}

#[test]
fn positions_must_fit_the_position_table() {
    let seqs = vec![TokenSequence { ids: vec![1; 4], type_ids: vec![0; 4] }];
    let b = build_batch(&seqs, 2).unwrap();
    assert_eq!(config(6).check_positions(&b, 2), Ok(()));
    assert_eq!(config(5).check_positions(&b, 2), Err(EmbedError::ShapeMismatch));
    assert_eq!(config(4).check_positions(&b, 0), Ok(()));
}
