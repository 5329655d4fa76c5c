use std::collections::HashMap;

use vstd::prelude::*;

use crate::batch::Batch;
use crate::error::EmbedError;

verus! {

/// The encoder hyperparameters read from a model's `config.json`.
pub struct ModelConfig {
    pub architectures: Vec<String>,
    pub model_type: String,
    pub max_position_embeddings: usize,
    pub pad_token_id: usize,
    pub id2label: Option<HashMap<String, String>>,
    pub label2id: Option<HashMap<String, usize>>,
}

impl ModelConfig {
    /// A batch whose longest sequence has `max_length` tokens, packed with
    /// `position_offset`, has position ids up to `position_offset + max_length - 1`;
    /// all of them index the model's position table.
    pub open spec fn positions_fit(&self, max_length: int, position_offset: int) -> bool {
        position_offset + max_length <= self.max_position_embeddings
    }

    /// Checks that the model's position table can embed every position of
    /// `batch`; fails with `ShapeMismatch` exactly when it cannot.
    pub fn check_positions(&self, batch: &Batch, position_offset: u32) -> (r: Result<(), EmbedError>)
        ensures
            r is Ok <==> self.positions_fit(batch.max_length as int, position_offset as int),
            r is Err ==> r == Err::<(), EmbedError>(EmbedError::ShapeMismatch),
    {
        if (position_offset as u64) + (batch.max_length as u64) <= self.max_position_embeddings as u64 {
            Ok(())
        } else {
            Err(EmbedError::ShapeMismatch)
        }
    }
}

} // verus!
