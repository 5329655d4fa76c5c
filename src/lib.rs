//! Packed-batch construction and pooling bookkeeping for sentence embeddings.
//!
//! Variable-length token sequences are packed into one flat buffer without
//! padding; cumulative offsets recover each sequence's boundaries for the
//! encoder's attention and for pooling.
pub mod batch;
pub mod config;
pub mod error;
pub mod pooling;
pub mod segments;

pub use batch::{build_batch, Batch, TokenSequence};
pub use config::ModelConfig;
pub use error::EmbedError;
pub use pooling::{pool_windows, PoolWindow, PoolingMode};
pub use segments::{may_attend, sequence_of_token, validate_offsets};
