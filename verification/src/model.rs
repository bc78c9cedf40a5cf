//! The shape of the embedding model.

use vstd::prelude::*;

use crate::tokenize::{MAX_SEQ_LEN, VOCAB_SIZE};

verus! {

/// The number of dimensions of an embedding, which is that of the vector index.
pub const EMBED_DIM: usize = 384;

/// The number of positions that the model has a learned embedding for.
pub const MAX_POSITIONS: usize = 512;

/// The sizes of a transformer encoder for sentence embeddings.
#[derive(Debug, Clone, Copy, PartialEq, Eq, Structural)]
pub struct EmbeddingModelConfig {
    /// Rows of the token embedding table.
    pub vocab_size: usize,
    /// Rows of the position embedding table.
    pub max_seq_len: usize,
    /// Width of the encoder.
    pub d_model: usize,
    /// Encoder layers.
    pub n_layers: usize,
    /// Attention heads of each layer.
    pub n_heads: usize,
    /// Width of the feed-forward part.
    pub d_ff: usize,
    /// How many of a thousand activations dropout leaves out.
    pub dropout_permille: u32,
}

impl EmbeddingModelConfig {
    /// The full model: six layers of 384 dimensions.
    pub open spec fn full_spec() -> EmbeddingModelConfig {
        EmbeddingModelConfig {
            vocab_size: VOCAB_SIZE,
            max_seq_len: MAX_POSITIONS,
            d_model: 384,
            n_layers: 6,
            n_heads: 6,
            d_ff: 1536,
            dropout_permille: 100,
        }
    }

    /// The small model for fast iteration: two layers of 128 dimensions.
    pub open spec fn small_spec() -> EmbeddingModelConfig {
        EmbeddingModelConfig {
            vocab_size: VOCAB_SIZE,
            max_seq_len: MAX_POSITIONS,
            d_model: 128,
            n_layers: 2,
            n_heads: 4,
            d_ff: 512,
            dropout_permille: 100,
        }
    }

    /// What every configuration keeps: the heads share the width evenly, and there
    /// is a row in the tables for every token id and every position of a text.
    pub open spec fn is_consistent(&self) -> bool {
        &&& self.n_heads > 0
        &&& self.d_model % self.n_heads == 0
        &&& self.vocab_size >= VOCAB_SIZE
        &&& self.max_seq_len >= MAX_SEQ_LEN
        &&& self.dropout_permille < 1000
    }

    /// The configuration of the small or of the full model.
    pub fn for_size(small: bool) -> (r: EmbeddingModelConfig)
        ensures
            r == if small {
                Self::small_spec()
            } else {
                Self::full_spec()
            },
            r.is_consistent(),
    {
        if small {
            EmbeddingModelConfig {
                vocab_size: VOCAB_SIZE,
                max_seq_len: MAX_POSITIONS,
                d_model: 128,
                n_layers: 2,
                n_heads: 4,
                d_ff: 512,
                dropout_permille: 100,
            }
        } else {
            EmbeddingModelConfig {
                vocab_size: VOCAB_SIZE,
                max_seq_len: MAX_POSITIONS,
                d_model: 384,
                n_layers: 6,
                n_heads: 6,
                d_ff: 1536,
                dropout_permille: 100,
            }
        }
    }
}

/// Both models have a row for each of the 32,000 token ids and 512 positions, which are
/// more than a text has tokens, and heads that share the width evenly. The full one gives
/// embeddings of the width that the vector index has.
pub proof fn law_models_have_room_for_every_text()
    ensures
        ({
            let full = EmbeddingModelConfig::full_spec();
            let small = EmbeddingModelConfig::small_spec();
            &&& full.vocab_size == 32_000 && small.vocab_size == 32_000
            &&& full.max_seq_len == 512 && small.max_seq_len == 512
            &&& MAX_SEQ_LEN <= full.max_seq_len && MAX_SEQ_LEN <= small.max_seq_len
            &&& full.d_model == EMBED_DIM && full.d_model % full.n_heads == 0
            &&& small.d_model < full.d_model && small.d_model % small.n_heads == 0
            &&& full.d_ff == 4 * full.d_model && small.d_ff == 4 * small.d_model
            &&& small.n_layers < full.n_layers
        }),
{
}

impl Default for EmbeddingModelConfig {
    fn default() -> (r: EmbeddingModelConfig)
        ensures
            r == EmbeddingModelConfig::full_spec(),
    {
        EmbeddingModelConfig::for_size(false)
    }
}

} // verus!
