//! The dimensions of a model, as its configuration file states them.

use vstd::prelude::*;

verus! {

/// The configuration of a Llama-style model. Loading reads `num_layers`;
/// the other dimensions describe the shapes that the weights are expected to
/// have.
#[derive(Clone, Copy, Debug, PartialEq, Eq, Structural)]
pub struct LlamaConfigJson {
    /// The number of decoder layers.
    pub num_layers: usize,
    /// The width of the hidden state.
    pub hidden_size: usize,
    /// The number of attention heads.
    pub num_heads: usize,
    /// The number of key and value heads.
    pub num_kv_heads: usize,
    /// The width of the feed-forward block.
    pub intermediate_size: usize,
    /// The number of tokens in the vocabulary.
    pub vocab_size: usize,
}

} // verus!
