//! The six numbers that fix the shape of a model.

use vstd::prelude::*;
use crate::model::config::{
    D_FF_FALLBACK, D_MODEL_FALLBACK, N_HEAD_FALLBACK, N_LAYER_FALLBACK, N_POS_FALLBACK,
    VOCAB_FALLBACK,
};

verus! {

/// Dimensions of a transformer.
#[derive(Debug, Copy, Clone, PartialEq, Eq, Structural)]
pub struct ModelDims {
    /// Width of the hidden state.
    pub d_model: u32,
    /// Number of token ids.
    pub vocab_size: u32,
    /// Number of transformer blocks.
    pub n_layer: u32,
    /// Number of attention heads.
    pub n_head: u32,
    /// Length of the trained context window.
    pub n_positions: u32,
    /// Width of the feed-forward layer.
    pub d_ff: u32,
}

impl ModelDims {
    /// The dimensions given, field by field.
    pub fn new(
        d_model: u32,
        vocab_size: u32,
        n_layer: u32,
        n_head: u32,
        n_positions: u32,
        d_ff: u32,
    ) -> (dims: Self)
        ensures
            dims == (ModelDims { d_model, vocab_size, n_layer, n_head, n_positions, d_ff }),
    {
        Self { d_model, vocab_size, n_layer, n_head, n_positions, d_ff }
    }

    /// The dimensions assumed where the weight blob declares none.
    pub open spec fn fallback_spec() -> ModelDims {
        ModelDims {
            d_model: D_MODEL_FALLBACK,
            vocab_size: VOCAB_FALLBACK,
            n_layer: N_LAYER_FALLBACK,
            n_head: N_HEAD_FALLBACK,
            n_positions: N_POS_FALLBACK,
            d_ff: D_FF_FALLBACK,
        }
    }

    /// The dimensions assumed where the weight blob declares none.
    pub fn fallback() -> (dims: Self)
        ensures
            dims == Self::fallback_spec(),
    {
        Self::new(
            D_MODEL_FALLBACK,
            VOCAB_FALLBACK,
            N_LAYER_FALLBACK,
            N_HEAD_FALLBACK,
            N_POS_FALLBACK,
            D_FF_FALLBACK,
        )
    }
}

} // verus!
