//! Dimensions that are assumed where the weight blob does not declare its own.

use vstd::prelude::*;

verus! {

/// Width of the hidden state.
pub const D_MODEL_FALLBACK: u32 = 768;

/// Number of token ids.
pub const VOCAB_FALLBACK: u32 = 50257;

/// Number of transformer blocks.
pub const N_LAYER_FALLBACK: u32 = 12;

/// Number of attention heads.
pub const N_HEAD_FALLBACK: u32 = 12;

/// Length of the context window.
pub const N_POS_FALLBACK: u32 = 1024;

/// Width of the feed-forward layer.
pub const D_FF_FALLBACK: u32 = 3072;

} // verus!
