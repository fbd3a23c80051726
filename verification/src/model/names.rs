//! Names of the manifest entries that the engine consumes.

use vstd::prelude::*;

verus! {

/// Token embedding, row-major `[vocab, d_model]`.
pub const L_TOK_EMB: &'static str = "tok_embeddings";

/// Positional embedding, row-major `[n_positions, d_model]`.
pub const L_POS_EMB: &'static str = "pos_embeddings";

/// Output head, row-major `[vocab, d_model]`, without bias.
pub const L_LM_HEAD: &'static str = "lm_head";

/// Final layer-norm weight, `[d_model]`.
pub const L_FINAL_NORM_WEIGHT: &'static str = "ln_f.weight";

/// Final layer-norm bias, `[d_model]`.
pub const L_FINAL_NORM_BIAS: &'static str = "ln_f.bias";

/// Packed tokenizer assets.
pub const L_TOKENIZER_MODEL: &'static str = "tokenizer.model";

/// Optional record of the model's dimensions.
pub const L_MODEL_META: &'static str = "model_meta";

} // verus!
