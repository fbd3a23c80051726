//! Guessing the dimensions from tensor sizes.

use vstd::prelude::*;
use crate::model::dims::ModelDims;
use crate::model::names::{L_LM_HEAD, L_TOK_EMB};
use crate::weights_manifest::ManifestView;
use crate::weights_manifest_find::find;

verus! {

/// Tries to derive the dimensions from the sizes of the embedding and the
/// output head.
///
/// Both tensors are `vocab * d_model * 4` bytes long, which does not fix the
/// two factors, so no dimensions are ever derived.
pub fn infer_from_layers(man: &ManifestView<'_>) -> (dims: Option<ModelDims>)
    ensures
        dims is None,
{
    let _e_emb = match find(man, L_TOK_EMB) {
        Some(e) => e,
        None => {
            return None;
        },
    };
    let _e_head = match find(man, L_LM_HEAD) {
        Some(e) => e,
        None => {
            return None;
        },
    };
    None
}

} // verus!
