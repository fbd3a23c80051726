//! The embedding row of one token.

use vstd::prelude::*;
use crate::model::dims::ModelDims;
use crate::model::names::L_TOK_EMB;
use crate::weights::weights_rel_to_cart_off;
use crate::weights_manifest::{ManifestModel, ManifestView};
use crate::weights_manifest_find::{find, find_spec};

verus! {

/// A run of bytes on the cartridge.
#[derive(Debug, Clone, Copy, PartialEq, Eq, Structural)]
pub struct RowSpan {
    /// Cartridge offset of the first byte.
    pub cart_off: u64,
    /// Number of bytes.
    pub len: u64,
}

/// The embedding row of `token_id`, for an output buffer of `out_len`
/// scalars: `None` where the manifest has no token embedding, the buffer is
/// shorter than a row, or the row does not lie inside the tensor.
pub open spec fn embedding_span(m: ManifestModel, d_model: u32, token_id: u32, out_len: int) -> Option<
    RowSpan,
> {
    let row_bytes = d_model * 4;
    match find_spec(m, L_TOK_EMB@) {
        None => None,
        Some(e) => if out_len < d_model || token_id * row_bytes + row_bytes > e.size {
            None
        } else {
            Some(RowSpan { cart_off: (e.offset + token_id * row_bytes) as u64, len: row_bytes as u64 })
        },
    }
}

/// Where the embedding row of `token_id` lies, for an output buffer of
/// `out_len` scalars.
///
/// Returns `None` where the manifest has no token embedding, the buffer is
/// shorter than a row, or the row does not lie inside the tensor.
pub fn gather_embedding(man: &ManifestView<'_>, dims: &ModelDims, token_id: u32, out_len: usize) -> (r:
    Option<RowSpan>)
    ensures
        r == embedding_span(man@, dims.d_model, token_id, out_len as int),
{
    let e = match find(man, L_TOK_EMB) {
        Some(e) => e,
        None => {
            return None;
        },
    };
    let d_model: u64 = dims.d_model as u64;
    if (out_len as u64) < d_model {
        return None;
    }
    let row_bytes: u64 = d_model * 4;
    assert(token_id * row_bytes <= 0xFFFF_FFFF * 0x4_0000_0000) by (nonlinear_arith)
        requires
            token_id <= 0xFFFF_FFFF,
            row_bytes <= 0x4_0000_0000,
    ;
    let off_rel: u128 = token_id as u128 * row_bytes as u128;
    if off_rel + row_bytes as u128 > e.size as u128 {
        return None;
    }
    Some(RowSpan { cart_off: weights_rel_to_cart_off(e.offset as u64 + off_rel as u64), len: row_bytes })
}

} // verus!
