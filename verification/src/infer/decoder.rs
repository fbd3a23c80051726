//! The rows of the output head, one logit each.

use vstd::prelude::*;
use crate::infer::embedding::RowSpan;
use crate::model::dims::ModelDims;
use crate::model::names::L_LM_HEAD;
use crate::weights::weights_rel_to_cart_off;
use crate::weights_manifest::{ManifestModel, ManifestView};
use crate::weights_manifest_find::{find, find_spec};

verus! {

/// The rows of the output head that a greedy decoder scans.
#[derive(Debug, Clone, Copy, PartialEq, Eq, Structural)]
pub struct HeadScan {
    /// Cartridge offset of row 0.
    pub cart_off: u64,
    /// Number of bytes per row.
    pub row_bytes: u64,
    /// Number of rows, one per token id.
    pub rows: u32,
}

impl HeadScan {
    /// Row `i` of the scan.
    pub open spec fn row_spec(self, i: u32) -> RowSpan {
        RowSpan { cart_off: (self.cart_off + i * self.row_bytes) as u64, len: self.row_bytes }
    }

    /// The rows lie on the cartridge without wrapping around.
    pub open spec fn wf(self) -> bool {
        self.cart_off + self.rows * self.row_bytes <= u64::MAX
    }

    /// Where row `i` lies, or `None` where the scan has no such row.
    pub fn row(&self, i: u32) -> (r: Option<RowSpan>)
        requires
            self.wf(),
        ensures
            r == if i < self.rows {
                Some(self.row_spec(i))
            } else {
                None
            },
    {
        if i >= self.rows {
            return None;
        }
        assert(i * self.row_bytes <= self.rows * self.row_bytes) by (nonlinear_arith)
            requires
                i < self.rows,
        ;
        Some(RowSpan { cart_off: self.cart_off + i as u64 * self.row_bytes, len: self.row_bytes })
    }
}

/// The scan of the output head: `None` where the manifest has no output
/// head, a buffer is too short for a row, or the head is too short for the
/// vocabulary.
pub open spec fn head_scan(m: ManifestModel, dims: ModelDims, h_len: int, scratch_len: int) -> Option<
    HeadScan,
> {
    let row_bytes = dims.d_model * 4;
    match find_spec(m, L_LM_HEAD@) {
        None => None,
        Some(e) => if h_len < dims.d_model || scratch_len < row_bytes || row_bytes * dims.vocab_size
            > e.size {
            None
        } else {
            Some(HeadScan { cart_off: e.offset as u64, row_bytes: row_bytes as u64, rows: dims.vocab_size })
        },
    }
}

/// Where the rows of the output head lie, for a hidden state of `h_len`
/// scalars and a scratch row of `scratch_len` bytes.
///
/// Returns `None` where the manifest has no output head, a buffer is too
/// short for a row, or the head holds fewer rows than the vocabulary.
pub fn argmax_over_head(man: &ManifestView<'_>, dims: &ModelDims, h_len: usize, scratch_len: usize) -> (r:
    Option<HeadScan>)
    ensures
        r == head_scan(man@, *dims, h_len as int, scratch_len as int),
        r matches Some(scan) ==> scan.wf(),
{
    let e = match find(man, L_LM_HEAD) {
        Some(e) => e,
        None => {
            return None;
        },
    };
    let d_model: u64 = dims.d_model as u64;
    let row_bytes: u64 = d_model * 4;
    if (h_len as u64) < d_model || (scratch_len as u64) < row_bytes {
        return None;
    }
    assert(row_bytes * dims.vocab_size <= 0x4_0000_0000 * 0xFFFF_FFFF) by (nonlinear_arith)
        requires
            dims.vocab_size <= 0xFFFF_FFFF,
            row_bytes <= 0x4_0000_0000,
    ;
    if row_bytes as u128 * dims.vocab_size as u128 > e.size as u128 {
        return None;
    }
    assert(dims.vocab_size * row_bytes == row_bytes * dims.vocab_size) by (nonlinear_arith);
    Some(
        HeadScan {
            cart_off: weights_rel_to_cart_off(e.offset as u64),
            row_bytes,
            rows: dims.vocab_size,
        },
    )
}

} // verus!
