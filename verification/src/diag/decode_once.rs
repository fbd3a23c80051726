//! One greedy decoding step from a seed token: where its inputs lie.

use vstd::prelude::*;
use crate::infer::decoder::{argmax_over_head, head_scan, HeadScan};
use crate::infer::embedding::{embedding_span, gather_embedding, RowSpan};
use crate::io::rom_reader::{still_serves, RomReader};
use crate::model::dims::ModelDims;
use crate::model::meta::{load_dims_from_meta, meta_dims, META_BYTES_V1};
use crate::model::names::L_MODEL_META;
use crate::weights_manifest::{parse_header, ManifestModel, ManifestView};
use crate::weights_manifest_find::find_spec;

verus! {

/// How far a decoding step can be prepared.
#[derive(Debug, Clone, Copy, PartialEq, Eq, Structural)]
pub enum DecodeOnce {
    /// The manifest does not parse.
    ManifestError,
    /// The embedding row of the seed token cannot be had.
    EmbeddingFailed { dims: ModelDims },
    /// The output head cannot be scanned.
    DecoderFailed { dims: ModelDims, embedding: RowSpan },
    /// The embedding row and the rows of the output head.
    Ready { dims: ModelDims, embedding: RowSpan, head: HeadScan },
}

/// The step that can be prepared from `seed_token` for a model of the
/// dimensions `dims`, with buffers sized to the model.
pub open spec fn prepared(m: ManifestModel, dims: ModelDims, seed_token: u32) -> DecodeOnce {
    let h_len = buffer_len(dims.d_model as int);
    let scratch_len = buffer_len(dims.d_model * 4);
    match embedding_span(m, dims.d_model, seed_token, h_len) {
        None => DecodeOnce::EmbeddingFailed { dims },
        Some(embedding) => match head_scan(m, dims, h_len, scratch_len) {
            None => DecodeOnce::DecoderFailed { dims, embedding },
            Some(head) => DecodeOnce::Ready { dims, embedding, head },
        },
    }
}

/// Length of a buffer for `n` elements: `n`, held at the largest length that
/// the machine can address.
pub open spec fn buffer_len(n: int) -> int {
    if n > usize::MAX {
        usize::MAX as int
    } else {
        n
    }
}

/// Prepares one decoding step from `seed_token`: the dimensions, from the
/// `model_meta` entry or else the compiled-in ones, the embedding row of the
/// token, and the rows of the output head, with buffers sized to the model.
/// The dimensions are those of the `model_meta` entry where the entry
/// declares some and the reader serves its record.
pub fn run<R: RomReader>(rr: &mut R, man_bytes: &[u8], seed_token: u32) -> (r: DecodeOnce)
    ensures
        (*final(rr)).rom() == (*old(rr)).rom(),
        r is ManifestError <==> parse_header(man_bytes@) is Err,
        parse_header(man_bytes@) matches Ok(m) ==> {
            &&& {
                ||| r == prepared(m, ModelDims::fallback_spec(), seed_token)
                ||| Some(r) == match meta_dims((*old(rr)).rom(), m) {
                    Some(dims) => Some(prepared(m, dims, seed_token)),
                    None => None,
                }
            }
            &&& meta_dims((*old(rr)).rom(), m) is None ==> r == prepared(
                m,
                ModelDims::fallback_spec(),
                seed_token,
            )
            &&& (find_spec(m, L_MODEL_META@) matches Some(e) && (*old(rr)).serves(
                e.offset as u64,
                META_BYTES_V1 as nat,
            )) ==> (meta_dims((*old(rr)).rom(), m) matches Some(dims) ==> r == prepared(
                m,
                dims,
                seed_token,
            ))
        },
        still_serves(*old(rr), *final(rr)),
        r matches DecodeOnce::Ready { head, .. } ==> head.wf(),
{
    let man = match ManifestView::new(man_bytes) {
        Ok(v) => v,
        Err(_) => {
            return DecodeOnce::ManifestError;
        },
    };
    let dims = match load_dims_from_meta(rr, &man) {
        Some(d) => d,
        None => ModelDims::fallback(),
    };
    let d_model: u64 = dims.d_model as u64;
    let h_len: usize = if d_model > usize::MAX as u64 {
        usize::MAX
    } else {
        d_model as usize
    };
    let scratch_len: usize = if d_model * 4 > usize::MAX as u64 {
        usize::MAX
    } else {
        (d_model * 4) as usize
    };
    let embedding = match gather_embedding(&man, &dims, seed_token, h_len) {
        Some(span) => span,
        None => {
            return DecodeOnce::EmbeddingFailed { dims };
        },
    };
    match argmax_over_head(&man, &dims, h_len, scratch_len) {
        Some(head) => DecodeOnce::Ready { dims, embedding, head },
        None => DecodeOnce::DecoderFailed { dims, embedding },
    }
}

} // verus!
