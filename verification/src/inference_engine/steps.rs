//! The forward pass as a strictly ordered list of steps.
//!
//! Everything that a pass decides follows from the manifest, the plan, the
//! dimensions and the input tokens: which tensors are read, in which order,
//! what is done with each, and on which check the pass gives up. The
//! arithmetic itself is left to a numeric kernel that executes the steps.

use vstd::prelude::*;
use crate::inference_engine::error::{Error, ErrorModel};
use crate::inference_engine::plan::{LayerPlan, LayerSpec};
use crate::manifest::{layer_models, Layer, LayerModel, Manifest};
use crate::model::dims::ModelDims;
use crate::model::names::{
    L_FINAL_NORM_BIAS, L_FINAL_NORM_WEIGHT, L_LM_HEAD, L_POS_EMB, L_TOK_EMB,
};

verus! {

/// Longest input that a pass accepts.
pub const MAX_SEQ_LENGTH: usize = 128;

/// Size of one weight scalar.
pub const SCALAR_BYTES: u64 = 4;

/// A byte range of the weight blob, inside one manifest entry.
#[derive(Debug, Clone, Copy, PartialEq, Eq, Structural)]
pub struct TensorRead {
    /// Manifest index of the entry.
    pub entry: usize,
    /// Offset of the first byte from the start of the weight blob.
    pub offset: u64,
    /// Number of bytes.
    pub len: u64,
}

/// The activation buffers of the kernel.
#[derive(Debug, Clone, Copy, PartialEq, Eq, Structural)]
pub enum Buffer {
    Hidden,
    Residual,
    Normed,
    AttnOutput,
    Context,
    FfnHidden,
    FfnMid,
    Qkv,
}

/// The two bias vectors of the kernel.
#[derive(Debug, Clone, Copy, PartialEq, Eq, Structural)]
pub enum BiasSlot {
    A,
    B,
}

/// One step of a forward pass. A step that carries a `read` is executed on
/// the bytes of that range, which hold little-endian 32-bit floats.
#[derive(Debug, Clone, Copy, PartialEq, Eq, Structural)]
pub enum Step {
    /// The hidden state at `position` becomes the row read.
    TokenRow { position: usize, read: TensorRead },
    /// The row read is added to the hidden state at `position`.
    PositionRow { position: usize, read: TensorRead },
    /// The hidden state is copied to the residual.
    SaveResidual,
    /// The tensor read becomes the layer-norm weight.
    NormWeight { read: TensorRead },
    /// The tensor read becomes the layer-norm bias.
    NormBias { read: TensorRead },
    /// The hidden state is normalised over `width` into the normed buffer.
    LayerNorm { width: u32 },
    /// The tensor read becomes the bias vector `slot`.
    Bias { slot: BiasSlot, read: TensorRead },
    /// `output` becomes `input` times the row-major `in_dim` by `out_dim`
    /// matrix read, plus the bias `bias`.
    Matmul { input: Buffer, output: Buffer, bias: BiasSlot, in_dim: u64, out_dim: u64, read: TensorRead },
    /// Scaled dot-product attention over the QKV buffer into the context.
    Attention { heads: u32, head_dim: u32 },
    /// The hidden state becomes `source` plus the residual.
    AddResidual { source: Buffer },
    /// The feed-forward activations pass through the nonlinearity.
    Gelu,
    /// The hidden state becomes the normed buffer.
    AdoptNormed,
    /// The rows read are multiplied with the last position's hidden state,
    /// one logit per row, for the token ids `0..rows`.
    Logits { rows: u32, row_bytes: u64, read: TensorRead },
    /// The logits are turned into probabilities and the likeliest token id
    /// is selected.
    SelectToken { vocab: u32 },
}

/// How a list of steps ends.
#[derive(Debug, Clone, Copy, PartialEq, Eq)]
pub enum Ending {
    /// The pass is complete.
    Done,
    /// The pass fails with this error.
    Fail(Error),
    /// The range is read and thrown away, and the pass fails: with
    /// `RomReadError` where the read fails, with this error otherwise.
    FailAfterRead(TensorRead, Error),
}

/// An [`Ending`] with names as sequences of characters.
pub enum EndingModel {
    Done,
    Fail(ErrorModel),
    FailAfterRead(TensorRead, ErrorModel),
}

impl View for Ending {
    type V = EndingModel;

    open spec fn view(&self) -> EndingModel {
        match *self {
            Ending::Done => EndingModel::Done,
            Ending::Fail(e) => EndingModel::Fail(e@),
            Ending::FailAfterRead(read, e) => EndingModel::FailAfterRead(read, e@),
        }
    }
}

/// Steps with their ending.
pub struct Outcome {
    pub steps: Seq<Step>,
    pub ending: EndingModel,
}

impl Outcome {
    /// Nothing to do, and no failure.
    pub open spec fn nothing() -> Outcome {
        Outcome { steps: Seq::empty(), ending: EndingModel::Done }
    }

    /// One step, and no failure.
    pub open spec fn one(step: Step) -> Outcome {
        Outcome { steps: seq![step], ending: EndingModel::Done }
    }

    /// Failure before anything is done.
    pub open spec fn fail(e: ErrorModel) -> Outcome {
        Outcome { steps: Seq::empty(), ending: EndingModel::Fail(e) }
    }

    /// These steps followed by those of `next`, unless these end in failure.
    pub open spec fn followed_by(self, next: Outcome) -> Outcome {
        if self.ending is Done {
            Outcome { steps: self.steps + next.steps, ending: next.ending }
        } else {
            self
        }
    }
}

/// The whole range of manifest entry `idx`.
pub open spec fn tensor_read_spec(layers: Seq<LayerModel>, idx: usize) -> Result<TensorRead, ErrorModel> {
    if idx >= layers.len() {
        Err(ErrorModel::MemoryError)
    } else {
        Ok(TensorRead { entry: idx, offset: layers[idx as int].offset as u64, len: layers[idx as int].size as u64 })
    }
}

/// Row `row` of manifest entry `idx`, taken as a matrix of rows of `d_model`
/// scalars.
///
/// There is no such row where the model has no width, where the entry is not
/// a whole number of rows, or where it has fewer rows.
pub open spec fn row_read_spec(layers: Seq<LayerModel>, d_model: u32, idx: usize, row: u32) -> Result<
    TensorRead,
    ErrorModel,
> {
    let row_bytes = d_model * SCALAR_BYTES;
    if idx >= layers.len() {
        Err(ErrorModel::MemoryError)
    } else if row_bytes == 0 || layers[idx as int].size as int % row_bytes != 0 {
        Err(ErrorModel::ComputationError)
    } else if row >= layers[idx as int].size as int / row_bytes {
        Err(ErrorModel::ComputationError)
    } else {
        Ok(
            TensorRead {
                entry: idx,
                offset: (layers[idx as int].offset + row * row_bytes) as u64,
                len: row_bytes as u64,
            },
        )
    }
}

/// The weight matrix of `in_dim` by `out_dim` scalars that manifest entry
/// `idx` must hold exactly.
pub open spec fn matmul_read_spec(layers: Seq<LayerModel>, idx: usize, in_dim: u64, out_dim: u64) -> Result<
    TensorRead,
    ErrorModel,
> {
    if idx >= layers.len() {
        Err(ErrorModel::MemoryError)
    } else if in_dim * out_dim * SCALAR_BYTES != layers[idx as int].size {
        Err(ErrorModel::ComputationError)
    } else {
        Ok(TensorRead { entry: idx, offset: layers[idx as int].offset as u64, len: layers[idx as int].size as u64 })
    }
}

/// The whole range of manifest entry `idx`, or `MemoryError` where the
/// manifest has no such entry.
pub fn tensor_read(manifest: &Manifest, idx: usize) -> (r: Result<TensorRead, Error>)
    ensures
        match r {
            Ok(read) => tensor_read_spec(layer_models(manifest.layers@), idx) == Ok::<TensorRead, ErrorModel>(read),
            Err(e) => tensor_read_spec(layer_models(manifest.layers@), idx) == Err::<TensorRead, ErrorModel>(e@),
        },
{
    if idx >= manifest.layers.len() {
        return Err(Error::MemoryError);
    }
    let layer = &manifest.layers[idx];
    assert(layer_models(manifest.layers@)[idx as int] == layer@);
    Ok(TensorRead { entry: idx, offset: layer.offset as u64, len: layer.size as u64 })
}

/// Row `row` of manifest entry `idx`; see [`row_read_spec`].
pub fn row_read(manifest: &Manifest, dims: ModelDims, idx: usize, row: u32) -> (r: Result<
    TensorRead,
    Error,
>)
    ensures
        match r {
            Ok(read) => row_read_spec(layer_models(manifest.layers@), dims.d_model, idx, row) == Ok::<
                TensorRead,
                ErrorModel,
            >(read),
            Err(e) => row_read_spec(layer_models(manifest.layers@), dims.d_model, idx, row) == Err::<
                TensorRead,
                ErrorModel,
            >(e@),
        },
{
    if idx >= manifest.layers.len() {
        return Err(Error::MemoryError);
    }
    let layer = &manifest.layers[idx];
    assert(layer_models(manifest.layers@)[idx as int] == layer@);
    let row_bytes: u64 = dims.d_model as u64 * SCALAR_BYTES;
    if row_bytes == 0 || layer.size as u64 % row_bytes != 0 {
        return Err(Error::ComputationError);
    }
    let rows: u64 = layer.size as u64 / row_bytes;
    if row as u64 >= rows {
        return Err(Error::ComputationError);
    }
    assert(row * row_bytes <= layer.size) by (nonlinear_arith)
        requires
            row < rows,
            rows == layer.size as int / row_bytes as int,
            row_bytes > 0,
    ;
    Ok(TensorRead { entry: idx, offset: layer.offset as u64 + row as u64 * row_bytes, len: row_bytes })
}

/// The weight matrix held by manifest entry `idx`; see [`matmul_read_spec`].
pub fn matmul_read(manifest: &Manifest, idx: usize, in_dim: u64, out_dim: u64) -> (r: Result<
    TensorRead,
    Error,
>)
    ensures
        match r {
            Ok(read) => matmul_read_spec(layer_models(manifest.layers@), idx, in_dim, out_dim) == Ok::<
                TensorRead,
                ErrorModel,
            >(read),
            Err(e) => matmul_read_spec(layer_models(manifest.layers@), idx, in_dim, out_dim) == Err::<
                TensorRead,
                ErrorModel,
            >(e@),
        },
{
    if idx >= manifest.layers.len() {
        return Err(Error::MemoryError);
    }
    let layer = &manifest.layers[idx];
    assert(layer_models(manifest.layers@)[idx as int] == layer@);
    let size: u64 = layer.size as u64;
    // Compare without multiplying: the product may not fit in 64 bits.
    let matches: bool = if in_dim == 0 || out_dim == 0 {
        size == 0
    } else if size % SCALAR_BYTES != 0 {
        false
    } else {
        let scalars: u64 = size / SCALAR_BYTES;
        scalars % in_dim == 0 && scalars / in_dim == out_dim
    };
    proof {
        lemma_matrix_size(in_dim as int, out_dim as int, size as int);
    }
    if !matches {
        return Err(Error::ComputationError);
    }
    Ok(TensorRead { entry: idx, offset: layer.offset as u64, len: size })
}

/// A size is `in_dim * out_dim * 4` exactly if it is a whole number of
/// scalars that divides by `in_dim` into `out_dim`.
proof fn lemma_matrix_size(in_dim: int, out_dim: int, size: int)
    requires
        0 <= in_dim,
        0 <= out_dim,
        0 <= size,
    ensures
        (in_dim * out_dim * 4 == size) <==> (if in_dim == 0 || out_dim == 0 {
            size == 0
        } else {
            size % 4 == 0 && (size / 4) % in_dim == 0 && (size / 4) / in_dim == out_dim
        }),
{
    if in_dim == 0 || out_dim == 0 {
        assert(in_dim * out_dim * 4 == 0) by (nonlinear_arith)
            requires
                in_dim == 0 || out_dim == 0,
        ;
    } else {
        if in_dim * out_dim * 4 == size {
            let scalars = in_dim * out_dim;
            assert(size == scalars * 4);
            assert(size % 4 == 0 && size / 4 == scalars);
            assert(scalars % in_dim == 0 && scalars / in_dim == out_dim) by {
                vstd::arithmetic::div_mod::lemma_fundamental_div_mod_converse(scalars, in_dim, out_dim, 0);
                assert(in_dim * out_dim == out_dim * in_dim) by (nonlinear_arith);
            }
        }
        if size % 4 == 0 && (size / 4) % in_dim == 0 && (size / 4) / in_dim == out_dim {
            let scalars = size / 4;
            vstd::arithmetic::div_mod::lemma_fundamental_div_mod(scalars, in_dim);
            assert(scalars == in_dim * out_dim);
        }
    }
}

} // verus!
