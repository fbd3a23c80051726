//! The steps of a whole forward pass, derived from the plan.
//!
//! A pass runs through its phases in a fixed order and never goes back:
//! embedding of every input position, the layers in plan order, the final
//! normalisation, and the projection onto the vocabulary with the selection
//! of one token. The first check that fails ends the list.

use vstd::prelude::*;
use crate::inference_engine::error::{Error, ErrorModel};
use crate::inference_engine::plan::{LayerPlan, LayerSpec};
use crate::inference_engine::steps::{
    matmul_read, matmul_read_spec, row_read, row_read_spec, tensor_read, tensor_read_spec, BiasSlot,
    Buffer, Ending, EndingModel, Outcome, Step, TensorRead, MAX_SEQ_LENGTH, SCALAR_BYTES,
};
use crate::manifest::{layer_models, LayerModel, Manifest};
use crate::model::dims::ModelDims;
use crate::model::names::{
    L_FINAL_NORM_BIAS, L_FINAL_NORM_WEIGHT, L_LM_HEAD, L_POS_EMB, L_TOK_EMB,
};

verus! {

/// What a loaded vector is used as.
#[derive(Debug, Clone, Copy, PartialEq, Eq, Structural)]
pub enum LoadKind {
    NormWeight,
    NormBias,
    Bias(BiasSlot),
}

/// The step that loads `read` as `kind`.
pub open spec fn load_step(kind: LoadKind, read: TensorRead) -> Step {
    match kind {
        LoadKind::NormWeight => Step::NormWeight { read },
        LoadKind::NormBias => Step::NormBias { read },
        LoadKind::Bias(slot) => Step::Bias { slot, read },
    }
}

/// Loading manifest entry `idx` as a vector of scalars.
///
/// An index without an entry is a `MemoryError`. An entry that is not a whole
/// number of scalars is read all the same, and only then refused.
pub open spec fn load_piece(layers: Seq<LayerModel>, idx: usize, kind: LoadKind) -> Outcome {
    match tensor_read_spec(layers, idx) {
        Err(e) => Outcome::fail(e),
        Ok(read) => if read.len % SCALAR_BYTES != 0 {
            Outcome {
                steps: Seq::empty(),
                ending: EndingModel::FailAfterRead(read, ErrorModel::ComputationError),
            }
        } else {
            Outcome::one(load_step(kind, read))
        },
    }
}

/// Number of scalars in manifest entry `idx`.
pub open spec fn scalar_count(layers: Seq<LayerModel>, idx: usize) -> int {
    layers[idx as int].size as int / SCALAR_BYTES as int
}

/// The check that entry `idx` holds exactly `expected` scalars.
pub open spec fn count_piece(layers: Seq<LayerModel>, idx: usize, expected: int) -> Outcome {
    if idx < layers.len() && scalar_count(layers, idx) != expected {
        Outcome::fail(ErrorModel::ComputationError)
    } else {
        Outcome::nothing()
    }
}

/// A streamed matrix product with the weights of entry `idx`.
pub open spec fn matmul_piece(
    layers: Seq<LayerModel>,
    idx: usize,
    input: Buffer,
    output: Buffer,
    bias: BiasSlot,
    in_dim: u64,
    out_dim: u64,
) -> Outcome {
    match matmul_read_spec(layers, idx, in_dim, out_dim) {
        Err(e) => Outcome::fail(e),
        Ok(read) => Outcome::one(Step::Matmul { input, output, bias, in_dim, out_dim, read }),
    }
}

/// The check that the heads divide the model width evenly.
pub open spec fn heads_piece(dims: ModelDims) -> Outcome {
    if dims.n_head == 0 || dims.d_model % dims.n_head != 0 {
        Outcome::fail(ErrorModel::ComputationError)
    } else {
        Outcome::nothing()
    }
}

/// The check that the feed-forward layer has a width.
pub open spec fn ffn_width_piece(dims: ModelDims) -> Outcome {
    if dims.d_ff == 0 {
        Outcome::fail(ErrorModel::ComputationError)
    } else {
        Outcome::nothing()
    }
}

/// The check that a fixed role is in the plan.
pub open spec fn role_piece(role: Option<usize>, name: Seq<char>) -> Outcome {
    if role is None {
        Outcome::fail(ErrorModel::MissingLayer(name))
    } else {
        Outcome::nothing()
    }
}

/// The positional row used for input position `pos`: the position itself,
/// held at the last row of the trained window.
pub open spec fn position_row(pos: int, n_positions: u32) -> u32 {
    let last = if n_positions == 0 {
        0
    } else {
        n_positions - 1
    };
    if pos < last {
        pos as u32
    } else {
        last as u32
    }
}

/// The check that a token id is below the vocabulary size.
pub open spec fn token_piece(token: u32, dims: ModelDims) -> Outcome {
    if token >= dims.vocab_size {
        Outcome::fail(ErrorModel::ComputationError)
    } else {
        Outcome::nothing()
    }
}

/// Reading the embedding row of `token` into position `pos`.
pub open spec fn token_row_piece(
    layers: Seq<LayerModel>,
    dims: ModelDims,
    idx: usize,
    pos: usize,
    token: u32,
) -> Outcome {
    match row_read_spec(layers, dims.d_model, idx, token) {
        Err(e) => Outcome::fail(e),
        Ok(read) => Outcome::one(Step::TokenRow { position: pos, read }),
    }
}

/// Adding the positional row for position `pos`.
pub open spec fn position_row_piece(layers: Seq<LayerModel>, dims: ModelDims, idx: usize, pos: usize) -> Outcome {
    match row_read_spec(layers, dims.d_model, idx, position_row(pos as int, dims.n_positions)) {
        Err(e) => Outcome::fail(e),
        Ok(read) => Outcome::one(Step::PositionRow { position: pos, read }),
    }
}

/// `so_far`, then a layer normalisation with the given weight and bias.
pub open spec fn norm_onto(so_far: Outcome, layers: Seq<LayerModel>, dims: ModelDims, weight: usize, bias: usize) -> Outcome {
    so_far.followed_by(load_piece(layers, weight, LoadKind::NormWeight)).followed_by(
        load_piece(layers, bias, LoadKind::NormBias),
    ).followed_by(count_piece(layers, weight, dims.d_model as int)).followed_by(
        count_piece(layers, bias, dims.d_model as int),
    ).followed_by(Outcome::one(Step::LayerNorm { width: dims.d_model }))
}

/// `so_far`, then the attention block of `spec`.
pub open spec fn attention_onto(so_far: Outcome, layers: Seq<LayerModel>, dims: ModelDims, spec: LayerSpec) -> Outcome {
    let width = dims.d_model as u64;
    let three = (3 * dims.d_model) as u64;
    so_far.followed_by(heads_piece(dims)).followed_by(
        load_piece(layers, spec.attn_bias, LoadKind::Bias(BiasSlot::A)),
    ).followed_by(count_piece(layers, spec.attn_bias, 3 * dims.d_model)).followed_by(
        matmul_piece(layers, spec.attn_weight, Buffer::Normed, Buffer::Qkv, BiasSlot::A, width, three),
    ).followed_by(
        Outcome::one(
            Step::Attention { heads: dims.n_head, head_dim: (dims.d_model / dims.n_head) as u32 },
        ),
    ).followed_by(load_piece(layers, spec.attn_proj_bias, LoadKind::Bias(BiasSlot::B))).followed_by(
        count_piece(layers, spec.attn_proj_bias, dims.d_model as int),
    ).followed_by(
        matmul_piece(
            layers,
            spec.attn_proj_weight,
            Buffer::Context,
            Buffer::AttnOutput,
            BiasSlot::B,
            width,
            width,
        ),
    )
}

/// `so_far`, then the feed-forward block of `spec`.
pub open spec fn ffn_onto(so_far: Outcome, layers: Seq<LayerModel>, dims: ModelDims, spec: LayerSpec) -> Outcome {
    let width = dims.d_model as u64;
    let inner = dims.d_ff as u64;
    so_far.followed_by(ffn_width_piece(dims)).followed_by(
        load_piece(layers, spec.ffn_bias, LoadKind::Bias(BiasSlot::A)),
    ).followed_by(count_piece(layers, spec.ffn_bias, dims.d_ff as int)).followed_by(
        matmul_piece(layers, spec.ffn_weight, Buffer::Normed, Buffer::FfnMid, BiasSlot::A, width, inner),
    ).followed_by(Outcome::one(Step::Gelu)).followed_by(
        load_piece(layers, spec.ffn_proj_bias, LoadKind::Bias(BiasSlot::B)),
    ).followed_by(count_piece(layers, spec.ffn_proj_bias, dims.d_model as int)).followed_by(
        matmul_piece(
            layers,
            spec.ffn_proj_weight,
            Buffer::FfnMid,
            Buffer::FfnHidden,
            BiasSlot::B,
            inner,
            width,
        ),
    )
}

/// `so_far`, then one transformer block: normalise, attend, add the
/// residual; normalise, feed forward, add the residual.
pub open spec fn layer_onto(so_far: Outcome, layers: Seq<LayerModel>, dims: ModelDims, spec: LayerSpec) -> Outcome {
    let a = so_far.followed_by(Outcome::one(Step::SaveResidual));
    let b = norm_onto(a, layers, dims, spec.ln1_weight, spec.ln1_bias);
    let c = attention_onto(b, layers, dims, spec);
    let d = c.followed_by(Outcome::one(Step::AddResidual { source: Buffer::AttnOutput })).followed_by(
        Outcome::one(Step::SaveResidual),
    );
    let e = norm_onto(d, layers, dims, spec.ln2_weight, spec.ln2_bias);
    let f = ffn_onto(e, layers, dims, spec);
    f.followed_by(Outcome::one(Step::AddResidual { source: Buffer::FfnHidden }))
}

/// `so_far`, then the first `n` blocks of the plan, in plan order.
pub open spec fn layers_onto(
    so_far: Outcome,
    layers: Seq<LayerModel>,
    dims: ModelDims,
    specs: Seq<LayerSpec>,
    n: int,
) -> Outcome
    decreases n,
{
    if n <= 0 {
        so_far
    } else {
        layer_onto(layers_onto(so_far, layers, dims, specs, n - 1), layers, dims, specs[n - 1])
    }
}

/// `so_far`, then the embedding of the first `n` input positions: for each,
/// the token's row, then the position's row on top of it.
pub open spec fn rows_onto(
    so_far: Outcome,
    layers: Seq<LayerModel>,
    dims: ModelDims,
    embedding: usize,
    positional: usize,
    tokens: Seq<u32>,
    n: int,
) -> Outcome
    decreases n,
{
    if n <= 0 {
        so_far
    } else {
        rows_onto(so_far, layers, dims, embedding, positional, tokens, n - 1).followed_by(
            token_piece(tokens[n - 1], dims),
        ).followed_by(token_row_piece(layers, dims, embedding, (n - 1) as usize, tokens[n - 1])).followed_by(
            position_row_piece(layers, dims, positional, (n - 1) as usize),
        )
    }
}

/// `so_far`, then the embedding phase.
pub open spec fn embed_onto(so_far: Outcome, layers: Seq<LayerModel>, dims: ModelDims, plan: LayerPlan, tokens: Seq<u32>) -> Outcome {
    let checked = so_far.followed_by(role_piece(plan.embedding, L_TOK_EMB@)).followed_by(
        role_piece(plan.positional, L_POS_EMB@),
    );
    if plan.embedding is Some && plan.positional is Some {
        rows_onto(checked, layers, dims, plan.embedding->0, plan.positional->0, tokens, tokens.len() as int)
    } else {
        checked
    }
}

/// `so_far`, then the final normalisation, which replaces the hidden state.
pub open spec fn final_norm_onto(so_far: Outcome, layers: Seq<LayerModel>, dims: ModelDims, plan: LayerPlan) -> Outcome {
    let checked = so_far.followed_by(role_piece(plan.final_norm_weight, L_FINAL_NORM_WEIGHT@)).followed_by(
        role_piece(plan.final_norm_bias, L_FINAL_NORM_BIAS@),
    );
    if plan.final_norm_weight is Some && plan.final_norm_bias is Some {
        norm_onto(checked, layers, dims, plan.final_norm_weight->0, plan.final_norm_bias->0).followed_by(
            Outcome::one(Step::AdoptNormed),
        )
    } else {
        checked
    }
}

/// The check that there is a vocabulary to choose from.
pub open spec fn vocabulary_piece(dims: ModelDims) -> Outcome {
    if dims.vocab_size == 0 {
        Outcome::fail(ErrorModel::ComputationError)
    } else {
        Outcome::nothing()
    }
}

/// Number of output-head rows that can be read: the vocabulary size, or the
/// number of rows that the entry holds where that is smaller.
pub open spec fn logit_rows(layers: Seq<LayerModel>, dims: ModelDims, idx: usize) -> int {
    let rows = layers[idx as int].size as int / (dims.d_model * SCALAR_BYTES);
    if dims.vocab_size <= rows {
        dims.vocab_size as int
    } else {
        rows
    }
}

/// The logits of all readable rows of the output head, and the refusal of
/// a head that is too short for the vocabulary.
pub open spec fn logits_piece(layers: Seq<LayerModel>, dims: ModelDims, idx: usize) -> Outcome {
    match row_read_spec(layers, dims.d_model, idx, 0) {
        Err(e) => Outcome::fail(e),
        Ok(first) => {
            let rows = logit_rows(layers, dims, idx);
            let step = Step::Logits {
                rows: rows as u32,
                row_bytes: first.len,
                read: TensorRead { entry: idx, offset: first.offset, len: (rows * first.len) as u64 },
            };
            if rows < dims.vocab_size {
                Outcome { steps: seq![step], ending: EndingModel::Fail(ErrorModel::ComputationError) }
            } else {
                Outcome::one(step)
            }
        },
    }
}

/// `so_far`, then the output phase: one logit per vocabulary entry and the
/// selection of the likeliest token.
pub open spec fn output_onto(so_far: Outcome, layers: Seq<LayerModel>, dims: ModelDims, plan: LayerPlan) -> Outcome {
    let checked = so_far.followed_by(role_piece(plan.output, L_LM_HEAD@));
    if plan.output is Some {
        checked.followed_by(vocabulary_piece(dims)).followed_by(logits_piece(layers, dims, plan.output->0)).followed_by(
            Outcome::one(Step::SelectToken { vocab: dims.vocab_size }),
        )
    } else {
        checked
    }
}

/// The check that the input is neither empty nor longer than
/// [`MAX_SEQ_LENGTH`].
pub open spec fn input_piece(tokens: Seq<u32>) -> Outcome {
    if tokens.len() == 0 || tokens.len() > MAX_SEQ_LENGTH {
        Outcome::fail(ErrorModel::ComputationError)
    } else {
        Outcome::nothing()
    }
}

/// The steps of a forward pass over `tokens`.
pub open spec fn forward_pass(layers: Seq<LayerModel>, dims: ModelDims, plan: LayerPlan, tokens: Seq<u32>) -> Outcome {
    let start = Outcome::nothing().followed_by(input_piece(tokens));
    let embedded = embed_onto(start, layers, dims, plan, tokens);
    let transformed = layers_onto(embedded, layers, dims, plan.layers@, plan.layers@.len() as int);
    let normed = final_norm_onto(transformed, layers, dims, plan);
    output_onto(normed, layers, dims, plan)
}

/// A list of steps in the making.
#[derive(Debug, Clone)]
pub struct ForwardPlan {
    /// The steps, in the order in which they are executed.
    pub steps: Vec<Step>,
    /// What follows the last step.
    pub ending: Ending,
}

impl View for ForwardPlan {
    type V = Outcome;

    open spec fn view(&self) -> Outcome {
        Outcome { steps: self.steps@, ending: self.ending@ }
    }
}

impl ForwardPlan {
    /// An empty list that has not failed.
    pub fn new() -> (p: Self)
        ensures
            p@ == Outcome::nothing(),
    {
        ForwardPlan { steps: Vec::new(), ending: Ending::Done }
    }

    /// Whether the list has not ended in failure.
    pub fn is_open(&self) -> (open: bool)
        ensures
            open == (self@.ending is Done),
    {
        match self.ending {
            Ending::Done => true,
            _ => false,
        }
    }

    /// Appends `step` unless the list has ended in failure.
    fn push(&mut self, step: Step)
        ensures
            final(self)@ == old(self)@.followed_by(Outcome::one(step)),
    {
        if self.is_open() {
            self.steps.push(step);
            assert(self.steps@ =~= old(self).steps@ + seq![step]);
        }
    }

    /// Ends the list in `ending` unless it has ended in failure before.
    fn end(&mut self, ending: Ending)
        ensures
            final(self)@ == old(self)@.followed_by(Outcome { steps: Seq::empty(), ending: ending@ }),
    {
        if self.is_open() {
            self.ending = ending;
            assert(self.steps@ =~= old(self).steps@ + Seq::<Step>::empty());
        }
    }

    /// Appends nothing.
    proof fn lemma_nothing(self)
        ensures
            self@.followed_by(Outcome::nothing()) == self@,
    {
        assert(self@.steps + Seq::<Step>::empty() =~= self@.steps);
    }

    /// Appends the load of entry `idx` as `kind`.
    fn load(&mut self, manifest: &Manifest, idx: usize, kind: LoadKind)
        ensures
            final(self)@ == old(self)@.followed_by(load_piece(layer_models(manifest.layers@), idx, kind)),
    {
        match tensor_read(manifest, idx) {
            Err(e) => self.end(Ending::Fail(e)),
            Ok(read) => {
                if read.len % SCALAR_BYTES != 0 {
                    self.end(Ending::FailAfterRead(read, Error::ComputationError));
                } else {
                    let step = match kind {
                        LoadKind::NormWeight => Step::NormWeight { read },
                        LoadKind::NormBias => Step::NormBias { read },
                        LoadKind::Bias(slot) => Step::Bias { slot, read },
                    };
                    self.push(step);
                }
            },
        }
    }

    /// Appends the check that entry `idx` holds `expected` scalars.
    fn expect_count(&mut self, manifest: &Manifest, idx: usize, expected: u64)
        ensures
            final(self)@ == old(self)@.followed_by(count_piece(layer_models(manifest.layers@), idx, expected as int)),
    {
        proof {
            self.lemma_nothing();
        }
        if idx < manifest.layers.len() {
            assert(layer_models(manifest.layers@)[idx as int] == manifest.layers@[idx as int]@);
            if manifest.layers[idx].size as u64 / SCALAR_BYTES != expected {
                self.end(Ending::Fail(Error::ComputationError));
            }
        }
    }

    /// Appends a streamed matrix product.
    fn matmul(
        &mut self,
        manifest: &Manifest,
        idx: usize,
        input: Buffer,
        output: Buffer,
        bias: BiasSlot,
        in_dim: u64,
        out_dim: u64,
    )
        ensures
            final(self)@ == old(self)@.followed_by(
                matmul_piece(layer_models(manifest.layers@), idx, input, output, bias, in_dim, out_dim),
            ),
    {
        match matmul_read(manifest, idx, in_dim, out_dim) {
            Err(e) => self.end(Ending::Fail(e)),
            Ok(read) => self.push(Step::Matmul { input, output, bias, in_dim, out_dim, read }),
        }
    }

    /// Appends a failure with `ComputationError` where `bad` holds.
    fn refuse_if(&mut self, bad: bool)
        ensures
            final(self)@ == old(self)@.followed_by(
                if bad {
                    Outcome::fail(ErrorModel::ComputationError)
                } else {
                    Outcome::nothing()
                },
            ),
    {
        proof {
            self.lemma_nothing();
        }
        if bad {
            self.end(Ending::Fail(Error::ComputationError));
        }
    }

    /// Appends the check that a fixed role is in the plan.
    fn require_role(&mut self, role: Option<usize>, name: &'static str)
        ensures
            final(self)@ == old(self)@.followed_by(role_piece(role, name@)),
    {
        proof {
            self.lemma_nothing();
        }
        if role.is_none() {
            self.end(Ending::Fail(Error::MissingLayer(name)));
        }
    }

    /// Appends a layer normalisation.
    fn norm(&mut self, manifest: &Manifest, dims: ModelDims, weight: usize, bias: usize)
        ensures
            final(self)@ == norm_onto(old(self)@, layer_models(manifest.layers@), dims, weight, bias),
    {
        self.load(manifest, weight, LoadKind::NormWeight);
        self.load(manifest, bias, LoadKind::NormBias);
        self.expect_count(manifest, weight, dims.d_model as u64);
        self.expect_count(manifest, bias, dims.d_model as u64);
        self.push(Step::LayerNorm { width: dims.d_model });
    }

    /// Appends an attention block.
    fn attention(&mut self, manifest: &Manifest, dims: ModelDims, spec: &LayerSpec)
        ensures
            final(self)@ == attention_onto(old(self)@, layer_models(manifest.layers@), dims, *spec),
    {
        let width: u64 = dims.d_model as u64;
        let three: u64 = 3 * width;
        let bad_heads: bool = dims.n_head == 0 || dims.d_model % dims.n_head != 0;
        self.refuse_if(bad_heads);
        self.load(manifest, spec.attn_bias, LoadKind::Bias(BiasSlot::A));
        self.expect_count(manifest, spec.attn_bias, three);
        self.matmul(manifest, spec.attn_weight, Buffer::Normed, Buffer::Qkv, BiasSlot::A, width, three);
        let head_dim: u32 = if dims.n_head == 0 {
            0
        } else {
            dims.d_model / dims.n_head
        };
        self.push(Step::Attention { heads: dims.n_head, head_dim });
        self.load(manifest, spec.attn_proj_bias, LoadKind::Bias(BiasSlot::B));
        self.expect_count(manifest, spec.attn_proj_bias, width);
        self.matmul(
            manifest,
            spec.attn_proj_weight,
            Buffer::Context,
            Buffer::AttnOutput,
            BiasSlot::B,
            width,
            width,
        );
    }

    /// Appends a feed-forward block.
    fn ffn(&mut self, manifest: &Manifest, dims: ModelDims, spec: &LayerSpec)
        ensures
            final(self)@ == ffn_onto(old(self)@, layer_models(manifest.layers@), dims, *spec),
    {
        let width: u64 = dims.d_model as u64;
        let inner: u64 = dims.d_ff as u64;
        self.refuse_if(dims.d_ff == 0);
        self.load(manifest, spec.ffn_bias, LoadKind::Bias(BiasSlot::A));
        self.expect_count(manifest, spec.ffn_bias, inner);
        self.matmul(manifest, spec.ffn_weight, Buffer::Normed, Buffer::FfnMid, BiasSlot::A, width, inner);
        self.push(Step::Gelu);
        self.load(manifest, spec.ffn_proj_bias, LoadKind::Bias(BiasSlot::B));
        self.expect_count(manifest, spec.ffn_proj_bias, width);
        self.matmul(
            manifest,
            spec.ffn_proj_weight,
            Buffer::FfnMid,
            Buffer::FfnHidden,
            BiasSlot::B,
            inner,
            width,
        );
    }

    /// Appends one transformer block.
    fn layer(&mut self, manifest: &Manifest, dims: ModelDims, spec: &LayerSpec)
        ensures
            final(self)@ == layer_onto(old(self)@, layer_models(manifest.layers@), dims, *spec),
    {
        self.push(Step::SaveResidual);
        self.norm(manifest, dims, spec.ln1_weight, spec.ln1_bias);
        self.attention(manifest, dims, spec);
        self.push(Step::AddResidual { source: Buffer::AttnOutput });
        self.push(Step::SaveResidual);
        self.norm(manifest, dims, spec.ln2_weight, spec.ln2_bias);
        self.ffn(manifest, dims, spec);
        self.push(Step::AddResidual { source: Buffer::FfnHidden });
    }

    /// Appends the embedding of one input position.
    fn embed_position(
        &mut self,
        manifest: &Manifest,
        dims: ModelDims,
        embedding: usize,
        positional: usize,
        pos: usize,
        token: u32,
    )
        requires
            pos < MAX_SEQ_LENGTH,
        ensures
            final(self)@ == old(self)@.followed_by(token_piece(token, dims)).followed_by(
                token_row_piece(layer_models(manifest.layers@), dims, embedding, pos, token),
            ).followed_by(position_row_piece(layer_models(manifest.layers@), dims, positional, pos)),
    {
        self.refuse_if(token >= dims.vocab_size);
        match row_read(manifest, dims, embedding, token) {
            Err(e) => self.end(Ending::Fail(e)),
            Ok(read) => self.push(Step::TokenRow { position: pos, read }),
        }
        let last: u32 = if dims.n_positions == 0 {
            0
        } else {
            dims.n_positions - 1
        };
        let row: u32 = if (pos as u32) < last {
            pos as u32
        } else {
            last
        };
        match row_read(manifest, dims, positional, row) {
            Err(e) => self.end(Ending::Fail(e)),
            Ok(read) => self.push(Step::PositionRow { position: pos, read }),
        }
    }

    /// Appends the logits of the output head.
    fn logits(&mut self, manifest: &Manifest, dims: ModelDims, idx: usize)
        ensures
            final(self)@ == old(self)@.followed_by(logits_piece(layer_models(manifest.layers@), dims, idx)),
    {
        match row_read(manifest, dims, idx, 0) {
            Err(e) => self.end(Ending::Fail(e)),
            Ok(first) => {
                assert(layer_models(manifest.layers@)[idx as int] == manifest.layers@[idx as int]@);
                let size: u64 = manifest.layers[idx].size as u64;
                let held: u64 = size / first.len;
                let rows: u32 = if dims.vocab_size as u64 <= held {
                    dims.vocab_size
                } else {
                    held as u32
                };
                assert(rows * first.len <= size) by (nonlinear_arith)
                    requires
                        rows <= held,
                        held == size as int / first.len as int,
                        first.len > 0,
                ;
                let ghost before = self@;
                let step = Step::Logits {
                    rows,
                    row_bytes: first.len,
                    read: TensorRead { entry: idx, offset: first.offset, len: rows as u64 * first.len },
                };
                self.push(step);
                if rows < dims.vocab_size {
                    self.end(Ending::Fail(Error::ComputationError));
                    assert(before.ending is Done ==> self@.steps =~= before.steps + seq![step]);
                }
            },
        }
    }
}

/// The steps of a forward pass over `tokens`.
///
/// The list ends in `Done` where the pass can run to its end as far as the
/// manifest, the plan and the input tell, and otherwise in the failure that
/// stops it, behind the steps that come before that failure.
pub fn forward_plan(manifest: &Manifest, dims: ModelDims, plan: &LayerPlan, tokens: &[u32]) -> (r:
    ForwardPlan)
    ensures
        r@ == forward_pass(layer_models(manifest.layers@), dims, *plan, tokens@),
{
    let ghost layers = layer_models(manifest.layers@);
    let mut out = ForwardPlan::new();
    let count: usize = tokens.len();
    out.refuse_if(count == 0 || count > MAX_SEQ_LENGTH);
    let ghost start = out@;

    // Embedding.
    out.require_role(plan.embedding, L_TOK_EMB);
    out.require_role(plan.positional, L_POS_EMB);
    match (plan.embedding, plan.positional) {
        (Some(embedding), Some(positional)) => {
            let ghost checked = out@;
            let mut pos: usize = 0;
            while pos < count && out.is_open()
                invariant
                    pos <= count,
                    count == tokens@.len(),
                    layers == layer_models(manifest.layers@),
                    out@.ending is Done ==> count <= MAX_SEQ_LENGTH,
                    out@ == rows_onto(checked, layers, dims, embedding, positional, tokens@, pos as int),
                decreases count - pos,
            {
                out.embed_position(manifest, dims, embedding, positional, pos, tokens[pos]);
                pos += 1;
            }
            proof {
                lemma_rows_onto_failed(
                    checked,
                    layers,
                    dims,
                    embedding,
                    positional,
                    tokens@,
                    pos as int,
                    count as int,
                );
            }
        },
        _ => {},
    }
    let ghost embedded = out@;

    // The layers, in plan order.
    let mut k: usize = 0;
    while k < plan.layers.len()
        invariant
            k <= plan.layers@.len(),
            layers == layer_models(manifest.layers@),
            out@ == layers_onto(embedded, layers, dims, plan.layers@, k as int),
        decreases plan.layers@.len() - k,
    {
        out.layer(manifest, dims, &plan.layers[k]);
        k += 1;
    }

    // Final normalisation.
    out.require_role(plan.final_norm_weight, L_FINAL_NORM_WEIGHT);
    out.require_role(plan.final_norm_bias, L_FINAL_NORM_BIAS);
    match (plan.final_norm_weight, plan.final_norm_bias) {
        (Some(weight), Some(bias)) => {
            out.norm(manifest, dims, weight, bias);
            out.push(Step::AdoptNormed);
        },
        _ => {},
    }

    // Output.
    out.require_role(plan.output, L_LM_HEAD);
    match plan.output {
        Some(head) => {
            out.refuse_if(dims.vocab_size == 0);
            out.logits(manifest, dims, head);
            out.push(Step::SelectToken { vocab: dims.vocab_size });
        },
        None => {},
    }
    out
}

/// Once the embedding has failed, further positions add nothing.
proof fn lemma_rows_onto_failed(
    so_far: Outcome,
    layers: Seq<LayerModel>,
    dims: ModelDims,
    embedding: usize,
    positional: usize,
    tokens: Seq<u32>,
    from: int,
    to: int,
)
    requires
        0 <= from <= to,
        from < to ==> !(rows_onto(so_far, layers, dims, embedding, positional, tokens, from).ending is Done),
    ensures
        rows_onto(so_far, layers, dims, embedding, positional, tokens, to) == rows_onto(
            so_far,
            layers,
            dims,
            embedding,
            positional,
            tokens,
            from,
        ),
    decreases to - from,
{
    if from < to {
        lemma_rows_onto_failed(so_far, layers, dims, embedding, positional, tokens, from, to - 1);
    }
}

} // verus!
