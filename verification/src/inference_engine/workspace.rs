//! The working set of a forward pass, carved from the arena.

use vstd::prelude::*;
use crate::config::STREAM_BLOCK_BYTES;
use crate::inference_engine::error::Error;
use crate::inference_engine::steps::{MAX_SEQ_LENGTH, SCALAR_BYTES};
use crate::memory_manager::{ArenaModel, MemoryManager};
use crate::model::dims::ModelDims;

verus! {

/// Number of regions in a working set.
pub const REGION_COUNT: usize = 14;

/// Alignment of every region.
pub const REGION_ALIGN: usize = 8;

/// Addresses of the buffers that a numeric kernel works in. Every buffer
/// holds 32-bit scalars, but for the two stream buffers, which hold bytes.
#[derive(Debug, Clone, Copy, PartialEq, Eq, Structural)]
pub struct Workspace {
    /// Hidden state, `seq_len * d_model` scalars.
    pub hidden: usize,
    /// Residual, `seq_len * d_model` scalars.
    pub residual: usize,
    /// Normalised hidden state, `seq_len * d_model` scalars.
    pub normed: usize,
    /// Attention output, `seq_len * d_model` scalars.
    pub attn_output: usize,
    /// Feed-forward output, `seq_len * d_model` scalars.
    pub ffn_hidden: usize,
    /// Attention context, `seq_len * d_model` scalars.
    pub context: usize,
    /// Queries, keys and values, `seq_len * 3 * d_model` scalars.
    pub qkv: usize,
    /// Feed-forward activations, `seq_len * d_ff` scalars.
    pub ffn_mid: usize,
    /// Attention scores or logits, as many scalars as the longer of the
    /// sequence and the vocabulary.
    pub scores: usize,
    /// One matrix row, `d_model` scalars.
    pub token_row: usize,
    /// Layer-norm weight, `d_model` scalars.
    pub weights_a: usize,
    /// First bias vector, as many scalars as the wider of `3 * d_model` and
    /// `d_ff`.
    pub bias_a: usize,
    /// Second bias vector, `d_model` scalars.
    pub bias_b: usize,
    /// The pair of stream buffers, [`STREAM_BLOCK_BYTES`] bytes each.
    pub stream: usize,
    /// Number of input positions that the buffers are sized for.
    pub seq_len: usize,
}

impl Workspace {
    /// The addresses of the regions, in the order in which they are
    /// reserved.
    pub open spec fn addresses(self) -> Seq<usize> {
        seq![
            self.hidden,
            self.residual,
            self.normed,
            self.attn_output,
            self.ffn_hidden,
            self.context,
            self.qkv,
            self.ffn_mid,
            self.scores,
            self.token_row,
            self.weights_a,
            self.bias_a,
            self.bias_b,
            self.stream,
        ]
    }
}

/// The larger of two numbers.
pub open spec fn larger(a: int, b: int) -> int {
    if a >= b {
        a
    } else {
        b
    }
}

/// Size in bytes of region `i` of the working set for `seq_len` positions.
pub open spec fn region_bytes(dims: ModelDims, seq_len: int, i: int) -> int {
    if i < 6 {
        seq_len * dims.d_model * SCALAR_BYTES
    } else if i == 6 {
        seq_len * 3 * dims.d_model * SCALAR_BYTES
    } else if i == 7 {
        seq_len * dims.d_ff * SCALAR_BYTES
    } else if i == 8 {
        larger(seq_len, dims.vocab_size as int) * SCALAR_BYTES
    } else if i == 9 || i == 10 || i == 12 {
        dims.d_model * SCALAR_BYTES
    } else if i == 11 {
        larger(3 * dims.d_model, dims.d_ff as int) * SCALAR_BYTES
    } else {
        2 * STREAM_BLOCK_BYTES
    }
}

/// The requests that reserve a working set, in the order of the regions.
pub open spec fn workspace_requests(dims: ModelDims, seq_len: int) -> Seq<(nat, nat)> {
    Seq::new(REGION_COUNT as nat, |i: int| (region_bytes(dims, seq_len, i) as nat, REGION_ALIGN as nat))
}

/// Address of region `k` of a working set reserved from the arena `a`: where
/// the cursor stands, rounded up, once the regions before it are allocated.
pub open spec fn region_address(a: ArenaModel, dims: ModelDims, seq_len: int, k: int) -> nat {
    a.alloc_all(workspace_requests(dims, seq_len).take(k)).alloc_addr(REGION_ALIGN as nat)
}

/// Sizes of the regions, in order.
fn region_sizes(dims: ModelDims, seq_len: usize) -> (sizes: Vec<u64>)
    requires
        seq_len <= MAX_SEQ_LENGTH,
    ensures
        sizes@.len() == REGION_COUNT,
        forall|i: int| 0 <= i < REGION_COUNT ==> sizes@[i] == region_bytes(dims, seq_len as int, i),
{
    let s: u64 = seq_len as u64;
    let d: u64 = dims.d_model as u64;
    let f: u64 = dims.d_ff as u64;
    let v: u64 = dims.vocab_size as u64;
    assert(s * d <= 128 * 0xFFFF_FFFF) by (nonlinear_arith)
        requires
            s <= 128,
            d <= 0xFFFF_FFFF,
    ;
    assert(s * f <= 128 * 0xFFFF_FFFF) by (nonlinear_arith)
        requires
            s <= 128,
            f <= 0xFFFF_FFFF,
    ;
    let act: u64 = s * d * SCALAR_BYTES;
    let three: u64 = 3 * d;
    assert(s * 3 * d == 3 * (s * d)) by (nonlinear_arith);
    let mut sizes: Vec<u64> = Vec::new();
    sizes.push(act);
    sizes.push(act);
    sizes.push(act);
    sizes.push(act);
    sizes.push(act);
    sizes.push(act);
    sizes.push(3 * act);
    sizes.push(s * f * SCALAR_BYTES);
    sizes.push(
        (if s >= v {
            s
        } else {
            v
        }) * SCALAR_BYTES,
    );
    sizes.push(d * SCALAR_BYTES);
    sizes.push(d * SCALAR_BYTES);
    sizes.push(
        (if three >= f {
            three
        } else {
            f
        }) * SCALAR_BYTES,
    );
    sizes.push(d * SCALAR_BYTES);
    sizes.push(2 * STREAM_BLOCK_BYTES as u64);
    sizes
}

/// Whether `ws` is the working set that a pass over `seq_len` positions
/// reserves from the arena `a`.
pub open spec fn reserved_from(ws: Workspace, a: ArenaModel, dims: ModelDims, seq_len: int) -> bool {
    &&& ws.seq_len == seq_len
    &&& forall|k: int|
        0 <= k < REGION_COUNT ==> #[trigger] ws.addresses()[k] == region_address(a, dims, seq_len, k)
}

/// Reserves the working set of a pass over `seq_len` positions.
///
/// The regions are allocated in order, each on an 8-byte boundary. Fails
/// with `MemoryError` at the first region that the arena cannot hold; the
/// regions before it stay allocated until the caller rolls the arena back.
#[verifier::loop_isolation(false)]
pub fn reserve(arena: &mut MemoryManager, dims: ModelDims, seq_len: usize) -> (r: Result<
    Workspace,
    Error,
>)
    requires
        seq_len <= MAX_SEQ_LENGTH,
    ensures
        final(arena)@.stack == old(arena)@.stack,
        final(arena)@.start == old(arena)@.start,
        final(arena)@.end == old(arena)@.end,
        final(arena)@.cursor >= old(arena)@.cursor,
        r is Ok <==> old(arena)@.fits_all(workspace_requests(dims, seq_len as int)),
        r matches Ok(ws) ==> {
            &&& final(arena)@ == old(arena)@.alloc_all(workspace_requests(dims, seq_len as int))
            &&& ws.seq_len == seq_len
            &&& forall|k: int|
                0 <= k < REGION_COUNT ==> #[trigger] ws.addresses()[k] == region_address(
                    old(arena)@,
                    dims,
                    seq_len as int,
                    k,
                )
        },
        r matches Err(e) ==> e@ == crate::inference_engine::error::ErrorModel::MemoryError,
{
    let ghost requests = workspace_requests(dims, seq_len as int);
    let ghost start = arena@;
    let sizes = region_sizes(dims, seq_len);
    let mut addresses: Vec<usize> = Vec::new();
    let mut i: usize = 0;
    assert(requests.take(0) =~= Seq::<(nat, nat)>::empty());
    while i < REGION_COUNT
        invariant
            i <= REGION_COUNT,
            sizes@.len() == REGION_COUNT,
            requests == workspace_requests(dims, seq_len as int),
            forall|k: int| 0 <= k < REGION_COUNT ==> sizes@[k] == region_bytes(dims, seq_len as int, k),
            addresses@.len() == i,
            start.fits_all(requests.take(i as int)),
            arena@ == start.alloc_all(requests.take(i as int)),
            arena@.stack == start.stack,
            arena@.start == start.start,
            arena@.end == start.end,
            arena@.cursor >= start.cursor,
            forall|k: int|
                0 <= k < i ==> #[trigger] addresses@[k] == region_address(start, dims, seq_len as int, k),
        decreases REGION_COUNT - i,
    {
        let size: u64 = sizes[i];
        proof {
            assert(requests.take(i + 1).drop_last() =~= requests.take(i as int));
            assert(requests.take(i + 1).last() == requests[i as int]);
            assert(requests[i as int] == (size as nat, REGION_ALIGN as nat));
            crate::memory_manager::lemma_alloc_all_keeps_stack(start, requests.take(i + 1));
            if !arena@.fits(size as nat, REGION_ALIGN as nat) && start.fits_all(requests) {
                lemma_prefix_must_fit(start, requests, i + 1);
            }
        }
        if size > usize::MAX as u64 {
            proof {
                use_type_invariant(&*arena);
                arena.lemma_inv_gives_wf();
                crate::memory_manager::lemma_align_up_is_least_multiple(arena@.cursor, REGION_ALIGN as nat);
            }
            return Err(Error::MemoryError);
        }
        match arena.allocate(size as usize, REGION_ALIGN) {
            None => {
                return Err(Error::MemoryError);
            },
            Some(addr) => {
                let ghost before = addresses@;
                addresses.push(addr);
                assert forall|k: int| 0 <= k < i + 1 implies #[trigger] addresses@[k] == region_address(
                    start,
                    dims,
                    seq_len as int,
                    k,
                ) by {
                    if k < i {
                        assert(addresses@[k] == before[k]);
                    }
                }
            },
        }
        i += 1;
    }
    assert(requests.take(REGION_COUNT as int) =~= requests);
    let ws =
        Workspace {
            hidden: addresses[0],
            residual: addresses[1],
            normed: addresses[2],
            attn_output: addresses[3],
            ffn_hidden: addresses[4],
            context: addresses[5],
            qkv: addresses[6],
            ffn_mid: addresses[7],
            scores: addresses[8],
            token_row: addresses[9],
            weights_a: addresses[10],
            bias_a: addresses[11],
            bias_b: addresses[12],
            stream: addresses[13],
            seq_len,
        };
    assert(ws.addresses() =~= addresses@);
    Ok(ws)
}

/// A run of requests fits only if each of its beginnings fits.
proof fn lemma_prefix_must_fit(a: ArenaModel, requests: Seq<(nat, nat)>, n: int)
    requires
        0 <= n <= requests.len(),
        a.fits_all(requests),
    ensures
        a.fits_all(requests.take(n)),
    decreases requests.len(),
{
    if n == requests.len() {
        assert(requests.take(n) =~= requests);
    } else {
        lemma_prefix_must_fit(a, requests.drop_last(), n);
        assert(requests.drop_last().take(n) =~= requests.take(n));
    }
}

} // verus!
