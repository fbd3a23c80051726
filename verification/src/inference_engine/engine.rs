//! The forward-pass engine.
//!
//! The engine owns the order of a pass. It resolves the plan once, and for
//! every call derives the steps, reserves the working set under a checkpoint,
//! streams each tensor from the cartridge and hands its bytes, block by
//! block, to the numeric kernel. Whatever the outcome, the arena is rolled
//! back before the call returns.

use vstd::prelude::*;
use vstd::slice::slice_subrange;
use crate::config::BURST_BYTES;
use crate::inference_engine::error::{Error, ErrorModel};
use crate::inference_engine::plan::{names_of, LayerPlan};
use crate::inference_engine::program::{forward_pass, forward_plan, ForwardPlan};
use crate::inference_engine::steps::{Ending, EndingModel, Outcome, Step, TensorRead, MAX_SEQ_LENGTH};
use crate::inference_engine::workspace::{reserve, reserved_from, workspace_requests, Workspace};
use crate::io::rom_reader::{serves_within, still_serves, RomReader};
use crate::stream::burst::BurstCursor;
use crate::manifest::{layer_models, Manifest};
use crate::memory_manager::{ArenaModel, MemoryManager, MAX_CHECKPOINTS};
use crate::model::dims::ModelDims;
use crate::stream::prefetch::PrefetchModel;

verus! {

/// The range that a step is executed on, if it has one.
pub open spec fn step_read(step: Step) -> Option<TensorRead> {
    match step {
        Step::TokenRow { read, .. } => Some(read),
        Step::PositionRow { read, .. } => Some(read),
        Step::NormWeight { read } => Some(read),
        Step::NormBias { read } => Some(read),
        Step::Bias { read, .. } => Some(read),
        Step::Matmul { read, .. } => Some(read),
        Step::Logits { read, .. } => Some(read),
        _ => None,
    }
}

impl Step {
    /// The range that this step is executed on, if it has one.
    pub fn read(&self) -> (r: Option<TensorRead>)
        ensures
            r == step_read(*self),
    {
        match *self {
            Step::TokenRow { read, .. } => Some(read),
            Step::PositionRow { read, .. } => Some(read),
            Step::NormWeight { read } => Some(read),
            Step::NormBias { read } => Some(read),
            Step::Bias { read, .. } => Some(read),
            Step::Matmul { read, .. } => Some(read),
            Step::Logits { read, .. } => Some(read),
            _ => None,
        }
    }
}

/// Row and column of the scalar at `byte_offset` of a row-major matrix with
/// `out_dim` columns, or `None` where the offset lies inside a scalar or the
/// matrix has no columns.
pub fn scalar_position(out_dim: u64, byte_offset: u64) -> (r: Option<(u64, u64)>)
    ensures
        r is Some <==> out_dim > 0 && byte_offset % 4 == 0,
        r matches Some((row, col)) ==> col < out_dim && (row * out_dim + col) * 4 == byte_offset,
{
    if out_dim == 0 || byte_offset % 4 != 0 {
        return None;
    }
    let index: u64 = byte_offset / 4;
    let row: u64 = index / out_dim;
    let col: u64 = index % out_dim;
    proof {
        vstd::arithmetic::div_mod::lemma_fundamental_div_mod(index as int, out_dim as int);
        assert(row * out_dim == out_dim * row) by (nonlinear_arith);
    }
    Some((row, col))
}

/// The stream of the bytes of `read`, cut into bursts of [`BURST_BYTES`].
pub open spec fn read_stream(rom: Seq<u8>, read: TensorRead) -> PrefetchModel {
    PrefetchModel {
        rom,
        next: read.offset as int,
        end: read.offset + read.len,
        first_buffer_next: true,
        len_a: BURST_BYTES as nat,
        len_b: BURST_BYTES as nat,
        failed: false,
    }
}

/// Whether `kernel` has accepted `bytes` as the bytes at `offset` of the
/// range of `step`.
pub open spec fn fed<K: FnMut(&Workspace, &Step, u64, &[u8]) -> Result<Option<u32>, Error>>(
    kernel: K,
    ws: Workspace,
    step: Step,
    offset: u64,
    bytes: Seq<u8>,
) -> bool {
    exists|c: &[u8], reply: Option<u32>| #[trigger]
        call_ensures(kernel, (&ws, &step, offset, c), Ok::<Option<u32>, Error>(reply)) && c@ == bytes
}

/// Whether `kernel` has accepted every block of the range `read` of `step`,
/// or, for an empty range, the step without bytes.
pub open spec fn fed_all<K: FnMut(&Workspace, &Step, u64, &[u8]) -> Result<Option<u32>, Error>>(
    kernel: K,
    ws: Workspace,
    step: Step,
    rom: Seq<u8>,
    read: TensorRead,
) -> bool {
    if read.len == 0 {
        fed(kernel, ws, step, 0, Seq::empty())
    } else {
        &&& read_stream(rom, read).streamable()
        &&& forall|k: int|
            0 <= k < read_stream(rom, read).blocks().len() ==> fed(
                kernel,
                ws,
                step,
                (k * BURST_BYTES) as u64,
                #[trigger] read_stream(rom, read).blocks()[k],
            )
    }
}

/// Whether `kernel` has refused some block with the error `e`.
pub open spec fn refused<K: FnMut(&Workspace, &Step, u64, &[u8]) -> Result<Option<u32>, Error>>(
    kernel: K,
    e: Error,
) -> bool {
    exists|w: &Workspace, s: &Step, off: u64, c: &[u8]| #[trigger]
        call_ensures(kernel, (w, s, off, c), Err::<Option<u32>, Error>(e))
}

/// Whether `kernel` has answered `reply` to `bytes` as the bytes at `offset`
/// of the range of `step`.
pub open spec fn replied<K: FnMut(&Workspace, &Step, u64, &[u8]) -> Result<Option<u32>, Error>>(
    kernel: K,
    ws: Workspace,
    step: Step,
    offset: u64,
    bytes: Seq<u8>,
    reply: Option<u32>,
) -> bool {
    exists|c: &[u8]| #[trigger]
        call_ensures(kernel, (&ws, &step, offset, c), Ok::<Option<u32>, Error>(reply)) && c@ == bytes
}

/// Whether `reply` is what `kernel` has answered to the last block of the
/// range `read` of `step`, or, for an empty range, to the step without
/// bytes.
pub open spec fn last_reply<K: FnMut(&Workspace, &Step, u64, &[u8]) -> Result<Option<u32>, Error>>(
    kernel: K,
    ws: Workspace,
    step: Step,
    rom: Seq<u8>,
    read: TensorRead,
    reply: Option<u32>,
) -> bool {
    if read.len == 0 {
        replied(kernel, ws, step, 0, Seq::empty(), reply)
    } else {
        let blocks = read_stream(rom, read).blocks();
        blocks.len() > 0 && replied(
            kernel,
            ws,
            step,
            ((blocks.len() - 1) * BURST_BYTES) as u64,
            blocks.last(),
            reply,
        )
    }
}

/// Whether the range `read` fits in 64 bits and `rr` serves every burst
/// within it.
pub open spec fn readable<R: RomReader>(rr: R, read: TensorRead) -> bool {
    read.offset + read.len <= u64::MAX && serves_within(
        rr,
        read.offset as int,
        read.offset + read.len,
        BURST_BYTES as nat,
    )
}

/// Streams the range `read` from the cartridge and hands it to `kernel`,
/// burst by burst, as the bytes of `step`, each burst while the next one is
/// already in the other buffer. A step on an empty range is handed over
/// once, with no bytes. Returns what the kernel answered last.
///
/// Fails with `RomReadError` as soon as a transfer fails, and with the
/// kernel's error as soon as the kernel refuses a burst. No transfer fails
/// on a range that is readable, so a failure there is the kernel's.
#[verifier::loop_isolation(false)]
pub fn feed<R: RomReader, K: FnMut(&Workspace, &Step, u64, &[u8]) -> Result<Option<u32>, Error>>(
    rr: &mut R,
    ws: &Workspace,
    step: &Step,
    read: TensorRead,
    kernel: &mut K,
) -> (r: Result<Option<u32>, Error>)
    requires
        forall|w: &Workspace, s: &Step, off: u64, c: &[u8]|
            c@.len() <= BURST_BYTES ==> call_requires(*old(kernel), (w, s, off, c)),
    ensures
        (*final(rr)).rom() == (*old(rr)).rom(),
        still_serves(*old(rr), *final(rr)),
        *final(kernel) == *old(kernel),
        r is Ok ==> fed_all(*old(kernel), *ws, *step, (*old(rr)).rom(), read),
        r matches Ok(reply) ==> last_reply(*old(kernel), *ws, *step, (*old(rr)).rom(), read, reply),
        r matches Err(e) ==> refused(*old(kernel), e) || (e@ == ErrorModel::RomReadError && !readable(
            *old(rr),
            read,
        )),
        read.offset + read.len > u64::MAX ==> r is Err,
{
    broadcast use vstd::function::group_function_axioms;

    let ghost k0 = *kernel;
    let ghost rom = rr.rom();
    let ghost rr0 = *rr;
    let ghost m0 = read_stream(rom, read);
    if read.len == 0 {
        let nothing: [u8; 0] = [];
        let none: &[u8] = slice_subrange(&nothing, 0, 0);
        assert(none@ =~= Seq::<u8>::empty());
        let verdict = kernel(ws, step, 0, none);
        return match verdict {
            Err(e) => {
                assert(call_ensures(k0, (ws, step, 0u64, none), Err::<Option<u32>, Error>(e)));
                Err(e)
            },
            Ok(reply) => {
                assert(call_ensures(k0, (ws, step, 0u64, none), Ok::<Option<u32>, Error>(reply)));
                assert(replied(k0, *ws, *step, 0, Seq::empty(), reply));
                Ok(reply)
            },
        };
    }
    let mut cursor = BurstCursor::start(rr, read.offset, read.len);
    let mut reply: Option<u32> = None;
    let mut done: u64 = 0;
    let ghost mut log: Seq<Seq<u8>> = Seq::empty();
    proof {
        cursor.lemma_wf(rom);
        assert((PrefetchModel { failed: false, ..cursor.model(rom) }) == m0);
        assert(m0.blocks() =~= log + m0.blocks());
    }
    loop
        invariant
            *kernel == k0,
            rr.rom() == rom,
            still_serves(rr0, *rr),
            readable(rr0, read) ==> !cursor.model(rom).failed,
            log.len() > 0 ==> replied(
                k0,
                *ws,
                *step,
                ((log.len() - 1) * BURST_BYTES) as u64,
                log.last(),
                reply,
            ),
            cursor.wf(rom),
            read.offset + read.len > u64::MAX ==> cursor.model(rom).failed,
            cursor.model(rom) == (PrefetchModel {
                next: cursor.model(rom).next,
                first_buffer_next: cursor.model(rom).first_buffer_next,
                failed: cursor.model(rom).failed,
                ..m0
            }),
            m0.next <= cursor.model(rom).next <= m0.end,
            cursor.model(rom).next > m0.next ==> cursor.model(rom).next <= rom.len(),
            done == cursor.model(rom).next - read.offset,
            cursor.model(rom).next < m0.end ==> done == log.len() * BURST_BYTES,
            m0.blocks() == log + (PrefetchModel { failed: false, ..cursor.model(rom) }).blocks(),
            forall|k: int| 0 <= k < log.len() ==> fed(k0, *ws, *step, (k * BURST_BYTES) as u64, #[trigger] log[k]),
        decreases cursor.model(rom).end - cursor.model(rom).next, if cursor.model(rom).failed { 0int } else { 1int },
    {
        let ghost before = cursor.model(rom);
        proof {
            cursor.lemma_wf(rom);
        }
        match cursor.next_burst(rr) {
            None => {
                break ;
            },
            Some(chunk) => {
                let len: u64 = chunk.len() as u64;
                let verdict = kernel(ws, step, done, chunk);
                match verdict {
                    Err(e) => {
                        assert(call_ensures(k0, (ws, step, done, chunk), Err::<Option<u32>, Error>(e)));
                        return Err(e);
                    },
                    Ok(answer) => {
                        assert(call_ensures(k0, (ws, step, done, chunk), Ok::<Option<u32>, Error>(answer)));
                        reply = answer;
                    },
                }
                proof {
                    let live = PrefetchModel { failed: false, ..before };
                    assert(live == before);
                    assert(fed(k0, *ws, *step, done, before.block()));
                    assert(live.blocks() =~= seq![live.block()] + live.advance().blocks());
                    log = log.push(before.block());
                    assert(m0.blocks() =~= log + live.advance().blocks());
                    assert(replied(k0, *ws, *step, done, log.last(), reply));
                }
                done = done + len;
            },
        }
    }
    proof {
        cursor.lemma_wf(rom);
    }
    if cursor.failed() {
        return Err(Error::RomReadError);
    }
    proof {
        let live = PrefetchModel { failed: false, ..cursor.model(rom) };
        assert(live.blocks() =~= Seq::<Seq<u8>>::empty());
        assert(m0.blocks() =~= log);
        assert(m0.blocks() =~= seq![m0.block()] + m0.advance().blocks());
    }
    Ok(reply)
}

/// The range that a step is executed on; an empty range for a step
/// without one.
pub open spec fn range_of(step: Step) -> TensorRead {
    match step_read(step) {
        Some(read) => read,
        None => TensorRead { entry: 0, offset: 0, len: 0 },
    }
}

/// The error that a list of steps ends in, if it ends in one.
pub open spec fn ending_error(ending: EndingModel) -> Option<ErrorModel> {
    match ending {
        EndingModel::Done => None,
        EndingModel::Fail(e) => Some(e),
        EndingModel::FailAfterRead(_, e) => Some(e),
    }
}

/// What a pass returns once its steps are through: `selected` is what the
/// kernel answered to the step that selects the token, and `discarded` says
/// whether the range that a failing pass reads and throws away could be
/// read.
pub open spec fn concluded(
    ending: EndingModel,
    selected: Option<u32>,
    discarded: bool,
    vocab_size: u32,
) -> Result<Seq<u32>, ErrorModel> {
    match ending {
        EndingModel::Done => match selected {
            Some(token) => if token < vocab_size {
                Ok(seq![token])
            } else {
                Err(ErrorModel::ComputationError)
            },
            None => Err(ErrorModel::ComputationError),
        },
        EndingModel::Fail(e) => Err(e),
        EndingModel::FailAfterRead(_, e) => if discarded {
            Err(e)
        } else {
            Err(ErrorModel::RomReadError)
        },
    }
}

/// A result of a pass with its tokens as a sequence and its error by its
/// model.
pub open spec fn result_model(r: Result<Vec<u32>, Error>) -> Result<Seq<u32>, ErrorModel> {
    match r {
        Ok(v) => Ok(v@),
        Err(e) => Err(e@),
    }
}

/// Decides what a pass returns once its steps are through.
///
/// A pass that is complete yields the selected token, provided that there
/// is one and that it is a token of the vocabulary; it fails with
/// `ComputationError` otherwise. A pass that ends in failure fails with the
/// error of its ending, but with `RomReadError` where the range that it was
/// to read and throw away could not be read.
pub fn conclude(ending: Ending, selected: Option<u32>, discarded: bool, vocab_size: u32) -> (r: Result<
    Vec<u32>,
    Error,
>)
    ensures
        result_model(r) == concluded(ending@, selected, discarded, vocab_size),
{
    match ending {
        Ending::Done => {
            match selected {
                Some(token) => {
                    if token < vocab_size {
                        let mut out: Vec<u32> = Vec::new();
                        out.push(token);
                        assert(out@ =~= seq![token]);
                        Ok(out)
                    } else {
                        Err(Error::ComputationError)
                    }
                },
                None => Err(Error::ComputationError),
            }
        },
        Ending::Fail(e) => Err(e),
        Ending::FailAfterRead(_, e) => {
            if discarded {
                Err(e)
            } else {
                Err(Error::RomReadError)
            }
        },
    }
}

/// Index of the last step of `steps` that selects the token, or `-1` where
/// no step does.
pub open spec fn select_index(steps: Seq<Step>) -> int
    decreases steps.len(),
{
    if steps.len() == 0 {
        -1
    } else if steps.last() is SelectToken {
        steps.len() - 1
    } else {
        select_index(steps.drop_last())
    }
}

/// The index of the selecting step is one of `steps`, or `-1`.
pub proof fn lemma_select_index_bounds(steps: Seq<Step>)
    ensures
        -1 <= select_index(steps) < steps.len(),
        select_index(steps) >= 0 ==> steps[select_index(steps)] is SelectToken,
    decreases steps.len(),
{
    if steps.len() > 0 && !(steps.last() is SelectToken) {
        lemma_select_index_bounds(steps.drop_last());
    }
}

/// Whether `selected` is what `kernel` has answered to the last step of
/// `steps` that selects the token; nothing where no step does.
pub open spec fn selection<K: FnMut(&Workspace, &Step, u64, &[u8]) -> Result<Option<u32>, Error>>(
    kernel: K,
    ws: Workspace,
    steps: Seq<Step>,
    rom: Seq<u8>,
    selected: Option<u32>,
) -> bool {
    let at = select_index(steps);
    if at < 0 {
        selected is None
    } else {
        last_reply(kernel, ws, steps[at], rom, range_of(steps[at]), selected)
    }
}

/// Whether a pass went through all its steps in the working set `ws` and
/// then returned `r`: the kernel has accepted every block of every step,
/// `selected` is its answer to the step that selects the token, a range
/// that could not be thrown away is one that is not readable, and `r` is
/// what follows from these.
pub open spec fn finished<
    R: RomReader,
    K: FnMut(&Workspace, &Step, u64, &[u8]) -> Result<Option<u32>, Error>,
>(
    kernel: K,
    rr: R,
    pass: Outcome,
    vocab_size: u32,
    ws: Workspace,
    selected: Option<u32>,
    discarded: bool,
    r: Result<Vec<u32>, Error>,
) -> bool {
    &&& forall|j: int|
        0 <= j < pass.steps.len() ==> #[trigger] fed_all(
            kernel,
            ws,
            pass.steps[j],
            rr.rom(),
            range_of(pass.steps[j]),
        )
    &&& selection(kernel, ws, pass.steps, rr.rom(), selected)
    &&& !discarded ==> (pass.ending matches EndingModel::FailAfterRead(read, _) && !readable(rr, read))
    &&& result_model(r) == concluded(pass.ending, selected, discarded, vocab_size)
}

/// Whether a pass may have been cut short with the error `e`: the kernel
/// has refused a block with it, or it is `RomReadError` and the range of
/// some step is not readable.
pub open spec fn interrupted<
    R: RomReader,
    K: FnMut(&Workspace, &Step, u64, &[u8]) -> Result<Option<u32>, Error>,
>(kernel: K, rr: R, pass: Outcome, e: Error) -> bool {
    ||| refused(kernel, e)
    ||| e@ == ErrorModel::RomReadError && exists|j: int|
        0 <= j < pass.steps.len() && !readable(rr, range_of(#[trigger] pass.steps[j]))
}

/// Reads the range `read`, burst by burst, and throws the bytes away.
/// Returns whether every burst could be read.
///
/// An empty range is read without a transfer. A range that does not fit in
/// 64 bits cannot be read, a range that is readable is read, and a range that
/// was read lies on the medium.
#[verifier::loop_isolation(false)]
fn discard<R: RomReader>(rr: &mut R, read: TensorRead) -> (ok: bool)
    ensures
        (*final(rr)).rom() == (*old(rr)).rom(),
        still_serves(*old(rr), *final(rr)),
        readable(*old(rr), read) ==> ok,
        read.len == 0 ==> ok,
        read.offset + read.len > u64::MAX ==> !ok,
        ok && read.len > 0 ==> read.offset + read.len <= (*old(rr)).rom().len(),
{
    let ghost rom = rr.rom();
    let ghost rr0 = *rr;
    let mut cursor = BurstCursor::start(rr, read.offset, read.len);
    proof {
        cursor.lemma_wf(rom);
    }
    loop
        invariant
            rr.rom() == rom,
            still_serves(rr0, *rr),
            readable(rr0, read) ==> !cursor.model(rom).failed,
            cursor.model(rom).len_a == BURST_BYTES,
            cursor.model(rom).len_b == BURST_BYTES,
            cursor.wf(rom),
            cursor.model(rom).end == read.offset + read.len,
            read.offset <= cursor.model(rom).next <= cursor.model(rom).end,
            cursor.model(rom).next > read.offset ==> cursor.model(rom).next <= rom.len(),
            read.len == 0 ==> !cursor.model(rom).failed,
            read.offset + read.len > u64::MAX ==> cursor.model(rom).failed,
        decreases
                cursor.model(rom).end - cursor.model(rom).next,
                if cursor.model(rom).failed {
                    0int
                } else {
                    1int
                },
    {
        proof {
            cursor.lemma_wf(rom);
        }
        match cursor.next_burst(rr) {
            None => {
                break ;
            },
            Some(_) => {
                proof {
                    cursor.lemma_wf(rom);
                }
            },
        }
    }
    proof {
        cursor.lemma_wf(rom);
    }
    !cursor.failed()
}

/// Runs the steps of a pass inside a working set from `arena`.
#[verifier::loop_isolation(false)]
fn execute<R: RomReader, K: FnMut(&Workspace, &Step, u64, &[u8]) -> Result<Option<u32>, Error>>(
    manifest: &Manifest,
    dims: ModelDims,
    plan: &LayerPlan,
    arena: &mut MemoryManager,
    rr: &mut R,
    tokens: &[u32],
    kernel: &mut K,
) -> (r: Result<Vec<u32>, Error>)
    requires
        0 < tokens@.len() <= MAX_SEQ_LENGTH,
        forall|w: &Workspace, s: &Step, off: u64, c: &[u8]|
            c@.len() <= BURST_BYTES ==> call_requires(*old(kernel), (w, s, off, c)),
    ensures
        (*final(rr)).rom() == (*old(rr)).rom(),
        still_serves(*old(rr), *final(rr)),
        *final(kernel) == *old(kernel),
        final(arena)@.stack == old(arena)@.stack,
        final(arena)@.start == old(arena)@.start,
        final(arena)@.end == old(arena)@.end,
        final(arena)@.cursor >= old(arena)@.cursor,
        explained(
            *old(kernel),
            *old(rr),
            forward_pass(layer_models(manifest.layers@), dims, *plan, tokens@),
            dims,
            tokens@.len() as int,
            old(arena)@,
            r,
        ),
{
    let ghost k0 = *kernel;
    let ghost rom = rr.rom();
    let ghost rr0 = *rr;
    let ghost arena0 = arena@;
    let ghost pass = forward_pass(layer_models(manifest.layers@), dims, *plan, tokens@);
    let ws = match reserve(arena, dims, tokens.len()) {
        Ok(ws) => ws,
        Err(e) => {
            return Err(e);
        },
    };
    let program = forward_plan(manifest, dims, plan, tokens);
    let mut selected: Option<u32> = None;
    let mut i: usize = 0;
    assert(pass.steps.take(0) =~= Seq::<Step>::empty());
    while i < program.steps.len()
        invariant
            i <= program.steps@.len(),
            program@ == pass,
            *kernel == k0,
            rr.rom() == rom,
            still_serves(rr0, *rr),
            forall|j: int| 0 <= j < i ==> fed_all(k0, ws, #[trigger] pass.steps[j], rom, range_of(pass.steps[j])),
            selection(k0, ws, pass.steps.take(i as int), rom, selected),
        decreases program.steps@.len() - i,
    {
        let step: Step = program.steps[i];
        let read: TensorRead = match step.read() {
            Some(read) => read,
            None => TensorRead { entry: 0, offset: 0, len: 0 },
        };
        let ghost before = *rr;
        let reply = match feed(rr, &ws, &step, read, kernel) {
            Ok(reply) => reply,
            Err(e) => {
                proof {
                    if !refused(k0, e) {
                        assert(!readable(before, range_of(pass.steps[i as int])));
                        assert(!readable(rr0, range_of(pass.steps[i as int])));
                        assert(interrupted(k0, rr0, pass, e));
                    }
                }
                return Err(e);
            },
        };
        proof {
            let shorter = pass.steps.take(i as int);
            let longer = pass.steps.take(i + 1);
            assert(longer.drop_last() =~= shorter);
            assert(longer.last() == step);
            lemma_select_index_bounds(shorter);
            if select_index(shorter) >= 0 {
                assert(longer[select_index(shorter)] == shorter[select_index(shorter)]);
            }
        }
        match step {
            Step::SelectToken { .. } => {
                selected = reply;
            },
            _ => {},
        }
        i += 1;
    }
    assert(pass.steps.take(i as int) =~= pass.steps);
    let ghost at_end = *rr;
    let discarded: bool = match program.ending {
        Ending::FailAfterRead(read, _) => discard(rr, read),
        _ => true,
    };
    let r = conclude(program.ending, selected, discarded, dims.vocab_size);
    proof {
        if !discarded {
            assert(pass.ending matches EndingModel::FailAfterRead(read, _) && !readable(at_end, read));
            assert(pass.ending matches EndingModel::FailAfterRead(read, _) && !readable(rr0, read));
        }
        assert(reserved_from(ws, arena0, dims, tokens@.len() as int));
        assert(finished(k0, rr0, pass, dims.vocab_size, ws, selected, discarded, r));
    }
    r
}

/// Whether the result `r` of a pass over `seq_len` tokens, with its working
/// set reserved from `arena`, is one that the pass can have.
///
/// Where the working set does not fit, the pass fails with `MemoryError`.
/// Otherwise the pass either went through all its steps and returned what
/// follows from its ending and the kernel's answers (see [`finished`] and
/// [`concluded`]), or it was cut short by the kernel's error or by a failed
/// read of a range that is not readable (see [`interrupted`]). So over a
/// reader that serves every range of the pass and a kernel that refuses
/// nothing, the pass goes through all its steps: it then succeeds exactly
/// where it is complete and the kernel selects a token of the vocabulary, and
/// fails with exactly the error of its ending otherwise.
pub open spec fn explained<
    R: RomReader,
    K: FnMut(&Workspace, &Step, u64, &[u8]) -> Result<Option<u32>, Error>,
>(kernel: K, rr: R, pass: Outcome, dims: ModelDims, seq_len: int, arena: ArenaModel, r: Result<
    Vec<u32>,
    Error,
>) -> bool {
    if !arena.fits_all(workspace_requests(dims, seq_len)) {
        r matches Err(e) && e@ == ErrorModel::MemoryError
    } else {
        ||| exists|ws: Workspace, selected: Option<u32>, discarded: bool|
            reserved_from(ws, arena, dims, seq_len) && #[trigger] finished(
                kernel,
                rr,
                pass,
                dims.vocab_size,
                ws,
                selected,
                discarded,
                r,
            )
        ||| r matches Err(e) && interrupted(kernel, rr, pass, e)
    }
}

/// Over a reader that serves every range of a pass and a kernel that refuses
/// nothing, a pass whose working set fits goes through all its steps and
/// returns what follows from its ending and the kernel's selection. A pass
/// whose steps end in failure then fails with exactly the error of its
/// ending.
pub proof fn lemma_served_pass_runs_to_its_ending<
    R: RomReader,
    K: FnMut(&Workspace, &Step, u64, &[u8]) -> Result<Option<u32>, Error>,
>(kernel: K, rr: R, pass: Outcome, dims: ModelDims, seq_len: int, arena: ArenaModel, r: Result<
    Vec<u32>,
    Error,
>)
    requires
        explained(kernel, rr, pass, dims, seq_len, arena, r),
        arena.fits_all(workspace_requests(dims, seq_len)),
        forall|e: Error| !refused(kernel, e),
        forall|j: int| 0 <= j < pass.steps.len() ==> readable(rr, range_of(#[trigger] pass.steps[j])),
        pass.ending matches EndingModel::FailAfterRead(read, _) ==> readable(rr, read),
    ensures
        exists|ws: Workspace, selected: Option<u32>|
            reserved_from(ws, arena, dims, seq_len) && #[trigger] finished(
                kernel,
                rr,
                pass,
                dims.vocab_size,
                ws,
                selected,
                true,
                r,
            ),
        !(pass.ending is Done) ==> (r matches Err(e) && Some(e@) == ending_error(pass.ending)),
{
    if r is Err {
        assert(!refused(kernel, r->Err_0));
    }
    let (ws, selected, discarded) = choose|ws: Workspace, selected: Option<u32>, discarded: bool|
        reserved_from(ws, arena, dims, seq_len) && #[trigger] finished(
            kernel,
            rr,
            pass,
            dims.vocab_size,
            ws,
            selected,
            discarded,
            r,
        );
    assert(discarded);
    assert(finished(kernel, rr, pass, dims.vocab_size, ws, selected, true, r));
}

/// A loaded model, ready to run forward passes.
pub struct ModelState<'a> {
    memory_manager: &'a mut MemoryManager,
    manifest: &'a Manifest,
    dims: ModelDims,
    plan: LayerPlan,
}

impl<'a> ModelState<'a> {
    /// State of the arena.
    pub closed spec fn arena(&self) -> ArenaModel {
        (*self.memory_manager)@
    }

    /// The manifest of the model.
    pub closed spec fn manifest(&self) -> Manifest {
        *self.manifest
    }

    /// The plan of the model.
    pub closed spec fn plan(&self) -> LayerPlan {
        self.plan
    }

    /// The dimensions of the model.
    pub closed spec fn dims(&self) -> ModelDims {
        self.dims
    }

    /// The steps of a pass of this model over `tokens`.
    pub open spec fn pass(&self, tokens: Seq<u32>) -> Outcome {
        forward_pass(layer_models(self.manifest().layers@), self.dims(), self.plan(), tokens)
    }

    /// Resolves the plan of `manifest` and takes its dimensions.
    pub fn new(memory_manager: &'a mut MemoryManager, manifest: &'a Manifest) -> (state: Self)
        ensures
            state.arena() == old(memory_manager)@,
            state.manifest() == *manifest,
            state.dims() == manifest.dims,
            state.plan().resolves(names_of(manifest.layers@)),
    {
        let dims = manifest.dims;
        let plan = LayerPlan::from_manifest(manifest);
        ModelState { memory_manager, manifest, dims, plan }
    }

    /// Number of layers in the plan.
    pub fn layer_count(&self) -> (n: usize)
        ensures
            n == self.plan().layers@.len(),
    {
        self.plan.layers.len()
    }

    /// The steps of a pass over `input_tokens`.
    pub fn steps(&self, input_tokens: &[u32]) -> (r: ForwardPlan)
        ensures
            r@ == self.pass(input_tokens@),
    {
        forward_plan(self.manifest, self.dims, &self.plan, input_tokens)
    }

    /// Runs one forward pass over `input_tokens` and returns the one token
    /// that the model predicts next.
    ///
    /// The bytes of every tensor are streamed from `rr` and handed to
    /// `kernel`, which does the arithmetic; `kernel` answers the last step
    /// with the token it selected. The working set is reserved under a
    /// checkpoint that is rolled back before the call returns, so the arena
    /// is left exactly as it was found, whatever the outcome.
    ///
    /// An input that is empty or longer than [`MAX_SEQ_LENGTH`] fails with
    /// `ComputationError` before anything else is looked at, and an arena
    /// whose checkpoint stack is full fails with `MemoryError`; for the rest
    /// see [`explained`].
    pub fn run_inference<
        R: RomReader,
        K: FnMut(&Workspace, &Step, u64, &[u8]) -> Result<Option<u32>, Error>,
    >(&mut self, rr: &mut R, input_tokens: &[u32], kernel: K) -> (r: Result<Vec<u32>, Error>)
        requires
            forall|w: &Workspace, s: &Step, off: u64, c: &[u8]|
                c@.len() <= BURST_BYTES ==> call_requires(kernel, (w, s, off, c)),
        ensures
            final(self).arena() == old(self).arena(),
            final(self).manifest() == old(self).manifest(),
            final(self).dims() == old(self).dims(),
            final(self).plan() == old(self).plan(),
            (*final(rr)).rom() == (*old(rr)).rom(),
            still_serves(*old(rr), *final(rr)),
            input_tokens@.len() == 0 || input_tokens@.len() > MAX_SEQ_LENGTH ==> (r matches Err(e) && e@
                == ErrorModel::ComputationError),
            0 < input_tokens@.len() <= MAX_SEQ_LENGTH && old(self).arena().stack.len() >= MAX_CHECKPOINTS
                ==> (r matches Err(e) && e@ == ErrorModel::MemoryError),
            0 < input_tokens@.len() <= MAX_SEQ_LENGTH && old(self).arena().stack.len() < MAX_CHECKPOINTS
                ==> explained(
                kernel,
                *old(rr),
                old(self).pass(input_tokens@),
                old(self).dims(),
                input_tokens@.len() as int,
                old(self).arena().checkpoint(),
                r,
            ),
    {
        let mut kernel = kernel;
        if input_tokens.len() == 0 || input_tokens.len() > MAX_SEQ_LENGTH {
            return Err(Error::ComputationError);
        }
        let ghost before = self.arena();
        proof {
            use_type_invariant(&*self.memory_manager);
            self.memory_manager.lemma_inv_gives_wf();
        }
        if self.memory_manager.checkpoint_depth() >= MAX_CHECKPOINTS {
            return Err(Error::MemoryError);
        }
        let token: usize = self.memory_manager.checkpoint();
        let r = execute(
            self.manifest,
            self.dims,
            &self.plan,
            &mut *self.memory_manager,
            rr,
            input_tokens,
            &mut kernel,
        );
        let restored: bool = self.memory_manager.restore_to(token);
        proof {
            assert(restored);
            assert(self.arena().stack =~= before.stack);
        }
        r
    }
}

} // verus!
