//! Streaming whole tensors through a pair of buffers.

use vstd::prelude::*;
use crate::config::{STREAM_BLOCK_BYTES, UI_BURSTS_PER_REFRESH};
use crate::io::rom_reader::rom_range;
use crate::manifest::Manifest;
use crate::platform::cart::{source_serves_within, RomSource};
use crate::stream::prefetch::{PrefetchModel, Prefetcher};
use crate::stream::streamer::handed;
use crate::util::bytes::filled;
use crate::util::crc32::{
    crc32_finish, crc32_spec, crc32_update, crc32_update_spec, lemma_crc32_update_concat, CRC32_INIT,
};

verus! {

/// Byte range of a tensor inside the weight blob.
pub struct LayerDesc {
    pub offset: u32,
    pub len: u32,
}

/// Why a tensor could not be streamed.
#[derive(Debug, Clone, Copy, PartialEq, Eq, Structural)]
pub enum StreamError {
    /// A transfer failed.
    Io,
}

/// The stream of `len` bytes at `off`, cut into blocks of
/// [`STREAM_BLOCK_BYTES`].
pub open spec fn layer_stream(rom: Seq<u8>, off: u32, len: u32) -> PrefetchModel {
    PrefetchModel {
        rom,
        next: off as int,
        end: off + len,
        first_buffer_next: true,
        len_a: STREAM_BLOCK_BYTES as nat,
        len_b: STREAM_BLOCK_BYTES as nat,
        failed: false,
    }
}

/// Whether block number `j` of the stream of `len` bytes at `off` is one
/// that `rom` does not undertake to serve.
pub open spec fn block_unserved<R: RomSource>(rom: R, off: u32, len: u32, j: int) -> bool {
    &&& 0 <= j
    &&& j * STREAM_BLOCK_BYTES < len
    &&& !rom.serves(
        (off + j * STREAM_BLOCK_BYTES) as u64,
        (if len - j * STREAM_BLOCK_BYTES < STREAM_BLOCK_BYTES {
            len - j * STREAM_BLOCK_BYTES
        } else {
            STREAM_BLOCK_BYTES as int
        }) as nat,
    )
}

/// Whether a stream to `f` may have come to a halt over block number `j`:
/// `rom` does not undertake to serve that block, and `f` has been called on
/// every block in front of it.
pub open spec fn halted_at<R: RomSource, F: FnMut(&[u8])>(
    rom: R,
    f: F,
    off: u32,
    len: u32,
    j: int,
) -> bool {
    let m = layer_stream(rom.rom(), off, len);
    &&& block_unserved(rom, off, len, j)
    &&& forall|k: int| 0 <= k < j ==> k < m.blocks().len() && handed(f, #[trigger] m.blocks()[k])
}

/// Streams the tensor `layer` from `rom` to `consume`, block by block, and
/// reports progress to `on_progress` as `(bytes done, bytes in all)`.
///
/// `consume` gets the blocks of the tensor in the order of their offsets.
/// Progress is reported after every fourth block and once more, as
/// `(len, len)`, when the tensor is complete. Fails with `Io`, without the
/// closing report, as soon as a transfer fails. The tensor is streamed to its
/// end where `rom` serves every block within it; a stream that fails has come
/// to a halt over a block that `rom` does not undertake to serve, after
/// `consume` has got the blocks in front of it.
#[verifier::loop_isolation(false)]
pub fn stream_layer<R: RomSource, C: FnMut(&[u8]), P: FnMut(u64, u64)>(
    rom: R,
    layer: &LayerDesc,
    mut consume: C,
    mut on_progress: P,
) -> (r: Result<(), StreamError>)
    requires
        forall|c: &[u8]| c@.len() <= STREAM_BLOCK_BYTES ==> call_requires(consume, (c,)),
        forall|done: u64, total: u64| done <= total ==> call_requires(on_progress, (done, total)),
    ensures
        layer.len == 0 ==> r is Ok,
        r matches Err(e) ==> e == StreamError::Io,
        source_serves_within(
            rom,
            layer.offset as int,
            layer.offset + layer.len,
            STREAM_BLOCK_BYTES as nat,
        ) ==> r is Ok,
        r is Err ==> exists|j: int| halted_at(rom, consume, layer.offset, layer.len, j),
        r is Ok ==> {
            let m = layer_stream(rom.rom(), layer.offset, layer.len);
            &&& layer.len > 0 ==> m.streamable()
            &&& forall|k: int| 0 <= k < m.blocks().len() ==> handed(consume, #[trigger] m.blocks()[k])
            &&& call_ensures(on_progress, (layer.len as u64, layer.len as u64), ())
        },
{
    broadcast use vstd::function::group_function_axioms;

    let ghost consume0 = consume;
    let ghost progress0 = on_progress;
    let ghost m0 = layer_stream(rom.rom(), layer.offset, layer.len);
    let ghost rom0 = rom;
    let ghost mut halt: int = 0;
    let mut a: Vec<u8> = filled(STREAM_BLOCK_BYTES, 0);
    let mut b: Vec<u8> = filled(STREAM_BLOCK_BYTES, 0);
    let mut pf = Prefetcher::new(
        rom,
        layer.offset as u64,
        layer.len as u64,
        a.as_mut_slice(),
        b.as_mut_slice(),
    );
    let total: u64 = layer.len as u64;
    let mut bursts: usize = 0;
    let ghost mut log: Seq<Seq<u8>> = Seq::empty();
    assert(pf@ == (PrefetchModel { failed: pf@.failed, ..m0 }));
    assert(m0.blocks() =~= log + m0.blocks());
    loop
        invariant
            consume == consume0,
            on_progress == progress0,
            pf.wf(),
            total == layer.len,
            bursts < UI_BURSTS_PER_REFRESH,
            pf@ == (PrefetchModel {
                next: pf@.next,
                first_buffer_next: pf@.first_buffer_next,
                failed: pf@.failed,
                ..m0
            }),
            m0.next <= pf@.next <= m0.end,
            m0.blocks() == log + (PrefetchModel { failed: false, ..pf@ }).blocks(),
            forall|k: int| 0 <= k < log.len() ==> handed(consume0, #[trigger] log[k]),
            pf@.next > m0.next ==> pf@.next <= pf@.rom.len(),
            forall|o: u64, n: nat|
                #![trigger rom0.serves(o, n)]
                #![trigger pf.source_serves(o, n)]
                rom0.serves(o, n) ==> pf.source_serves(o, n),
            pf@.next < m0.end ==> pf@.next == layer.offset + log.len() * STREAM_BLOCK_BYTES,
            pf@.failed ==> block_unserved(rom0, layer.offset, layer.len, halt) && halt == log.len(),
        decreases pf@.end - pf@.next, if pf@.failed { 0int } else { 1int },
    {
        let ghost before = pf@;
        proof {
            pf.lemma_wf();
        }
        match pf.next_block() {
            None => {
                break ;
            },
            Some(chunk) => {
                consume(chunk);
                proof {
                    halt = log.len() as int + 1;
                    let live = PrefetchModel { failed: false, ..before };
                    assert(live.block() == before.block());
                    assert(handed(consume0, before.block()));
                    assert(live.blocks() =~= seq![live.block()] + live.advance().blocks());
                    log = log.push(before.block());
                }
            },
        }
        proof {
            let live = PrefetchModel { failed: false, ..before };
            assert((PrefetchModel { failed: false, ..pf@ }) == live.advance());
            assert(m0.blocks() =~= log + live.advance().blocks());
        }
        bursts = bursts + 1;
        if bursts >= UI_BURSTS_PER_REFRESH {
            proof {
                pf.lemma_wf();
            }
            let done: u64 = total - pf.remaining();
            on_progress(done, total);
            bursts = 0;
        }
    }
    if pf.failed() {
        proof {
            assert(block_unserved(rom0, layer.offset, layer.len, halt));
            assert forall|k: int| 0 <= k < halt implies k < m0.blocks().len() && handed(
                consume0,
                #[trigger] m0.blocks()[k],
            ) by {
                assert(k < log.len());
                assert(m0.blocks()[k] == log[k]);
                assert(handed(consume0, log[k]));
            }
            assert(halted_at(rom0, consume0, layer.offset, layer.len, halt));
        }
        return Err(StreamError::Io);
    }
    proof {
        pf.lemma_wf();
        let live = PrefetchModel { failed: false, ..pf@ };
        assert(live.blocks() =~= Seq::<Seq<u8>>::empty());
        assert(m0.blocks() =~= log);
    }
    on_progress(total, total);
    Ok(())
}

/// Bytes of the tensors `layers[0..n]`, put end to end.
pub open spec fn tensor_bytes(rom: Seq<u8>, layers: Seq<crate::manifest::Layer>, n: int) -> Seq<u8>
    decreases n,
{
    if n <= 0 {
        Seq::empty()
    } else {
        tensor_bytes(rom, layers, n - 1) + rom_range(
            rom,
            layers[n - 1].offset as int,
            layers[n - 1].size as int,
        )
    }
}

/// Feeds the `len` bytes at `off` into the checksum register `crc`.
#[verifier::loop_isolation(false)]
fn crc_of_range<R: RomSource>(rom: R, off: u32, len: u32, crc: u32) -> (r: Option<u32>)
    ensures
        len == 0 ==> r is Some,
        r matches Some(c) ==> {
            &&& len > 0 ==> off + len <= rom.rom().len()
            &&& c == crc32_update_spec(crc, rom_range(rom.rom(), off as int, len as int))
        },
        source_serves_within(rom, off as int, off + len, STREAM_BLOCK_BYTES as nat) ==> r is Some,
{
    let ghost bytes = rom.rom();
    let ghost rom0 = rom;
    let ghost served = source_serves_within(rom, off as int, off + len, STREAM_BLOCK_BYTES as nat);
    let mut a: Vec<u8> = filled(STREAM_BLOCK_BYTES, 0);
    let mut b: Vec<u8> = filled(STREAM_BLOCK_BYTES, 0);
    let mut crc: u32 = crc;
    let ghost crc0 = crc;
    let mut pf = Prefetcher::new(rom, off as u64, len as u64, a.as_mut_slice(), b.as_mut_slice());
    loop
        invariant
            pf.wf(),
            pf@.rom == bytes,
            pf@.end == off + len,
            off <= pf@.next <= pf@.end,
            pf@.next > off ==> pf@.next <= bytes.len(),
            crc == crc32_update_spec(crc0, rom_range(bytes, off as int, pf@.next - off)),
            forall|o: u64, n: nat|
                #![trigger rom0.serves(o, n)]
                #![trigger pf.source_serves(o, n)]
                rom0.serves(o, n) ==> pf.source_serves(o, n),
            served ==> pf@.len_a == STREAM_BLOCK_BYTES && pf@.len_b == STREAM_BLOCK_BYTES
                && !pf@.failed,
        decreases pf@.end - pf@.next, if pf@.failed { 0int } else { 1int },
    {
        let ghost before = pf@;
        proof {
            pf.lemma_wf();
        }
        match pf.next_block() {
            None => {
                break ;
            },
            Some(chunk) => {
                proof {
                    lemma_crc32_update_concat(
                        crc0,
                        rom_range(bytes, off as int, before.next - off),
                        before.block(),
                    );
                    assert(rom_range(bytes, off as int, before.next - off) + before.block() =~= rom_range(
                        bytes,
                        off as int,
                        before.next + before.block_len() - off,
                    ));
                }
                crc = crc32_update(crc, chunk);
            },
        }
    }
    proof {
        pf.lemma_wf();
    }
    if pf.failed() {
        return None;
    }
    Some(crc)
}

/// Whether `rom` serves every block within every tensor of `layers`.
pub open spec fn tensors_served<R: RomSource>(rom: R, layers: Seq<crate::manifest::Layer>) -> bool {
    forall|i: int|
        0 <= i < layers.len() ==> source_serves_within(
            rom,
            (#[trigger] layers[i]).offset as int,
            layers[i].offset + layers[i].size,
            STREAM_BLOCK_BYTES as nat,
        )
}

/// CRC-32 over every tensor of `manifest`, in manifest order, as if the
/// tensors lay end to end.
///
/// Returns `None` as soon as a transfer fails. No transfer fails where `rom`
/// serves every block within every tensor.
pub fn checksum_all_layers<R: RomSource + Copy>(rom: R, manifest: &Manifest) -> (r: Option<u32>)
    ensures
        manifest.layers@.len() == 0 ==> r == Some(0u32),
        tensors_served(rom, manifest.layers@) ==> r is Some,
        r matches Some(crc) ==> crc == crc32_spec(
            tensor_bytes(rom.rom(), manifest.layers@, manifest.layers@.len() as int),
        ),
{
    let mut crc: u32 = CRC32_INIT;
    let mut i: usize = 0;
    while i < manifest.layers.len()
        invariant
            i <= manifest.layers@.len(),
            crc == crc32_update_spec(CRC32_INIT, tensor_bytes(rom.rom(), manifest.layers@, i as int)),
        decreases manifest.layers@.len() - i,
    {
        let layer = &manifest.layers[i];
        match crc_of_range(rom, layer.offset, layer.size, crc) {
            None => {
                return None;
            },
            Some(c) => {
                proof {
                    lemma_crc32_update_concat(
                        CRC32_INIT,
                        tensor_bytes(rom.rom(), manifest.layers@, i as int),
                        rom_range(rom.rom(), layer.offset as int, layer.size as int),
                    );
                }
                crc = c;
            },
        }
        i += 1;
    }
    assert(!CRC32_INIT == 0u32) by (bit_vector);
    Some(crc32_finish(crc))
}

} // verus!
