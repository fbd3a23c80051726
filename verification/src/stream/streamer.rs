//! Callback-style double-buffered streaming with statistics.

use vstd::prelude::*;
use crate::config::BURST_BYTES;
use crate::io::rom_reader::{rom_range, serves_within, still_serves, RomReader};
use crate::platform::time::{now_cycles, Stopwatch};
use crate::stream::burst::BurstCursor;
use crate::stream::prefetch::PrefetchModel;
use crate::util::adler32::{adler32, adler32_spec, lemma_adler32_concat};
use crate::util::crc32::{crc32_update, crc32_update_spec, lemma_crc32_update_concat, CRC32_INIT};

verus! {

/// What a stream moved and how long it took.
#[derive(Debug, Clone, Copy, PartialEq, Eq, Structural)]
pub struct StreamStats {
    /// Bytes handed to the consumer.
    pub bytes: u64,
    /// Number of bursts, held at `u32::MAX` where there were more.
    pub bursts: u32,
    /// Microseconds spent waiting for transfers.
    pub dma_us: u64,
    /// Microseconds spent in the consumer.
    pub compute_us: u64,
}

/// The stream of `size` bytes at `off`, cut into bursts of [`BURST_BYTES`].
pub open spec fn burst_stream(rom: Seq<u8>, off: u64, size: u64) -> PrefetchModel {
    PrefetchModel {
        rom,
        next: off as int,
        end: off + size,
        first_buffer_next: true,
        len_a: BURST_BYTES as nat,
        len_b: BURST_BYTES as nat,
        failed: false,
    }
}

/// Whether `f` has been called on a slice that holds `bytes`.
pub open spec fn handed<F: FnMut(&[u8])>(f: F, bytes: Seq<u8>) -> bool {
    exists|c: &[u8]| #[trigger] call_ensures(f, (c,), ()) && c@ == bytes
}

/// Offset of burst number `j` of a stream that starts at `off`.
pub open spec fn burst_start(off: u64, j: int) -> int {
    off + j * BURST_BYTES
}

/// Length of burst number `j` of a stream of `size` bytes.
pub open spec fn burst_size(size: u64, j: int) -> int {
    if size - j * BURST_BYTES < BURST_BYTES {
        size - j * BURST_BYTES
    } else {
        BURST_BYTES as int
    }
}

/// Whether burst number `j` of the stream of `size` bytes at `off` is one
/// that `rr` does not undertake to serve.
pub open spec fn unserved<R: RomReader>(rr: R, off: u64, size: u64, j: int) -> bool {
    &&& 0 <= j
    &&& j * BURST_BYTES < size
    &&& off + size <= u64::MAX
    &&& !rr.serves(burst_start(off, j) as u64, burst_size(size, j) as nat)
}

/// Whether a stream to `f` may have come to a halt over burst number `j`:
/// `rr` does not undertake to serve that burst, and `f` has been called on
/// every burst in front of the one before it.
pub open spec fn stopped_at<R: RomReader, F: FnMut(&[u8])>(
    rr: R,
    f: F,
    off: u64,
    size: u64,
    j: int,
) -> bool {
    let m = burst_stream(rr.rom(), off, size);
    &&& unserved(rr, off, size, j)
    &&& forall|k: int|
        0 <= k < j - 1 ==> k < m.blocks().len() && handed(f, #[trigger] m.blocks()[k])
}

/// The burst count as the statistics report it.
pub open spec fn clamp_bursts(n: nat) -> u32 {
    if n > u32::MAX {
        u32::MAX
    } else {
        n as u32
    }
}

/// Whether `clock` stands still at zero.
pub open spec fn clock_is_zero<C: FnMut() -> u64>(clock: C) -> bool {
    forall|t: u64| call_ensures(clock, (), t) ==> t == 0
}

/// Streams `entry_size` bytes at `entry_offset` to `on_chunk`, one burst at a
/// time, reading each burst while the one before it is still unconsumed.
///
/// The consumer gets the bursts of the range in the order of their offsets;
/// only the last one may be shorter than [`BURST_BYTES`]. A burst is handed
/// over only after the transfer of its successor has been issued, so a failed
/// transfer ends the stream before the burst in front of it is consumed.
/// Returns `None` as soon as a transfer fails and where the range does not
/// fit in 64 bits; an empty range succeeds without touching the reader. A
/// range that fits is streamed to its end where the reader serves every
/// burst within it. A stream that fails has come to a halt over a burst that
/// the reader does not undertake to serve, and the consumer has got the
/// bursts in front of the one before it.
///
/// Time is not measured: the statistics report zero microseconds.
pub fn stream_entry<R: RomReader, F: FnMut(&[u8])>(
    rr: &mut R,
    entry_offset: u64,
    entry_size: u64,
    on_chunk: F,
) -> (r: Option<StreamStats>)
    requires
        forall|c: &[u8]| c@.len() <= BURST_BYTES ==> call_requires(on_chunk, (c,)),
    ensures
        (*final(rr)).rom() == (*old(rr)).rom(),
        still_serves(*old(rr), *final(rr)),
        entry_size == 0 ==> r == Some(StreamStats { bytes: 0, bursts: 0, dma_us: 0, compute_us: 0 }),
        entry_offset + entry_size > u64::MAX ==> r is None,
        entry_offset + entry_size <= u64::MAX && serves_within(
            *old(rr),
            entry_offset as int,
            entry_offset + entry_size,
            BURST_BYTES as nat,
        ) ==> r is Some,
        r is None ==> entry_offset + entry_size > u64::MAX || exists|j: int|
            stopped_at(*old(rr), on_chunk, entry_offset, entry_size, j),
        r matches Some(stats) ==> {
            let m = burst_stream((*old(rr)).rom(), entry_offset, entry_size);
            &&& entry_size > 0 ==> m.streamable()
            &&& stats.bytes == entry_size
            &&& stats.bursts == clamp_bursts(m.blocks().len())
            &&& stats.dma_us == 0
            &&& stats.compute_us == 0
            &&& forall|k: int| 0 <= k < m.blocks().len() ==> handed(on_chunk, #[trigger] m.blocks()[k])
        },
{
    stream_entry_timed(rr, entry_offset, entry_size, on_chunk, now_cycles)
}

/// [`stream_entry`] with a clock: `clock` is read around every transfer and
/// around every call of the consumer, and the statistics report the cycles
/// between the readings as microseconds, transfers and consumption apart.
#[verifier::loop_isolation(false)]
pub fn stream_entry_timed<R: RomReader, F: FnMut(&[u8]), C: FnMut() -> u64>(
    rr: &mut R,
    entry_offset: u64,
    entry_size: u64,
    mut on_chunk: F,
    mut clock: C,
) -> (r: Option<StreamStats>)
    requires
        forall|c: &[u8]| c@.len() <= BURST_BYTES ==> call_requires(on_chunk, (c,)),
        call_requires(clock, ()),
    ensures
        (*final(rr)).rom() == (*old(rr)).rom(),
        still_serves(*old(rr), *final(rr)),
        entry_size == 0 ==> r == Some(StreamStats { bytes: 0, bursts: 0, dma_us: 0, compute_us: 0 }),
        entry_offset + entry_size > u64::MAX ==> r is None,
        entry_offset + entry_size <= u64::MAX && serves_within(
            *old(rr),
            entry_offset as int,
            entry_offset + entry_size,
            BURST_BYTES as nat,
        ) ==> r is Some,
        r is None ==> entry_offset + entry_size > u64::MAX || exists|j: int|
            stopped_at(*old(rr), on_chunk, entry_offset, entry_size, j),
        r matches Some(stats) ==> {
            let m = burst_stream((*old(rr)).rom(), entry_offset, entry_size);
            &&& entry_size > 0 ==> m.streamable()
            &&& stats.bytes == entry_size
            &&& stats.bursts == clamp_bursts(m.blocks().len())
            &&& clock_is_zero(clock) ==> stats.dma_us == 0 && stats.compute_us == 0
            &&& forall|k: int| 0 <= k < m.blocks().len() ==> handed(on_chunk, #[trigger] m.blocks()[k])
        },
{
    broadcast use vstd::function::group_function_axioms;

    let ghost f0 = on_chunk;
    let ghost clock0 = clock;
    let ghost rom = rr.rom();
    let ghost rr0 = *rr;
    let ghost m0 = burst_stream(rom, entry_offset, entry_size);
    let ghost fits = entry_offset + entry_size <= u64::MAX;
    let ghost mut halt: int = 0;
    let mut stats = StreamStats { bytes: 0, bursts: 0, dma_us: 0, compute_us: 0 };
    if entry_size == 0 {
        assert(m0.blocks() =~= Seq::<Seq<u8>>::empty());
        return Some(stats);
    }
    let mut dma_sw = Stopwatch::new();
    let mut work_sw = Stopwatch::new();

    // Prime the first buffer.
    dma_sw.start_at(clock());
    let mut cursor = BurstCursor::start(rr, entry_offset, entry_size);
    dma_sw.stop_add_at(clock());
    let ghost mut log: Seq<Seq<u8>> = Seq::empty();
    proof {
        cursor.lemma_wf(rom);
        assert((PrefetchModel { failed: false, ..cursor.model(rom) }) == m0);
        assert(m0.blocks() =~= log + m0.blocks());
    }
    loop
        invariant
            on_chunk == f0,
            clock == clock0,
            entry_offset + entry_size > u64::MAX ==> cursor.model(rom).failed,
            rr.rom() == rom,
            still_serves(rr0, *rr),
            cursor.model(rom).next < m0.end ==> cursor.model(rom).next == entry_offset + log.len()
                * BURST_BYTES,
            cursor.model(rom).failed && fits ==> unserved(rr0, entry_offset, entry_size, halt) && halt
                - 1 <= log.len(),
            cursor.wf(rom),
            cursor.model(rom) == (PrefetchModel {
                next: cursor.model(rom).next,
                first_buffer_next: cursor.model(rom).first_buffer_next,
                failed: cursor.model(rom).failed,
                ..m0
            }),
            m0.next <= cursor.model(rom).next <= m0.end,
            cursor.model(rom).next > m0.next ==> cursor.model(rom).next <= rom.len(),
            m0.blocks() == log + (PrefetchModel { failed: false, ..cursor.model(rom) }).blocks(),
            forall|k: int| 0 <= k < log.len() ==> handed(f0, #[trigger] log[k]),
            stats.bytes == cursor.model(rom).next - entry_offset,
            stats.bursts == clamp_bursts(log.len()),
            clock_is_zero(clock0) ==> dma_sw.total() == 0 && work_sw.total() == 0,
        decreases cursor.model(rom).end - cursor.model(rom).next, if cursor.model(rom).failed { 0int } else { 1int },
    {
        let ghost before = cursor.model(rom);
        proof {
            cursor.lemma_wf(rom);
        }
        // Start the next transfer, then work on the current burst.
        dma_sw.start_at(clock());
        let next = cursor.next_burst(rr);
        dma_sw.stop_add_at(clock());
        match next {
            None => {
                proof {
                    if !before.failed {
                        halt = log.len() as int + 1;
                    }
                }
                break ;
            },
            Some(chunk) => {
                let len: u64 = chunk.len() as u64;
                work_sw.start_at(clock());
                on_chunk(chunk);
                work_sw.stop_add_at(clock());
                proof {
                    let live = PrefetchModel { failed: false, ..before };
                    assert(live == before);
                    assert(handed(f0, before.block()));
                    assert(live.blocks() =~= seq![live.block()] + live.advance().blocks());
                    log = log.push(before.block());
                    assert(m0.blocks() =~= log + live.advance().blocks());
                }
                stats.bytes = stats.bytes + len;
                if stats.bursts < u32::MAX {
                    stats.bursts = stats.bursts + 1;
                }
            },
        }
    }
    proof {
        cursor.lemma_wf(rom);
    }
    if cursor.failed() {
        proof {
            if fits {
                assert(unserved(rr0, entry_offset, entry_size, halt));
                assert(burst_stream(rr0.rom(), entry_offset, entry_size) == m0);
                assert forall|k: int| 0 <= k < halt - 1 implies k < m0.blocks().len() && handed(
                    f0,
                    #[trigger] m0.blocks()[k],
                ) by {
                    assert(k < log.len());
                    assert(m0.blocks()[k] == log[k]);
                    assert(handed(f0, log[k]));
                }
                assert(stopped_at(rr0, f0, entry_offset, entry_size, halt));
            }
        }
        return None;
    }
    proof {
        let live = PrefetchModel { failed: false, ..cursor.model(rom) };
        assert(live.blocks() =~= Seq::<Seq<u8>>::empty());
        assert(m0.blocks() =~= log);
    }
    stats.dma_us = dma_sw.micros();
    stats.compute_us = work_sw.micros();
    Some(stats)
}

/// Running checksums over streamed bytes: a CRC-32 register for the current
/// entry, one for everything streamed so far, and the two sums of Adler-32.
#[derive(Debug, Clone, Copy, PartialEq, Eq, Structural)]
pub struct Sums {
    pub crc: u32,
    pub total_crc: u32,
    pub s1: u32,
    pub s2: u32,
}

impl Sums {
    /// The sums after `bytes` more.
    pub open spec fn fed(self, bytes: Seq<u8>) -> Sums {
        let adler = adler32_spec((self.s1, self.s2), bytes);
        Sums {
            crc: crc32_update_spec(self.crc, bytes),
            total_crc: crc32_update_spec(self.total_crc, bytes),
            s1: adler.0,
            s2: adler.1,
        }
    }

    /// Feeding two pieces one after the other is feeding their
    /// concatenation.
    pub proof fn lemma_fed_concat(self, a: Seq<u8>, b: Seq<u8>)
        ensures
            self.fed(a).fed(b) == self.fed(a + b),
    {
        lemma_crc32_update_concat(self.crc, a, b);
        lemma_crc32_update_concat(self.total_crc, a, b);
        lemma_adler32_concat((self.s1, self.s2), a, b);
    }

    /// Sums that have seen nothing.
    pub fn new() -> (s: Self)
        ensures
            s == (Sums { crc: CRC32_INIT, total_crc: CRC32_INIT, s1: 1, s2: 0 }),
    {
        Sums { crc: CRC32_INIT, total_crc: CRC32_INIT, s1: 1, s2: 0 }
    }

    /// Feeds `bytes` into every sum.
    pub fn update(&mut self, bytes: &[u8])
        ensures
            *final(self) == old(self).fed(bytes@),
    {
        self.crc = crc32_update(self.crc, bytes);
        self.total_crc = crc32_update(self.total_crc, bytes);
        let (s1, s2) = adler32(self.s1, self.s2, bytes);
        self.s1 = s1;
        self.s2 = s2;
    }
}

/// How far a checksummed read came.
#[derive(Debug, Clone, Copy, PartialEq, Eq, Structural)]
pub struct Streamed {
    /// Bytes that went into the sums.
    pub bytes: u64,
    /// Number of bursts that went into the sums, held at `u32::MAX`.
    pub bursts: u32,
    /// Whether the whole range was read.
    pub complete: bool,
    /// Microseconds spent waiting for transfers.
    pub dma_us: u64,
    /// Microseconds spent on the sums.
    pub compute_us: u64,
}

/// Streams the `size` bytes at `offset` into `sums`, burst by burst, and
/// reads `clock` around every transfer and every update of the sums.
///
/// Where a transfer fails, the sums hold the bursts in front of the burst
/// that was waiting when it failed, and the result says how many bytes that
/// were. A range that fits in 64 bits is read to its end where the reader
/// serves every burst within it; a read that stops short has come to a halt
/// over a burst that the reader does not undertake to serve.
#[verifier::loop_isolation(false)]
pub fn checksum_range<R: RomReader, C: FnMut() -> u64>(
    rr: &mut R,
    offset: u64,
    size: u64,
    sums: &mut Sums,
    clock: &mut C,
) -> (r: Streamed)
    requires
        call_requires(*old(clock), ()),
    ensures
        *final(clock) == *old(clock),
        clock_is_zero(*old(clock)) ==> r.dma_us == 0 && r.compute_us == 0,
        (*final(rr)).rom() == (*old(rr)).rom(),
        r.bytes <= size,
        r.complete == (r.bytes == size),
        r.bytes > 0 ==> offset + r.bytes <= (*old(rr)).rom().len(),
        !r.complete ==> r.bytes % (BURST_BYTES as u64) == 0,
        r.bursts == clamp_bursts(((r.bytes + BURST_BYTES - 1) / (BURST_BYTES as int)) as nat),
        *final(sums) == old(sums).fed(rom_range((*old(rr)).rom(), offset as int, r.bytes as int)),
        still_serves(*old(rr), *final(rr)),
        offset + size <= u64::MAX && serves_within(
            *old(rr),
            offset as int,
            offset + size,
            BURST_BYTES as nat,
        ) ==> r.complete,
        !r.complete ==> offset + size > u64::MAX || exists|j: int|
            unserved(*old(rr), offset, size, j) && r.bytes == (if j > 0 {
                j - 1
            } else {
                0
            }) * BURST_BYTES,
{
    broadcast use vstd::function::group_function_axioms;

    let ghost rom = rr.rom();
    let ghost rr0 = *rr;
    let ghost fits = offset + size <= u64::MAX;
    let ghost mut halt: int = 0;
    let ghost start = *sums;
    let ghost clock0 = *clock;
    let mut done: u64 = 0;
    let mut bursts: u32 = 0;
    let mut dma_sw = Stopwatch::new();
    let mut work_sw = Stopwatch::new();
    dma_sw.start_at(clock());
    let mut cursor = BurstCursor::start(rr, offset, size);
    dma_sw.stop_add_at(clock());
    let ghost mut count: nat = 0;
    proof {
        cursor.lemma_wf(rom);
        start.lemma_fed_concat(Seq::empty(), Seq::empty());
        assert(Seq::<u8>::empty() + Seq::<u8>::empty() =~= Seq::<u8>::empty());
        lemma_crc32_update_concat(start.crc, Seq::empty(), Seq::empty());
    }
    loop
        invariant
            rr.rom() == rom,
            still_serves(rr0, *rr),
            cursor.model(rom).failed && fits ==> unserved(rr0, offset, size, halt) && count == (if halt
                > 0 {
                halt - 1
            } else {
                0
            }),
            cursor.wf(rom),
            cursor.model(rom).end == offset + size,
            offset <= cursor.model(rom).next <= cursor.model(rom).end,
            done == cursor.model(rom).next - offset,
            done > 0 ==> offset + done <= rom.len(),
            done < size ==> done == count * BURST_BYTES,
            done == size && size > 0 ==> (count - 1) * BURST_BYTES < done <= count * BURST_BYTES,
            size == 0 ==> count == 0,
            bursts == clamp_bursts(count),
            *sums == start.fed(rom_range(rom, offset as int, done as int)),
            *clock == clock0,
            clock_is_zero(clock0) ==> dma_sw.total() == 0 && work_sw.total() == 0,
        decreases cursor.model(rom).end - cursor.model(rom).next, if cursor.model(rom).failed { 0int } else { 1int },
    {
        let ghost before = cursor.model(rom);
        proof {
            cursor.lemma_wf(rom);
        }
        dma_sw.start_at(clock());
        let next = cursor.next_burst(rr);
        dma_sw.stop_add_at(clock());
        match next {
            None => {
                proof {
                    if !before.failed {
                        halt = count as int + 1;
                    }
                }
                break ;
            },
            Some(chunk) => {
                let len: u64 = chunk.len() as u64;
                proof {
                    start.lemma_fed_concat(rom_range(rom, offset as int, done as int), before.block());
                    assert(rom_range(rom, offset as int, done as int) + before.block() =~= rom_range(
                        rom,
                        offset as int,
                        done + len,
                    ));
                    count = count + 1;
                }
                work_sw.start_at(clock());
                sums.update(chunk);
                work_sw.stop_add_at(clock());
                done = done + len;
                if bursts < u32::MAX {
                    bursts = bursts + 1;
                }
            },
        }
    }
    proof {
        cursor.lemma_wf(rom);
        if done != size && fits {
            assert(cursor.model(rom).failed);
            assert(unserved(rr0, offset, size, halt));
            assert(done == count * BURST_BYTES);
        }
    }
    Streamed {
        bytes: done,
        bursts,
        complete: done == size,
        dma_us: dma_sw.micros(),
        compute_us: work_sw.micros(),
    }
}

} // verus!
