//! Measuring the streaming throughput of every entry.

use vstd::prelude::*;
use crate::config::{BENCH_MAX_BYTES_PER_ENTRY, BURST_BYTES};
use crate::io::rom_reader::{rom_range, serves_within, still_serves, RomReader};
use crate::stream::streamer::{checksum_range, clock_is_zero, Streamed, StreamStats, Sums};
use crate::util::adler32::adler32_spec;
use crate::weights::weights_rel_to_cart_off;
use crate::weights_manifest::{parse_header, EntryModel, ManErr, ManifestModel, ManifestView};

verus! {

/// KiB per second for `bytes` moved in `dma_us` microseconds; zero where no
/// time was measured.
pub open spec fn kib_per_second_spec(bytes: u64, dma_us: u64) -> int {
    if dma_us > 0 {
        bytes * 1_000_000 / (dma_us as int) / 1024
    } else {
        0
    }
}

/// KiB per second for `bytes` moved in `dma_us` microseconds, held at
/// `u64::MAX`.
pub fn kib_per_second(bytes: u64, dma_us: u64) -> (kbps: u64)
    ensures
        kbps == if kib_per_second_spec(bytes, dma_us) > u64::MAX {
            u64::MAX as int
        } else {
            kib_per_second_spec(bytes, dma_us)
        },
{
    if dma_us == 0 {
        return 0;
    }
    let wide: u128 = (bytes as u128) * 1_000_000 / (dma_us as u128) / 1024;
    if wide > u64::MAX as u128 {
        u64::MAX
    } else {
        wide as u64
    }
}

/// Share of the transfer time in the whole, in percent; zero where no time
/// was measured.
pub open spec fn dma_percent_spec(dma_us: u64, compute_us: u64) -> int {
    if dma_us + compute_us > 0 {
        dma_us * 100 / (dma_us + compute_us)
    } else {
        0
    }
}

/// Share of the transfer time in the whole, in percent.
pub fn dma_percent(dma_us: u64, compute_us: u64) -> (pct: u64)
    ensures
        pct == dma_percent_spec(dma_us, compute_us),
        pct <= 100,
{
    let total: u128 = dma_us as u128 + compute_us as u128;
    if total == 0 {
        return 0;
    }
    let pct: u128 = (dma_us as u128) * 100 / total;
    assert(pct <= 100) by (nonlinear_arith)
        requires
            pct == (dma_us * 100) / (total as int),
            dma_us <= total,
            total > 0,
    ;
    pct as u64
}

/// The throughput reported for a measurement; zero where there is none.
pub open spec fn rate_of(stats: Option<StreamStats>) -> int {
    match stats {
        None => 0,
        Some(st) => if kib_per_second_spec(st.bytes, st.dma_us) > u64::MAX {
            u64::MAX as int
        } else {
            kib_per_second_spec(st.bytes, st.dma_us)
        },
    }
}

/// The share of transfer time reported for a measurement; zero where there
/// is none.
pub open spec fn share_of(stats: Option<StreamStats>) -> int {
    match stats {
        None => 0,
        Some(st) => dma_percent_spec(st.dma_us, st.compute_us),
    }
}

/// What the benchmark measured of one entry.
#[derive(Debug, Clone, PartialEq, Eq)]
pub struct BenchLine {
    pub name: String,
    /// Number of bytes that the benchmark set out to stream.
    pub to_read: u64,
    /// What was streamed; `None` where the entry ends beyond the weight
    /// blob or a transfer failed.
    pub stats: Option<StreamStats>,
    /// First sum of Adler-32 over the streamed bytes.
    pub s1: u32,
    /// Second sum of Adler-32 over the streamed bytes.
    pub s2: u32,
    pub kib_per_second: u64,
    pub dma_percent: u64,
}

/// Number of bytes that the benchmark streams of an entry of `size` bytes.
pub open spec fn bench_len(size: u32) -> u64 {
    if size < BENCH_MAX_BYTES_PER_ENTRY {
        size as u64
    } else {
        BENCH_MAX_BYTES_PER_ENTRY as u64
    }
}

/// Streams up to [`BENCH_MAX_BYTES_PER_ENTRY`] bytes of every entry of the
/// manifest `man_bytes` through Adler-32 and measures the throughput.
///
/// Returns `None` where the header is refused. An entry that ends beyond the
/// `total_weights` bytes of the weight blob is not streamed; another one is
/// measured where the reader serves every burst within what is streamed of
/// it. A record that does not decode ends the scan. Time is read from
/// `clock`, in cycles.
#[verifier::loop_isolation(false)]
pub fn run<R: RomReader, C: FnMut() -> u64>(
    rr: &mut R,
    man_bytes: &[u8],
    total_weights: u64,
    clock: C,
) -> (r: Option<Vec<BenchLine>>)
    requires
        call_requires(clock, ()),
    ensures
        (*final(rr)).rom() == (*old(rr)).rom(),
        still_serves(*old(rr), *final(rr)),
        r is Some <==> parse_header(man_bytes@) is Ok,
        r matches Some(lines) ==> {
            let m = parse_header(man_bytes@)->Ok_0;
            let n = lines@.len();
            let rom = (*old(rr)).rom();
            &&& n <= m.count
            &&& m.decodes_up_to(n as nat)
            &&& n < m.count ==> m.record(n as nat) is Err
            &&& forall|k: int|
                0 <= k < n ==> {
                    let line = #[trigger] lines@[k];
                    let e = m.entry(k as nat);
                    &&& line.name@ == e.name
                    &&& line.to_read == bench_len(e.size)
                    &&& e.offset + line.to_read > total_weights ==> line.stats is None
                    &&& e.offset + line.to_read <= total_weights && serves_within(
                        *old(rr),
                        e.offset as int,
                        e.offset + line.to_read,
                        BURST_BYTES as nat,
                    ) ==> line.stats is Some
                    &&& line.stats matches Some(stats) ==> {
                        &&& stats.bytes == line.to_read
                        &&& clock_is_zero(clock) ==> stats.dma_us == 0 && stats.compute_us == 0
                        &&& (line.s1, line.s2) == adler32_spec(
                            (1, 0),
                            rom_range(rom, e.offset as int, line.to_read as int),
                        )
                    }
                    &&& line.kib_per_second == rate_of(line.stats)
                    &&& line.dma_percent == share_of(line.stats)
                }
        },
{
    let mut clock = clock;
    let ghost clock0 = clock;
    let ghost rom = rr.rom();
    let ghost rr0 = *rr;
    let view = match ManifestView::new(man_bytes) {
        Ok(v) => v,
        Err(_) => {
            return None;
        },
    };
    let count: u32 = view.count();
    let mut lines: Vec<BenchLine> = Vec::new();
    let mut stopped: bool = false;
    let mut at: usize = view.first_entry_offset();
    let mut i: u32 = 0;
    while i < count && !stopped
        invariant
            i <= count,
            count == view@.count,
            rr.rom() == rom,
            still_serves(rr0, *rr),
            !stopped ==> at == view@.record_start(i as nat) && lines@.len() == i,
            stopped ==> lines@.len() < count && view@.record(lines@.len()) is Err,
            view@.decodes_up_to(lines@.len()),
            forall|k: int|
                0 <= k < lines@.len() ==> {
                    let line = #[trigger] lines@[k];
                    let e = view@.entry(k as nat);
                    &&& line.name@ == e.name
                    &&& line.to_read == bench_len(e.size)
                    &&& e.offset + line.to_read > total_weights ==> line.stats is None
                    &&& e.offset + line.to_read <= total_weights && serves_within(
                        rr0,
                        e.offset as int,
                        e.offset + line.to_read,
                        BURST_BYTES as nat,
                    ) ==> line.stats is Some
                    &&& line.stats matches Some(stats) ==> {
                        &&& stats.bytes == line.to_read
                        &&& clock_is_zero(clock0) ==> stats.dma_us == 0 && stats.compute_us == 0
                        &&& (line.s1, line.s2) == adler32_spec(
                            (1, 0),
                            rom_range(rom, e.offset as int, line.to_read as int),
                        )
                    }
                    &&& line.kib_per_second == rate_of(line.stats)
                    &&& line.dma_percent == share_of(line.stats)
                },
            clock == clock0,
        decreases count - i, if stopped { 0int } else { 1int },
    {
        match view.entry_at(at) {
            Err(_) => {
                stopped = true;
            },
            Ok((entry, next)) => {
                assert(view@.record(i as nat) is Ok);
                assert(view@.record_start((i + 1) as nat) == next);
                let to_read: u64 = if entry.size < BENCH_MAX_BYTES_PER_ENTRY {
                    entry.size as u64
                } else {
                    BENCH_MAX_BYTES_PER_ENTRY as u64
                };
                let in_bounds: bool = entry.offset as u64 + to_read <= total_weights;
                let mut sums = Sums::new();
                let stats: Option<StreamStats> = if in_bounds {
                    let streamed = checksum_range(
                        rr,
                        weights_rel_to_cart_off(entry.offset as u64),
                        to_read,
                        &mut sums,
                        &mut clock,
                    );
                    if streamed.complete {
                        Some(
                            StreamStats {
                                bytes: streamed.bytes,
                                bursts: streamed.bursts,
                                dma_us: streamed.dma_us,
                                compute_us: streamed.compute_us,
                            },
                        )
                    } else {
                        None
                    }
                } else {
                    None
                };
                let (kbps, pct): (u64, u64) = match stats {
                    Some(st) => (kib_per_second(st.bytes, st.dma_us), dma_percent(st.dma_us, st.compute_us)),
                    None => (0, 0),
                };
                let ghost before = lines@;
                lines.push(
                    BenchLine {
                        name: entry.name.to_owned(),
                        to_read,
                        stats,
                        s1: sums.s1,
                        s2: sums.s2,
                        kib_per_second: kbps,
                        dma_percent: pct,
                    },
                );
                proof {
                    assert forall|k: int| 0 <= k < before.len() implies lines@[k] == before[k] by {}
                }
                at = next;
                i = i + 1;
            },
        }
    }
    Some(lines)
}

} // verus!
