//! Build-time tunables of the weight-streaming runtime.

use vstd::prelude::*;

verus! {

/// Largest single transfer issued to the cartridge bus by the callback streamer.
pub const BURST_BYTES: usize = 32 * 1024;

/// Size of the arena that backs every transient buffer.
pub const HEAP_SIZE_BYTES: usize = 4 * 1024 * 1024;

/// Size of each of the two buffers used by the layer streamer.
pub const STREAM_BLOCK_BYTES: usize = 32 * 1024;

/// Alignment that the weight exporter enforces on every tensor.
pub const ROM_ALIGN: usize = 64;

/// Upper bound on the bytes streamed per entry by the throughput benchmark.
pub const BENCH_MAX_BYTES_PER_ENTRY: u32 = 4 * 1024 * 1024;

/// Number of bytes sampled at each probe offset.
pub const PROBE_SAMPLE_BYTES: usize = 64;

/// Whether transfers overlap with consumption.
pub const ENABLE_DOUBLE_BUFFER: bool = true;

/// Number of delivered blocks between two progress reports.
pub const UI_BURSTS_PER_REFRESH: usize = 4;

/// Highest cartridge offset (exclusive) that a reader may touch.
pub const ROM_LIMIT_BYTES: u64 = 1024 * 1024 * 1024;

/// Number of offsets visited by the cartridge probe.
pub const PROBE_OFFSET_COUNT: usize = 7;

/// The `i`-th probe offset in MiB: 16, 128, 256, 512, 768, 960 and 1023, in
/// that order.
pub open spec fn probe_offset_mib(i: int) -> int {
    if i == 0 {
        16
    } else if i == 1 {
        128
    } else if i == 2 {
        256
    } else if i == 3 {
        512
    } else if i == 4 {
        768
    } else if i == 5 {
        960
    } else {
        1023
    }
}

/// Cartridge offsets sampled by the probe, lowest first.
pub fn probe_offsets() -> (offsets: Vec<u64>)
    ensures
        offsets@.len() == PROBE_OFFSET_COUNT,
        forall|i: int| 0 <= i < offsets@.len() ==> offsets@[i] == probe_offset_mib(i) * 1024 * 1024,
        forall|i: int| 0 <= i < offsets@.len() ==> #[trigger] offsets@[i] + PROBE_SAMPLE_BYTES <= ROM_LIMIT_BYTES,
{
    let mut offsets: Vec<u64> = Vec::new();
    offsets.push(16 * 1024 * 1024);
    offsets.push(128 * 1024 * 1024);
    offsets.push(256 * 1024 * 1024);
    offsets.push(512 * 1024 * 1024);
    offsets.push(768 * 1024 * 1024);
    offsets.push(960 * 1024 * 1024);
    offsets.push(1023 * 1024 * 1024);
    offsets
}

} // verus!
