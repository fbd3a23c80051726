//! Sampling the cartridge at a handful of offsets.

use vstd::prelude::*;
use crate::config::{probe_offset_mib, probe_offsets, PROBE_OFFSET_COUNT, PROBE_SAMPLE_BYTES};
use crate::io::rom_reader::{read_into, reads_as, still_serves, RomReader};
use crate::util::bytes::filled;

verus! {

/// What one probe found.
#[derive(Debug, Clone, PartialEq, Eq)]
pub struct ProbeSample {
    /// Offset that was probed.
    pub offset: u64,
    /// Whether the read succeeded.
    pub ok: bool,
    /// The sample: what was read, or the filler `0xCC` where the read
    /// failed without writing.
    pub bytes: Vec<u8>,
}

/// Reads [`PROBE_SAMPLE_BYTES`] bytes at each probe offset, in the order of
/// [`probe_offsets`]. A failed read is recorded and the probe goes on; a
/// read that the reader serves does not fail.
pub fn run_probe<R: RomReader>(rr: &mut R) -> (samples: Vec<ProbeSample>)
    ensures
        (*final(rr)).rom() == (*old(rr)).rom(),
        still_serves(*old(rr), *final(rr)),
        samples@.len() == PROBE_OFFSET_COUNT,
        forall|i: int|
            0 <= i < samples@.len() ==> {
                &&& (#[trigger] samples@[i]).offset == probe_offset_mib(i) * 1024 * 1024
                &&& samples@[i].bytes@.len() == PROBE_SAMPLE_BYTES
                &&& samples@[i].ok ==> reads_as((*old(rr)).rom(), samples@[i].offset as int, samples@[i].bytes@)
                &&& (*old(rr)).serves(samples@[i].offset, PROBE_SAMPLE_BYTES as nat) ==> samples@[i].ok
            },
{
    let ghost rom = rr.rom();
    let ghost rr0 = *rr;
    let offsets = probe_offsets();
    let mut samples: Vec<ProbeSample> = Vec::new();
    let mut i: usize = 0;
    while i < offsets.len()
        invariant
            i <= offsets@.len(),
            offsets@.len() == PROBE_OFFSET_COUNT,
            forall|k: int| 0 <= k < offsets@.len() ==> offsets@[k] == probe_offset_mib(k) * 1024 * 1024,
            rr.rom() == rom,
            still_serves(rr0, *rr),
            samples@.len() == i,
            forall|k: int|
                0 <= k < i ==> {
                    &&& (#[trigger] samples@[k]).offset == probe_offset_mib(k) * 1024 * 1024
                    &&& samples@[k].bytes@.len() == PROBE_SAMPLE_BYTES
                    &&& samples@[k].ok ==> reads_as(rom, samples@[k].offset as int, samples@[k].bytes@)
                    &&& rr0.serves(samples@[k].offset, PROBE_SAMPLE_BYTES as nat) ==> samples@[k].ok
                },
        decreases offsets@.len() - i,
    {
        let offset: u64 = offsets[i];
        let mut bytes = filled(PROBE_SAMPLE_BYTES, 0xCC);
        let ok: bool = read_into(rr, offset, bytes.as_mut_slice(), 0, PROBE_SAMPLE_BYTES);
        assert(bytes@.subrange(0, PROBE_SAMPLE_BYTES as int) =~= bytes@);
        samples.push(ProbeSample { offset, ok, bytes });
        i += 1;
    }
    samples
}

} // verus!
