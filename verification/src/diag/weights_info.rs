//! The first and the last bytes of the weight blob.

use vstd::prelude::*;
use crate::io::rom_reader::{read_into, reads_as, still_serves, RomReader};
use crate::util::bytes::filled;
use crate::weights::weights_rel_to_cart_off;

verus! {

/// Number of bytes read at either end of the blob.
pub const INFO_SAMPLE_BYTES: usize = 64;

/// A read of [`INFO_SAMPLE_BYTES`] bytes.
#[derive(Debug, Clone, PartialEq, Eq)]
pub struct InfoSample {
    /// Offset inside the weight blob.
    pub offset: u64,
    pub ok: bool,
    /// What the buffer held after the read.
    pub bytes: Vec<u8>,
}

/// What is known of the weight blob.
#[derive(Debug, Clone, PartialEq, Eq)]
pub struct WeightsInfo {
    pub base: u32,
    pub size: u64,
    /// The first bytes of the blob.
    pub first: InfoSample,
    /// The last bytes of the blob; `None` where the first read failed or
    /// the blob is shorter than a sample.
    pub last: Option<InfoSample>,
}

/// Reads one sample at `offset` of the weight blob.
fn sample<R: RomReader>(rr: &mut R, offset: u64) -> (s: InfoSample)
    ensures
        (*final(rr)).rom() == (*old(rr)).rom(),
        s.offset == offset,
        s.bytes@.len() == INFO_SAMPLE_BYTES,
        s.ok ==> reads_as((*old(rr)).rom(), offset as int, s.bytes@),
        still_serves(*old(rr), *final(rr)),
        (*old(rr)).serves(offset, INFO_SAMPLE_BYTES as nat) ==> s.ok,
{
    let mut bytes = filled(INFO_SAMPLE_BYTES, 0);
    let ok: bool = read_into(rr, weights_rel_to_cart_off(offset), bytes.as_mut_slice(), 0, INFO_SAMPLE_BYTES);
    assert(bytes@.subrange(0, INFO_SAMPLE_BYTES as int) =~= bytes@);
    InfoSample { offset, ok, bytes }
}

/// Samples both ends of a weight blob of `size` bytes at cartridge offset
/// `base`.
///
/// The end is sampled only after the start could be read, and only where the
/// blob is long enough to hold a sample. A sample that the reader serves can
/// be read.
pub fn show_weights_info<R: RomReader>(rr: &mut R, base: u32, size: u64) -> (info: WeightsInfo)
    ensures
        (*final(rr)).rom() == (*old(rr)).rom(),
        info.base == base,
        info.size == size,
        info.first.offset == 0,
        info.first.bytes@.len() == INFO_SAMPLE_BYTES,
        info.first.ok ==> reads_as((*old(rr)).rom(), 0, info.first.bytes@),
        still_serves(*old(rr), *final(rr)),
        (*old(rr)).serves(0, INFO_SAMPLE_BYTES as nat) ==> info.first.ok,
        info.last is Some <==> info.first.ok && size >= INFO_SAMPLE_BYTES,
        info.last matches Some(last) ==> {
            &&& last.offset == size - INFO_SAMPLE_BYTES
            &&& last.bytes@.len() == INFO_SAMPLE_BYTES
            &&& last.ok ==> reads_as((*old(rr)).rom(), last.offset as int, last.bytes@)
            &&& (*old(rr)).serves(last.offset, INFO_SAMPLE_BYTES as nat) ==> last.ok
        },
{
    let first = sample(rr, 0);
    if !first.ok || size < INFO_SAMPLE_BYTES as u64 {
        return WeightsInfo { base, size, first, last: None };
    }
    let last = sample(rr, size - INFO_SAMPLE_BYTES as u64);
    WeightsInfo { base, size, first, last: Some(last) }
}

} // verus!
