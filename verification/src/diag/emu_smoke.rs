//! Streaming every tensor once, as a smoke test of the whole read path.

use vstd::prelude::*;
use crate::manifest::{Layer, Manifest};
use crate::model::stream::{checksum_all_layers, tensor_bytes, tensors_served};
use crate::platform::cart::RomSource;
use crate::util::crc32::crc32_spec;

verus! {

/// What the smoke test found.
#[derive(Debug, Clone, Copy, PartialEq, Eq, Structural)]
pub struct SmokeReport {
    /// Number of bytes in all tensors together.
    pub total_bytes: u64,
    /// CRC-32 over all tensors, in manifest order.
    pub crc: u32,
}

/// Number of bytes in the first `n` tensors together.
pub open spec fn total_size(layers: Seq<Layer>, n: int) -> int
    decreases n,
{
    if n <= 0 {
        0
    } else {
        total_size(layers, n - 1) + layers[n - 1].size
    }
}

/// The size of any number of tensors is not negative and grows with their
/// number.
proof fn lemma_total_size_grows(layers: Seq<Layer>, n: int, m: int)
    requires
        0 <= n <= m,
    ensures
        0 <= total_size(layers, n) <= total_size(layers, m),
    decreases m,
{
    if n < m {
        lemma_total_size_grows(layers, n, m - 1);
    } else if n > 0 {
        lemma_total_size_grows(layers, n - 1, n - 1);
    }
}

/// Streams every tensor of `manifest` from `rom` and checksums what it
/// reads. Returns `None` as soon as a transfer fails; none fails where `rom`
/// serves every block within every tensor. The byte count is held at
/// `u64::MAX`.
pub fn run<R: RomSource + Copy>(rom: R, manifest: &Manifest) -> (r: Option<SmokeReport>)
    ensures
        r matches Some(report) ==> {
            let total = total_size(manifest.layers@, manifest.layers@.len() as int);
            &&& report.total_bytes == if total > u64::MAX {
                u64::MAX as int
            } else {
                total
            }
            &&& report.crc == crc32_spec(
                tensor_bytes(rom.rom(), manifest.layers@, manifest.layers@.len() as int),
            )
        },
        manifest.layers@.len() == 0 ==> r == Some(SmokeReport { total_bytes: 0, crc: 0 }),
        tensors_served(rom, manifest.layers@) ==> r is Some,
{
    let mut total_bytes: u64 = 0;
    let mut i: usize = 0;
    while i < manifest.layers.len()
        invariant
            i <= manifest.layers@.len(),
            total_bytes == if total_size(manifest.layers@, i as int) > u64::MAX {
                u64::MAX as int
            } else {
                total_size(manifest.layers@, i as int)
            },
        decreases manifest.layers@.len() - i,
    {
        proof {
            lemma_total_size_grows(manifest.layers@, i as int, i + 1);
        }
        let size: u64 = manifest.layers[i].size as u64;
        total_bytes = if size > u64::MAX - total_bytes {
            u64::MAX
        } else {
            total_bytes + size
        };
        i += 1;
    }
    match checksum_all_layers(rom, manifest) {
        Some(crc) => Some(SmokeReport { total_bytes, crc }),
        None => None,
    }
}

} // verus!
