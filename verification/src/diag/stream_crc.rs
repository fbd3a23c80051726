//! Streaming every entry and comparing its CRC-32 with the manifest.

use vstd::prelude::*;
use crate::config::BURST_BYTES;
use crate::io::rom_reader::{rom_range, serves_within, still_serves, RomReader};
use crate::platform::time::now_cycles;
use crate::stream::streamer::{checksum_range, Streamed, Sums};
use crate::util::crc32::{crc32_finish, crc32_spec, crc32_update_spec, CRC32_INIT};
use crate::weights::weights_rel_to_cart_off;
use crate::weights_manifest::{parse_header, EntryModel, ManErr, ManifestModel, ManifestView};

verus! {

/// How a computed checksum compares with the manifest.
#[derive(Debug, Clone, Copy, PartialEq, Eq, Structural)]
pub enum CrcVerdict {
    /// The manifest is of version 1 and carries no checksums.
    Unchecked,
    /// The entry has no checksum to compare with.
    NoReference,
    /// The checksums agree.
    Verified,
    /// The checksums differ.
    Mismatch,
}

/// The verdict on a computed checksum, given the manifest's version and the
/// checksum it records.
pub open spec fn verdict_spec(version: u16, got: u32, expected: Option<u32>) -> CrcVerdict {
    if version < 2 {
        CrcVerdict::Unchecked
    } else {
        match expected {
            None => CrcVerdict::NoReference,
            Some(exp) => if got == exp {
                CrcVerdict::Verified
            } else {
                CrcVerdict::Mismatch
            },
        }
    }
}

/// The verdict on a computed checksum.
pub fn verdict(version: u16, got: u32, expected: Option<u32>) -> (v: CrcVerdict)
    ensures
        v == verdict_spec(version, got, expected),
{
    if version < 2 {
        CrcVerdict::Unchecked
    } else {
        match expected {
            None => CrcVerdict::NoReference,
            Some(exp) => if got == exp {
                CrcVerdict::Verified
            } else {
                CrcVerdict::Mismatch
            },
        }
    }
}

/// The checksum of one entry.
#[derive(Debug, Clone, PartialEq, Eq)]
pub struct EntryCrc {
    pub name: String,
    /// CRC-32 of the bytes that could be streamed.
    pub crc: u32,
    /// The checksum that the manifest records.
    pub expected: Option<u32>,
    pub verdict: CrcVerdict,
    /// How much of the entry could be streamed.
    pub streamed: Streamed,
}

/// The checksums of a manifest's entries.
#[derive(Debug, Clone, PartialEq, Eq)]
pub struct CrcReport {
    /// One finding per record, up to the first that does not decode.
    pub entries: Vec<EntryCrc>,
    /// CRC-32 of everything that was streamed, in manifest order.
    pub final_crc: u32,
}

/// The bytes streamed of the first `n` entries, put end to end.
pub open spec fn streamed_bytes(rom: Seq<u8>, m: ManifestModel, entries: Seq<EntryCrc>, n: int) -> Seq<u8>
    decreases n,
{
    if n <= 0 {
        Seq::empty()
    } else {
        streamed_bytes(rom, m, entries, n - 1) + rom_range(
            rom,
            m.entry((n - 1) as nat).offset as int,
            entries[n - 1].streamed.bytes as int,
        )
    }
}

/// Streams every entry of the manifest `man_bytes` and computes its CRC-32.
///
/// Returns `None` where the header is refused. A failed transfer cuts an
/// entry short without ending the scan; a record that does not decode ends
/// it. An entry is streamed to its end where the reader serves every burst
/// within it. A mismatch is a finding and nothing more.
pub fn run<R: RomReader>(rr: &mut R, man_bytes: &[u8]) -> (r: Option<CrcReport>)
    ensures
        (*final(rr)).rom() == (*old(rr)).rom(),
        still_serves(*old(rr), *final(rr)),
        r is Some <==> parse_header(man_bytes@) is Ok,
        r matches Some(report) ==> {
            let m = parse_header(man_bytes@)->Ok_0;
            let n = report.entries@.len();
            let rom = (*old(rr)).rom();
            &&& n <= m.count
            &&& m.decodes_up_to(n as nat)
            &&& n < m.count ==> m.record(n as nat) is Err
            &&& forall|k: int|
                0 <= k < n ==> {
                    let found = #[trigger] report.entries@[k];
                    let e = m.entry(k as nat);
                    &&& found.name@ == e.name
                    &&& found.expected == e.crc32
                    &&& found.streamed.bytes <= e.size
                    &&& found.streamed.complete == (found.streamed.bytes == e.size)
                    &&& found.crc == crc32_spec(rom_range(rom, e.offset as int, found.streamed.bytes as int))
                    &&& found.verdict == verdict_spec(m.version, found.crc, e.crc32)
                    &&& serves_within(*old(rr), e.offset as int, e.offset + e.size, BURST_BYTES as nat)
                        ==> found.streamed.complete
                }
            &&& report.final_crc == crc32_spec(streamed_bytes(rom, m, report.entries@, n as int))
        },
{
    let ghost rom = rr.rom();
    let ghost rr0 = *rr;
    let view = match ManifestView::new(man_bytes) {
        Ok(v) => v,
        Err(_) => {
            return None;
        },
    };
    let version: u16 = view.version();
    let count: u32 = view.count();
    let mut entries: Vec<EntryCrc> = Vec::new();
    let mut sums = Sums::new();
    let mut stopped: bool = false;
    let mut at: usize = view.first_entry_offset();
    let mut i: u32 = 0;
    while i < count && !stopped
        invariant
            i <= count,
            count == view@.count,
            version == view@.version,
            rr.rom() == rom,
            still_serves(rr0, *rr),
            !stopped ==> at == view@.record_start(i as nat) && entries@.len() == i,
            stopped ==> entries@.len() < count && view@.record(entries@.len()) is Err,
            view@.decodes_up_to(entries@.len()),
            forall|k: int|
                0 <= k < entries@.len() ==> {
                    let found = #[trigger] entries@[k];
                    let e = view@.entry(k as nat);
                    &&& found.name@ == e.name
                    &&& found.expected == e.crc32
                    &&& found.streamed.bytes <= e.size
                    &&& found.streamed.complete == (found.streamed.bytes == e.size)
                    &&& found.crc == crc32_spec(rom_range(rom, e.offset as int, found.streamed.bytes as int))
                    &&& found.verdict == verdict_spec(version, found.crc, e.crc32)
                    &&& serves_within(rr0, e.offset as int, e.offset + e.size, BURST_BYTES as nat)
                        ==> found.streamed.complete
                },
            sums.total_crc == crc32_update_spec(
                CRC32_INIT,
                streamed_bytes(rom, view@, entries@, entries@.len() as int),
            ),
        decreases count - i, if stopped { 0int } else { 1int },
    {
        match view.entry_at(at) {
            Err(_) => {
                stopped = true;
            },
            Ok((entry, next)) => {
                assert(view@.record(i as nat) is Ok);
                assert(view@.record_start((i + 1) as nat) == next);
                sums.crc = CRC32_INIT;
                let ghost before_sums = sums;
                let mut clock = || -> (t: u64)
                    ensures
                        t == 0,
                    { now_cycles() };
                let streamed = checksum_range(
                    rr,
                    weights_rel_to_cart_off(entry.offset as u64),
                    entry.size as u64,
                    &mut sums,
                    &mut clock,
                );
                let got: u32 = crc32_finish(sums.crc);
                let ghost before = entries@;
                entries.push(
                    EntryCrc {
                        name: entry.name.to_owned(),
                        crc: got,
                        expected: entry.crc32,
                        verdict: verdict(version, got, entry.crc32),
                        streamed,
                    },
                );
                proof {
                    assert forall|k: int| 0 <= k < before.len() implies entries@[k] == before[k] by {}
                    lemma_streamed_bytes_prefix(rom, view@, before, entries@, before.len() as int);
                    crate::util::crc32::lemma_crc32_update_concat(
                        CRC32_INIT,
                        streamed_bytes(rom, view@, before, before.len() as int),
                        rom_range(rom, entry.offset as int, streamed.bytes as int),
                    );
                }
                at = next;
                i = i + 1;
            },
        }
    }
    Some(CrcReport { entries, final_crc: crc32_finish(sums.total_crc) })
}

/// What was streamed of the first entries does not depend on the findings
/// behind them.
proof fn lemma_streamed_bytes_prefix(rom: Seq<u8>, m: ManifestModel, a: Seq<EntryCrc>, b: Seq<EntryCrc>, n: int)
    requires
        n <= a.len(),
        n <= b.len(),
        forall|k: int| 0 <= k < n ==> a[k] == b[k],
    ensures
        streamed_bytes(rom, m, a, n) == streamed_bytes(rom, m, b, n),
    decreases n,
{
    if n > 0 {
        lemma_streamed_bytes_prefix(rom, m, a, b, n - 1);
    }
}

} // verus!
