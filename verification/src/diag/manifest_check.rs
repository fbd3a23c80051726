//! Checking every entry of a manifest against the weight blob.

use vstd::prelude::*;
use crate::io::rom_reader::{read_into, reads_as, rom_range, still_serves, RomReader};
use crate::weights::weights_rel_to_cart_off;
use crate::weights_manifest::{parse_header, EntryModel, ManErr, ManifestModel, ManifestView};

verus! {

/// Number of bytes read from the start of each entry.
pub const CHECK_SAMPLE_BYTES: u32 = 32;

/// What the check found of one entry.
#[derive(Debug, Clone, PartialEq, Eq)]
pub struct EntryCheck {
    pub name: String,
    pub offset: u32,
    pub size: u32,
    /// Whether the entry is aligned and ends inside the weight blob.
    pub in_bounds: bool,
    /// Whether the first bytes of the entry could be read.
    pub read_ok: bool,
}

/// What the check found of a manifest.
#[derive(Debug, Clone, PartialEq, Eq)]
pub struct ManifestReport {
    /// One finding per record, up to the first that does not decode.
    pub entries: Vec<EntryCheck>,
    /// Why the scan ended early, if it did.
    pub decode_error: Option<ManErr>,
    /// Whether every record decoded and every entry is in bounds and
    /// readable.
    pub ok: bool,
}

/// Whether an entry starts on a multiple of `align` and ends inside a blob of
/// `weights_size` bytes. No entry is aligned to zero.
pub open spec fn entry_in_bounds(e: EntryModel, align: u16, weights_size: u64) -> bool {
    &&& e.offset + e.size <= weights_size
    &&& align != 0
    &&& e.offset as int % align as int == 0
}

/// Number of bytes that the check reads of an entry of `size` bytes.
pub open spec fn check_sample_len(size: u32) -> int {
    if size < CHECK_SAMPLE_BYTES {
        size as int
    } else {
        CHECK_SAMPLE_BYTES as int
    }
}

/// Checks each entry of the manifest `man_bytes` against a weight blob of
/// `weights_size` bytes: bounds, alignment, and a read of its first bytes.
///
/// Returns `None` where the header is refused. A record that does not decode
/// ends the scan and fails the check. The first bytes of an entry can be read
/// where the reader serves them.
pub fn manifest_check<R: RomReader>(rr: &mut R, man_bytes: &[u8], weights_size: u64) -> (r: Option<
    ManifestReport,
>)
    ensures
        (*final(rr)).rom() == (*old(rr)).rom(),
        still_serves(*old(rr), *final(rr)),
        r is Some <==> parse_header(man_bytes@) is Ok,
        r matches Some(report) ==> {
            let m = parse_header(man_bytes@)->Ok_0;
            let n = report.entries@.len();
            &&& n <= m.count
            &&& m.decodes_up_to(n as nat)
            &&& match report.decode_error {
                Some(e) => n < m.count && m.record(n as nat) == Err::<(EntryModel, int), ManErr>(e),
                None => n == m.count,
            }
            &&& forall|k: int|
                0 <= k < n ==> {
                    let found = #[trigger] report.entries@[k];
                    let e = m.entry(k as nat);
                    &&& found.name@ == e.name
                    &&& found.offset == e.offset
                    &&& found.size == e.size
                    &&& found.in_bounds == entry_in_bounds(e, m.align, weights_size)
                    &&& e.size == 0 ==> found.read_ok
                    &&& found.read_ok && e.size > 0 ==> e.offset + check_sample_len(e.size) <= (*old(
                        rr,
                    )).rom().len()
                    &&& (*old(rr)).serves(e.offset as u64, check_sample_len(e.size) as nat)
                        ==> found.read_ok
                }
            &&& report.ok == (report.decode_error is None && forall|k: int|
                0 <= k < n ==> (#[trigger] report.entries@[k]).in_bounds && report.entries@[k].read_ok)
        },
{
    let ghost rom = rr.rom();
    let ghost rr0 = *rr;
    let view = match ManifestView::new(man_bytes) {
        Ok(v) => v,
        Err(_) => {
            return None;
        },
    };
    let align: u16 = view.align();
    let count: u32 = view.count();
    let mut entries: Vec<EntryCheck> = Vec::new();
    let mut decode_error: Option<ManErr> = None;
    let mut ok_all: bool = true;
    let mut buf: [u8; 32] = [0; 32];
    let mut at: usize = view.first_entry_offset();
    let mut i: u32 = 0;
    while i < count && decode_error.is_none()
        invariant
            i <= count,
            count == view@.count,
            align == view@.align,
            rr.rom() == rom,
            still_serves(rr0, *rr),
            decode_error is None ==> at == view@.record_start(i as nat) && entries@.len() == i,
            decode_error matches Some(e) ==> entries@.len() < count && view@.record(entries@.len())
                == Err::<(EntryModel, int), ManErr>(e),
            view@.decodes_up_to(entries@.len()),
            forall|k: int|
                0 <= k < entries@.len() ==> {
                    let found = #[trigger] entries@[k];
                    let e = view@.entry(k as nat);
                    &&& found.name@ == e.name
                    &&& found.offset == e.offset
                    &&& found.size == e.size
                    &&& found.in_bounds == entry_in_bounds(e, align, weights_size)
                    &&& e.size == 0 ==> found.read_ok
                    &&& found.read_ok && e.size > 0 ==> e.offset + check_sample_len(e.size) <= rom.len()
                    &&& rr0.serves(e.offset as u64, check_sample_len(e.size) as nat) ==> found.read_ok
                },
            ok_all == (forall|k: int|
                0 <= k < entries@.len() ==> (#[trigger] entries@[k]).in_bounds && entries@[k].read_ok),
        decreases count - i, if decode_error is None { 1int } else { 0int },
    {
        match view.entry_at(at) {
            Err(e) => {
                decode_error = Some(e);
            },
            Ok((entry, next)) => {
                assert(view@.record(i as nat) is Ok);
                assert(view@.record_start((i + 1) as nat) == next);
                let end: u64 = entry.offset as u64 + entry.size as u64;
                let in_bounds: bool = end <= weights_size && align != 0 && entry.offset % (align as u32)
                    == 0;
                let to_read: usize = if entry.size < CHECK_SAMPLE_BYTES {
                    entry.size as usize
                } else {
                    CHECK_SAMPLE_BYTES as usize
                };
                let read_ok: bool = if to_read > 0 {
                    read_into(rr, weights_rel_to_cart_off(entry.offset as u64), &mut buf, 0, to_read)
                } else {
                    true
                };
                let ghost before = entries@;
                entries.push(
                    EntryCheck {
                        name: entry.name.to_owned(),
                        offset: entry.offset,
                        size: entry.size,
                        in_bounds,
                        read_ok,
                    },
                );
                proof {
                    assert forall|k: int| 0 <= k < before.len() implies entries@[k] == before[k] by {}
                    let added = entries@[before.len() as int];
                    assert(added.in_bounds == in_bounds && added.read_ok == read_ok);
                    if ok_all && in_bounds && read_ok {
                        assert forall|k: int| 0 <= k < entries@.len() implies (#[trigger] entries@[k]).in_bounds
                            && entries@[k].read_ok by {
                            if k < before.len() {
                                assert(before[k].in_bounds && before[k].read_ok);
                            }
                        }
                    } else if ok_all {
                        assert(!(added.in_bounds && added.read_ok));
                    } else {
                        let bad = choose|k: int|
                            0 <= k < before.len() && !((#[trigger] before[k]).in_bounds && before[k].read_ok);
                        assert(entries@[bad] == before[bad]);
                    }
                }
                ok_all = ok_all && in_bounds && read_ok;
                at = next;
                i = i + 1;
            },
        }
    }
    let ok: bool = ok_all && decode_error.is_none();
    Some(ManifestReport { entries, decode_error, ok })
}

} // verus!
